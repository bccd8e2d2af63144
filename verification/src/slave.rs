//! The slave: it replays what the master sends.
use crate::aead::MAX_PLAINTEXT_LEN;
use crate::codec::frame_bytes;
use crate::crypto::SessionKeys;
use crate::event::{DisplayGeometry, HelloInfo, HelloModel, InputEvent, PROTO_VERSION};
use crate::frame::{frame_models, Frame, FrameModel};
use crate::reliable::{due_packets, packets_view, seq_of, still_pending};
use crate::safety::{silent_too_long, Watchdog, WatchdogModel};
use crate::transport::{
    after_control, after_reliable, carries, fresh_session, take_datagram, to_acknowledge, Session,
    SessionModel,
};
use crate::wire::{self, read_packet, Channel, WireError};
use vstd::prelude::*;

verus! {

/// Nanoseconds of silence after which the connection counts as dead.
pub const WATCHDOG_TIMEOUT: u64 = 2_000_000_000;

/// Nanoseconds that the master is looked for on the network.
pub const MDNS_DISCOVERY_TIMEOUT: u64 = 10_000_000_000;

/// What the slave does next.
#[derive(Debug, Clone, PartialEq, Eq)]
pub enum SlaveAction {
    /// Send a packet to the master.
    Send(Vec<u8>),
    /// Replay an event.
    Emit(InputEvent),
    /// The master accepted the connection.
    Welcomed,
    /// The master ended the connection.
    Close,
}

/// What the slave is to do next.
pub enum SlavePlan {
    /// Send the packet with the given number of a channel, carrying a frame under the key.
    Send { key: Seq<u8>, chan: Channel, seq: u32, frame: FrameModel },
    Emit(InputEvent),
    Welcomed,
    Close,
}

/// Whether an action is what the plan asks for. A packet that is sent is read by its receiver as the
/// frame that it is to carry.
pub open spec fn does(action: SlaveAction, plan: SlavePlan) -> bool {
    match plan {
        SlavePlan::Send { key, chan, seq, frame } => action matches SlaveAction::Send(packet)
            && carries(key, packet@, chan, seq, frame),
        SlavePlan::Emit(event) => action == SlaveAction::Emit(event),
        SlavePlan::Welcomed => action is Welcomed,
        SlavePlan::Close => action is Close,
    }
}

/// Whether the actions are what the plan asks for, in its order.
pub open spec fn does_all(actions: Seq<SlaveAction>, plan: Seq<SlavePlan>) -> bool {
    &&& actions.len() == plan.len()
    &&& forall|i: int| 0 <= i < plan.len() ==> does(#[trigger] actions[i], plan[i])
}

/// Some actions, then others.
fn follow(first: Vec<SlaveAction>, second: Vec<SlaveAction>) -> (all: Vec<SlaveAction>)
    ensures
        forall|p: Seq<SlavePlan>, q: Seq<SlavePlan>| #[trigger]
            does_all(first@, p) && #[trigger] does_all(second@, q) ==> does_all(all@, p + q),
{
    let mut all = first;
    let mut rest = second;
    all.append(&mut rest);
    proof {
        assert forall|p: Seq<SlavePlan>, q: Seq<SlavePlan>| #[trigger]
            does_all(first@, p) && #[trigger] does_all(second@, q) implies does_all(
            all@,
            p + q,
        ) by {
            assert forall|i: int| 0 <= i < (p + q).len() implies does(
                #[trigger] all@[i],
                (p + q)[i],
            ) by {
                if i < p.len() {
                    assert(all@[i] == first@[i]);
                } else {
                    assert(all@[i] == second@[i - p.len()]);
                }
            }
        }
    }
    all
}

/// What a frame makes the slave do, and the session afterwards. A ping is answered with a pong.
pub open spec fn serve_frame(s: SessionModel, frame: FrameModel) -> (SessionModel, Seq<SlavePlan>) {
    match frame {
        FrameModel::Event(event) => (s, seq![SlavePlan::Emit(event)]),
        FrameModel::Ping { nonce } => (
            after_control(s),
            seq![
                SlavePlan::Send {
                    key: s.send_key,
                    chan: Channel::Control,
                    seq: s.control_seq,
                    frame: FrameModel::Pong { nonce },
                },
            ],
        ),
        FrameModel::Welcome(_) => (s, seq![SlavePlan::Welcomed]),
        FrameModel::Bye => (s, seq![SlavePlan::Close]),
        _ => (s, Seq::empty()),
    }
}

/// What the frames from the `i`-th on make the slave do, and the session afterwards. Nothing after
/// a goodbye counts.
pub open spec fn serve_frames(s: SessionModel, frames: Seq<FrameModel>, i: int) -> (
    SessionModel,
    Seq<SlavePlan>,
)
    decreases frames.len() - i,
{
    if i >= frames.len() {
        (s, Seq::empty())
    } else {
        let (s2, first) = serve_frame(s, frames[i]);
        if frames[i] is Bye {
            (s2, first)
        } else {
            let (s3, rest) = serve_frames(s2, frames, i + 1);
            (s3, first + rest)
        }
    }
}

/// The acknowledgement with which a datagram is answered, if it asks for one.
pub open spec fn acknowledge(s: SessionModel, packet: Seq<u8>) -> Seq<SlavePlan> {
    match to_acknowledge(s, packet) {
        Some(acked_seq) => seq![
            SlavePlan::Send {
                key: s.send_key,
                chan: Channel::Control,
                seq: s.control_seq,
                frame: FrameModel::Ack { acked_seq },
            },
        ],
        None => Seq::empty(),
    }
}

/// What a datagram makes the slave do, and the session afterwards. The acknowledgement goes first;
/// a datagram that is not accepted does nothing.
pub open spec fn serve_datagram(s: SessionModel, packet: Seq<u8>) -> (SessionModel, Seq<SlavePlan>) {
    match take_datagram(s, packet) {
        (s2, Ok(received)) => {
            let (s3, served) = serve_frames(s2, received.ready, 0);
            (s3, acknowledge(s, packet) + served)
        },
        (s2, Err(_)) => (s2, Seq::empty()),
    }
}

/// The first of several frames is served, then the others, unless it is a goodbye.
proof fn lemma_serve_frames(
    s: SessionModel,
    frames: Seq<FrameModel>,
    i: int,
    done: Seq<SlavePlan>,
)
    ensures
        i >= frames.len() ==> serve_frames(s, frames, i).0 == s && done + serve_frames(
            s,
            frames,
            i,
        ).1 == done,
        i < frames.len() ==> ({
            let (s2, first) = serve_frame(s, frames[i]);
            if frames[i] is Bye {
                &&& serve_frames(s, frames, i) == (s2, first)
            } else {
                &&& serve_frames(s, frames, i).0 == serve_frames(s2, frames, i + 1).0
                &&& done + serve_frames(s, frames, i).1 == (done + first) + serve_frames(
                    s2,
                    frames,
                    i + 1,
                ).1
            }
        }),
{
    if i >= frames.len() {
        assert(done + Seq::empty() =~= done);
    } else {
        let (s2, first) = serve_frame(s, frames[i]);
        let rest = serve_frames(s2, frames, i + 1).1;
        assert(done + (first + rest) =~= (done + first) + rest);
    }
}

/// A connection to the master.
pub struct ConnectionModel {
    pub session: SessionModel,
    pub watchdog: WatchdogModel,
}

/// A connection to the master.
pub struct Connection {
    session: Session,
    watchdog: Watchdog,
}

impl View for Connection {
    type V = ConnectionModel;

    closed spec fn view(&self) -> ConnectionModel {
        ConnectionModel { session: self.session@, watchdog: self.watchdog@ }
    }
}

/// A connection that begins with the given packet.
pub open spec fn begun(keys: SessionKeys, packet: Seq<u8>, now: u64) -> ConnectionModel {
    ConnectionModel {
        session: after_reliable(fresh_session(keys), packet, now),
        watchdog: WatchdogModel { last_activity: now, timeout: WATCHDOG_TIMEOUT },
    }
}

/// The connection after the master was heard of.
pub open spec fn heard(c: ConnectionModel, now: u64) -> ConnectionModel {
    ConnectionModel { watchdog: WatchdogModel { last_activity: now, ..c.watchdog }, ..c }
}

/// The connection after a datagram. Only one that is accepted breaks the silence.
pub open spec fn after_datagram(c: ConnectionModel, packet: Seq<u8>, now: u64) -> ConnectionModel {
    let served = ConnectionModel { session: serve_datagram(c.session, packet).0, ..c };
    if take_datagram(c.session, packet).1 is Ok {
        heard(served, now)
    } else {
        served
    }
}

/// What the slave says of itself.
pub open spec fn hello_of(hostname: Seq<char>, screen: DisplayGeometry) -> FrameModel {
    FrameModel::Hello(HelloModel { proto_version: PROTO_VERSION, hostname, screen })
}

/// What the slave says of itself.
pub fn hello_frame(hostname: String, screen: DisplayGeometry) -> (frame: Frame)
    ensures
        frame@ == hello_of(hostname@, screen),
{
    Frame::Hello(HelloInfo { proto_version: PROTO_VERSION, hostname, screen })
}

impl Connection {
    /// Begin a connection with the keys of a session. The packet that is returned says hello.
    pub fn open(keys: SessionKeys, hello: &Frame, now: u64) -> (res: (Connection, Vec<u8>))
        requires
            frame_bytes(hello@).len() <= MAX_PLAINTEXT_LEN,
        ensures
            carries(keys.send@, res.1@, Channel::Reliable, 0, hello@),
            res.0@ == (ConnectionModel {
                session: after_reliable(fresh_session(keys), res.1@, now),
                watchdog: WatchdogModel { last_activity: now, timeout: WATCHDOG_TIMEOUT },
            }),
            res.0@ == begun(keys, res.1@, now),
    {
        let mut session = Session::new(keys);
        let packet = session.send_reliable(hello, now);
        (Connection { session, watchdog: Watchdog::new(WATCHDOG_TIMEOUT, now) }, packet)
    }

    /// The hello is sent: from now on the master is to be heard of.
    pub fn start_service(&mut self, now: u64)
        ensures
            final(self)@ == (ConnectionModel {
                watchdog: WatchdogModel { last_activity: now, ..old(self)@.watchdog },
                ..old(self)@
            }),
            final(self)@ == heard(old(self)@, now),
    {
        self.watchdog.poke(now);
    }

    /// The packets that are to be sent once more.
    pub fn due_retransmits(&mut self, now: u64) -> (due: Vec<Vec<u8>>)
        ensures
            packets_view(due@) == due_packets(old(self)@.session.pending, now),
            final(self)@ == (ConnectionModel {
                session: SessionModel {
                    pending: still_pending(old(self)@.session.pending, now),
                    ..old(self)@.session
                },
                ..old(self)@
            }),
    {
        self.session.due_retransmits(now)
    }

    /// Do what a frame asks for.
    fn serve_one(&mut self, frame: &Frame) -> (actions: Vec<SlaveAction>)
        ensures
            ({
                let (s, served) = serve_frame(old(self)@.session, frame@);
                &&& final(self)@ == (ConnectionModel { session: s, ..old(self)@ })
                &&& does_all(actions@, served)
            }),
    {
        match frame {
            Frame::Event(event) => vec![SlaveAction::Emit(*event)],
            Frame::Ping { nonce } => {
                let pong = Frame::Pong { nonce: *nonce };
                proof {
                    wire::law_packets_fit(pong@);
                }
                vec![SlaveAction::Send(self.session.send_control(&pong))]
            },
            Frame::Welcome(_) => vec![SlaveAction::Welcomed],
            Frame::Bye => vec![SlaveAction::Close],
            Frame::Hello(_) | Frame::Ack { .. } | Frame::Pong { .. } => Vec::new(),
        }
    }

    /// Do what frames ask for.
    fn serve(&mut self, frames: Vec<Frame>) -> (actions: Vec<SlaveAction>)
        ensures
            ({
                let (s, served) = serve_frames(old(self)@.session, frame_models(frames@), 0);
                &&& final(self)@ == (ConnectionModel { session: s, ..old(self)@ })
                &&& does_all(actions@, served)
            }),
    {
        let mut actions: Vec<SlaveAction> = Vec::new();
        let ghost models = frame_models(frames@);
        let ghost before = self@;
        let ghost whole = serve_frames(before.session, models, 0);
        let ghost mut done: Seq<SlavePlan> = Seq::empty();
        let mut i: usize = 0;
        proof {
            lemma_serve_frames(before.session, models, 0, done);
            assert(done + whole.1 =~= whole.1);
        }
        while i < frames.len()
            invariant_except_break
                i <= frames@.len(),
                models == frame_models(frames@),
                self@.watchdog == before.watchdog,
                whole.0 == serve_frames(self@.session, models, i as int).0,
                whole.1 == done + serve_frames(self@.session, models, i as int).1,
                i == frames@.len() ==> whole == (self@.session, done),
                does_all(actions@, done),
            ensures
                self@ == (ConnectionModel { session: whole.0, ..before }),
                does_all(actions@, whole.1),
            decreases frames@.len() - i,
        {
            let ghost served = serve_frame(self@.session, models[i as int]).1;
            proof {
                lemma_serve_frames(self@.session, models, i as int, done);
            }
            let more = self.serve_one(&frames[i]);
            actions = follow(actions, more);
            proof {
                done = done + served;
            }
            if let Frame::Bye = &frames[i] {
                break;
            }
            i += 1;
            proof {
                if i == frames@.len() {
                    lemma_serve_frames(self@.session, models, i as int, done);
                }
            }
        }
        actions
    }

    /// Take in a datagram, and say what is to be done, in order.
    pub fn on_datagram(&mut self, packet: &[u8], now: u64) -> (actions: Vec<SlaveAction>)
        ensures
            does_all(actions@, serve_datagram(old(self)@.session, packet@).1),
            final(self)@ == (ConnectionModel {
                session: serve_datagram(old(self)@.session, packet@).0,
                watchdog: if take_datagram(old(self)@.session, packet@).1 is Ok {
                    WatchdogModel { last_activity: now, ..old(self)@.watchdog }
                } else {
                    old(self)@.watchdog
                },
            }),
            final(self)@ == after_datagram(old(self)@, packet@, now),
    {
        match self.session.on_datagram(packet) {
            Ok(received) => {
                self.watchdog.poke(now);
                let reply = match received.reply {
                    Some(reply) => vec![SlaveAction::Send(reply)],
                    None => Vec::new(),
                };
                assert(does_all(reply@, acknowledge(old(self)@.session, packet@)));
                let served = self.serve(received.ready);
                follow(reply, served)
            },
            Err(_) => Vec::new(),
        }
    }

    /// Whether the master has been silent for too long.
    pub fn is_dead(&self, now: u64) -> (dead: bool)
        ensures
            dead == silent_too_long(self@.watchdog, now),
    {
        self.watchdog.expired(now)
    }
}

/// Nothing that comes behind the master's goodbye has any effect.
pub proof fn law_nothing_after_goodbye(s: SessionModel, frames: Seq<FrameModel>, i: int, k: int)
    requires
        0 <= i <= k < frames.len(),
        frames[k] is Bye,
    ensures
        serve_frames(s, frames, i) == serve_frames(s, frames.take(k + 1), i),
    decreases k - i,
{
    let cut = frames.take(k + 1);
    assert(cut[i] == frames[i]);
    if i < k {
        law_nothing_after_goodbye(serve_frame(s, frames[i]).0, frames, i + 1, k);
    }
}

/// A datagram that is not accepted makes the slave do nothing.
pub proof fn law_rejected_datagram_does_nothing(s: SessionModel, packet: Seq<u8>)
    requires
        read_packet(s.recv_key, packet) is Err,
    ensures
        serve_datagram(s, packet) == (s, Seq::<SlavePlan>::empty()),
{
}

/// The events that come out of the session are replayed in their order, each once.
pub proof fn law_events_replayed_in_order(s: SessionModel, frames: Seq<FrameModel>, i: int)
    requires
        0 <= i <= frames.len(),
        forall|j: int| i <= j < frames.len() ==> (#[trigger] frames[j]) is Event,
    ensures
        serve_frames(s, frames, i).0 == s,
        serve_frames(s, frames, i).1 == frames.skip(i).map_values(
            |f: FrameModel| SlavePlan::Emit(f->Event_0),
        ),
    decreases frames.len() - i,
{
    let emit = |f: FrameModel| SlavePlan::Emit(f->Event_0);
    if i < frames.len() {
        law_events_replayed_in_order(s, frames, i + 1);
        assert(frames.skip(i) =~= seq![frames[i]] + frames.skip(i + 1));
    }
    assert(serve_frames(s, frames, i).1 =~= frames.skip(i).map_values(emit));
}

/// An event is replayed as it came, and changes nothing of the session.
pub proof fn law_event_is_replayed_as_it_came(
    s: SessionModel,
    event: InputEvent,
    actions: Seq<SlaveAction>,
)
    requires
        does_all(actions, serve_frame(s, FrameModel::Event(event)).1),
    ensures
        actions == seq![SlaveAction::Emit(event)],
        serve_frame(s, FrameModel::Event(event)).0 == s,
{
    assert(does(actions[0], serve_frame(s, FrameModel::Event(event)).1[0]));
    assert(actions =~= seq![SlaveAction::Emit(event)]);
}

/// A ping is answered with a pong that the master reads with the same nonce, on the control channel.
pub proof fn law_ping_is_answered(s: SessionModel, nonce: u64, actions: Seq<SlaveAction>)
    requires
        does_all(actions, serve_frame(s, FrameModel::Ping { nonce }).1),
    ensures
        actions.len() == 1,
        actions[0] is Send,
        read_packet(s.send_key, actions[0]->Send_0@) == Ok::<(Channel, u32, FrameModel), WireError>(
            (Channel::Control, s.control_seq, FrameModel::Pong { nonce }),
        ),
        serve_frame(s, FrameModel::Ping { nonce }).0.control_seq == (s.control_seq + 1)
            % 0x1_0000_0000,
{
    reveal(seq_of);
    assert(does(actions[0], serve_frame(s, FrameModel::Ping { nonce }).1[0]));
}

/// A welcome is told, a goodbye closes the connection, and what only a slave says does nothing.
pub proof fn law_other_frames(s: SessionModel, frame: FrameModel, actions: Seq<SlaveAction>)
    requires
        !(frame is Event) && !(frame is Ping),
        does_all(actions, serve_frame(s, frame).1),
    ensures
        serve_frame(s, frame).0 == s,
        frame is Welcome ==> actions == seq![SlaveAction::Welcomed],
        frame is Bye ==> actions == seq![SlaveAction::Close],
        frame is Hello || frame is Ack || frame is Pong ==> actions.len() == 0,
{
    let plan = serve_frame(s, frame).1;
    if plan.len() > 0 {
        assert(does(actions[0], plan[0]));
        assert(frame is Welcome ==> actions =~= seq![SlaveAction::Welcomed]);
        assert(frame is Bye ==> actions =~= seq![SlaveAction::Close]);
    }
}

/// Frames are served one after the other, each in the session that the one before left, up to a
/// goodbye.
pub proof fn law_frames_are_served_in_order(s: SessionModel, frames: Seq<FrameModel>, i: int)
    requires
        0 <= i < frames.len(),
    ensures
        ({
            let first = serve_frame(s, frames[i]);
            let all = serve_frames(s, frames, i);
            if frames[i] is Bye {
                all == first
            } else {
                let rest = serve_frames(first.0, frames, i + 1);
                all.0 == rest.0 && all.1 == first.1 + rest.1
            }
        }),
{
}

/// A datagram that is accepted makes the slave do what its frames ask for, all of them and no other.
/// One of the reliable channel is acknowledged first, with its own number.
pub proof fn law_datagram_is_served(s: SessionModel, packet: Seq<u8>, actions: Seq<SlaveAction>)
    requires
        read_packet(s.recv_key, packet) is Ok,
        does_all(actions, serve_datagram(s, packet).1),
    ensures
        ({
            let (chan, seq, frame) = read_packet(s.recv_key, packet)->Ok_0;
            let taken = take_datagram(s, packet);
            let served = serve_frames(taken.0, taken.1->Ok_0.ready, 0);
            &&& serve_datagram(s, packet).0 == served.0
            &&& if chan == Channel::Reliable {
                &&& actions.len() > 0 && actions[0] is Send
                &&& read_packet(s.send_key, actions[0]->Send_0@) == Ok::<
                    (Channel, u32, FrameModel),
                    WireError,
                >((Channel::Control, s.control_seq, FrameModel::Ack { acked_seq: seq }))
                &&& does_all(actions.skip(1), served.1)
            } else {
                does_all(actions, served.1)
            }
        }),
{
    let (chan, seq, frame) = read_packet(s.recv_key, packet)->Ok_0;
    let taken = take_datagram(s, packet);
    let served = serve_frames(taken.0, taken.1->Ok_0.ready, 0);
    let plan = serve_datagram(s, packet).1;
    if chan == Channel::Reliable {
        assert(does(actions[0], plan[0]));
        assert(plan.skip(1) =~= served.1);
        assert forall|i: int| 0 <= i < served.1.len() implies does(
            #[trigger] actions.skip(1)[i],
            served.1[i],
        ) by {
            assert(does(actions[i + 1], plan[i + 1]));
        }
    } else {
        assert(plan =~= served.1);
    }
}

/// The slave says that it speaks version 1, its name and its screen.
pub proof fn law_slave_introduces_itself(hostname: Seq<char>, screen: DisplayGeometry)
    ensures
        ({
            let hello = hello_of(hostname, screen);
            &&& hello is Hello
            &&& (hello->Hello_0).proto_version == 1
            &&& (hello->Hello_0).hostname == hostname
            &&& (hello->Hello_0).screen == screen
        }),
{
}

/// A connection is dead after more than two seconds without an accepted datagram.
pub proof fn law_two_seconds_of_silence(heard: u64, now: u64)
    ensures
        silent_too_long(
            WatchdogModel { last_activity: heard, timeout: WATCHDOG_TIMEOUT },
            now,
        ) <==> now > heard + 2_000_000_000,
{
}

/// A datagram that the slave accepts breaks the master's silence: for two seconds after it the
/// connection is not dead, and then it is. One that is not accepted changes nothing at all.
pub proof fn law_heard_master_is_not_silent(
    c: ConnectionModel,
    packet: Seq<u8>,
    now: u64,
    later: u64,
)
    requires
        c.watchdog.timeout == 2_000_000_000,
    ensures
        read_packet(c.session.recv_key, packet) is Ok ==> {
            let after = after_datagram(c, packet, now);
            &&& later <= now + 2_000_000_000 ==> !silent_too_long(after.watchdog, later)
            &&& later > now + 2_000_000_000 ==> silent_too_long(after.watchdog, later)
            &&& after.watchdog.timeout == 2_000_000_000
        },
        read_packet(c.session.recv_key, packet) is Err ==> after_datagram(c, packet, now) == c,
        !silent_too_long(heard(c, now).watchdog, now),
        heard(c, now).session == c.session,
{
}

/// A connection begins with its hello as the first packet that waits for its acknowledgement, and
/// with two seconds for the master to be heard of.
pub proof fn law_connection_begins_with_its_hello(
    keys: SessionKeys,
    packet: Seq<u8>,
    now: u64,
    later: u64,
)
    ensures
        ({
            let c = begun(keys, packet, now);
            &&& c.session.send_key == keys.send@ && c.session.recv_key == keys.recv@
            &&& c.session.pending.contains_key(0) && c.session.pending[0].packet == packet
            &&& forall|n: u32| #[trigger] c.session.pending.contains_key(n) ==> n == 0
            &&& c.session.reliable_seq == 1
            &&& silent_too_long(c.watchdog, later) <==> later > now + 2_000_000_000
        }),
{
    reveal(seq_of);
}

} // verus!
