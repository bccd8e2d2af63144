//! A session: the three channels under one pair of keys.
use crate::aead::MAX_PLAINTEXT_LEN;
use crate::codec::frame_bytes;
use crate::crypto::SessionKeys;
use crate::delivery::{
    in_window, law_exactly_once_in_order, law_repeated_frame_dropped,
    law_resends_exactly_what_is_due, receive_all, window,
};
use crate::frame::{frame_models, Frame, FrameModel};
use crate::reliable::{
    accepts, due_packets, due_seqs, fresh_receiver, is_due, packets_view, receive, run_length,
    seq_of, still_pending, PendingModel, ReceiverModel, ReliableReceiver, ReliableSender,
    SeqCounter, UnreliableReceiver, SEQ_COUNT,
};
use crate::wire::{self, packet_bytes, read_packet, Channel, WireError};
use vstd::prelude::*;

verus! {

/// What a datagram brought: the frames that are handed on, and the packet to answer with.
#[derive(Debug)]
pub struct Received {
    pub ready: Vec<Frame>,
    pub reply: Option<Vec<u8>>,
}

/// The contents of a [`Received`].
pub struct ReceivedModel {
    pub ready: Seq<FrameModel>,
    pub reply: Option<Seq<u8>>,
}

impl View for Received {
    type V = ReceivedModel;

    open spec fn view(&self) -> ReceivedModel {
        ReceivedModel {
            ready: frame_models(self.ready@),
            reply: match self.reply {
                Some(packet) => Some(packet@),
                None => None,
            },
        }
    }
}

/// Nothing to hand on, and no answer.
pub open spec fn nothing_received() -> ReceivedModel {
    ReceivedModel { ready: Seq::empty(), reply: None }
}

impl Default for Received {
    fn default() -> (received: Self)
        ensures
            received@ == nothing_received(),
    {
        let received = Received { ready: Vec::new(), reply: None };
        assert(received@.ready =~= Seq::empty());
        received
    }
}

/// The state of a session.
pub struct SessionModel {
    pub send_key: Seq<u8>,
    pub recv_key: Seq<u8>,
    pub reliable_seq: u32,
    pub pending: Map<u32, PendingModel>,
    pub reliable_rx: ReceiverModel,
    pub unreliable_seq: u32,
    pub unreliable_rx: Option<u32>,
    pub control_seq: u32,
    pub control_rx: Option<u32>,
}

/// A session in which nothing was sent or received yet.
pub open spec fn fresh_session(keys: SessionKeys) -> SessionModel {
    SessionModel {
        send_key: keys.send@,
        recv_key: keys.recv@,
        reliable_seq: 0,
        pending: Map::empty(),
        reliable_rx: fresh_receiver(),
        unreliable_seq: 0,
        unreliable_rx: None,
        control_seq: 0,
        control_rx: None,
    }
}

/// A session after a packet was sent on the reliable channel.
pub open spec fn after_reliable(s: SessionModel, packet: Seq<u8>, now: u64) -> SessionModel {
    SessionModel {
        reliable_seq: seq_of(s.reliable_seq + 1),
        pending: s.pending.insert(
            s.reliable_seq,
            PendingModel { packet, first_sent: now, last_sent: now },
        ),
        ..s
    }
}

/// A session after a packet was sent on the unreliable channel.
pub open spec fn after_unreliable(s: SessionModel) -> SessionModel {
    SessionModel { unreliable_seq: seq_of(s.unreliable_seq + 1), ..s }
}

/// A session after a packet was sent on the control channel.
pub open spec fn after_control(s: SessionModel) -> SessionModel {
    SessionModel { control_seq: seq_of(s.control_seq + 1), ..s }
}

/// A session after a frame came on one of its channels, and what the frame brought. Each frame of
/// the reliable channel is acknowledged on the control channel; an acknowledgement is not handed
/// on.
pub open spec fn take_frame(s: SessionModel, chan: Channel, seq: u32, frame: FrameModel) -> (
    SessionModel,
    ReceivedModel,
) {
    match chan {
        Channel::Reliable => {
            let (rx, ready) = receive(s.reliable_rx, seq, frame);
            let ack = packet_bytes(
                s.send_key,
                Channel::Control,
                s.control_seq,
                FrameModel::Ack { acked_seq: seq },
            );
            (
                SessionModel { reliable_rx: rx, ..after_control(s) },
                ReceivedModel { ready, reply: Some(ack) },
            )
        },
        Channel::Unreliable => if accepts(s.unreliable_rx, seq) {
            (
                SessionModel { unreliable_rx: Some(seq), ..s },
                ReceivedModel { ready: seq![frame], reply: None },
            )
        } else {
            (s, nothing_received())
        },
        Channel::Control => if accepts(s.control_rx, seq) {
            let s2 = SessionModel { control_rx: Some(seq), ..s };
            if let FrameModel::Ack { acked_seq } = frame {
                (SessionModel { pending: s.pending.remove(acked_seq), ..s2 }, nothing_received())
            } else {
                (s2, ReceivedModel { ready: seq![frame], reply: None })
            }
        } else {
            (s, nothing_received())
        },
    }
}

/// A session after a datagram came, and what the datagram brought. One that is not accepted
/// changes nothing.
pub open spec fn take_datagram(s: SessionModel, packet: Seq<u8>) -> (
    SessionModel,
    Result<ReceivedModel, WireError>,
) {
    match read_packet(s.recv_key, packet) {
        Ok((chan, seq, frame)) => {
            let (s2, received) = take_frame(s, chan, seq, frame);
            (s2, Ok(received))
        },
        Err(e) => (s, Err(e)),
    }
}

/// The number that a datagram asks to be acknowledged, if it asks for that.
pub open spec fn to_acknowledge(s: SessionModel, packet: Seq<u8>) -> Option<u32> {
    match read_packet(s.recv_key, packet) {
        Ok((chan, seq, frame)) => if chan == Channel::Reliable {
            Some(seq)
        } else {
            None
        },
        Err(_) => None,
    }
}

/// Whether `packet` carries `frame` under the key, as its receiver reads it.
pub open spec fn carries(
    key: Seq<u8>,
    packet: Seq<u8>,
    chan: Channel,
    seq: u32,
    frame: FrameModel,
) -> bool {
    &&& packet == packet_bytes(key, chan, seq, frame)
    &&& read_packet(key, packet) == Ok::<(Channel, u32, FrameModel), WireError>((chan, seq, frame))
}

/// One side of a session.
pub struct Session {
    keys: SessionKeys,
    reliable_tx_seq: SeqCounter,
    reliable_tx: ReliableSender,
    reliable_rx: ReliableReceiver,
    unreliable_tx_seq: SeqCounter,
    unreliable_rx: UnreliableReceiver,
    control_tx_seq: SeqCounter,
    control_rx: UnreliableReceiver,
}

impl View for Session {
    type V = SessionModel;

    closed spec fn view(&self) -> SessionModel {
        SessionModel {
            send_key: self.keys.send@,
            recv_key: self.keys.recv@,
            reliable_seq: self.reliable_tx_seq@,
            pending: self.reliable_tx@,
            reliable_rx: self.reliable_rx@,
            unreliable_seq: self.unreliable_tx_seq@,
            unreliable_rx: self.unreliable_rx@,
            control_seq: self.control_tx_seq@,
            control_rx: self.control_rx@,
        }
    }
}

/// The packet that carries a frame under the sending key.
fn encode(keys: &SessionKeys, chan: Channel, seq: u32, frame: &Frame) -> (packet: Vec<u8>)
    requires
        frame_bytes(frame@).len() <= MAX_PLAINTEXT_LEN,
    ensures
        carries(keys.send@, packet@, chan, seq, frame@),
{
    match wire::encode(&keys.send, chan, seq, frame) {
        Ok(packet) => packet,
        Err(_) => Vec::new(),
    }
}

impl Session {
    pub fn new(keys: SessionKeys) -> (session: Self)
        ensures
            session@ == fresh_session(keys),
    {
        Self {
            keys,
            reliable_tx_seq: SeqCounter::default(),
            reliable_tx: ReliableSender::new(),
            reliable_rx: ReliableReceiver::new(),
            unreliable_tx_seq: SeqCounter::default(),
            unreliable_rx: UnreliableReceiver::new(),
            control_tx_seq: SeqCounter::default(),
            control_rx: UnreliableReceiver::new(),
        }
    }

    /// The packet that sends a frame on the reliable channel; it is kept until it is acknowledged.
    pub fn send_reliable(&mut self, frame: &Frame, now: u64) -> (packet: Vec<u8>)
        requires
            frame_bytes(frame@).len() <= MAX_PLAINTEXT_LEN,
        ensures
            carries(
                old(self)@.send_key,
                packet@,
                Channel::Reliable,
                old(self)@.reliable_seq,
                frame@,
            ),
            final(self)@ == after_reliable(old(self)@, packet@, now),
    {
        let seq: u32 = self.reliable_tx_seq.next_seq();
        let packet = encode(&self.keys, Channel::Reliable, seq, frame);
        self.reliable_tx.note_sent(seq, packet.clone(), now);
        packet
    }

    /// The packet that sends a frame on the unreliable channel.
    pub fn send_unreliable(&mut self, frame: &Frame) -> (packet: Vec<u8>)
        requires
            frame_bytes(frame@).len() <= MAX_PLAINTEXT_LEN,
        ensures
            carries(
                old(self)@.send_key,
                packet@,
                Channel::Unreliable,
                old(self)@.unreliable_seq,
                frame@,
            ),
            final(self)@ == after_unreliable(old(self)@),
    {
        let seq: u32 = self.unreliable_tx_seq.next_seq();
        encode(&self.keys, Channel::Unreliable, seq, frame)
    }

    /// The packet that sends a frame on the control channel.
    pub fn send_control(&mut self, frame: &Frame) -> (packet: Vec<u8>)
        requires
            frame_bytes(frame@).len() <= MAX_PLAINTEXT_LEN,
        ensures
            carries(
                old(self)@.send_key,
                packet@,
                Channel::Control,
                old(self)@.control_seq,
                frame@,
            ),
            final(self)@ == after_control(old(self)@),
    {
        let seq: u32 = self.control_tx_seq.next_seq();
        encode(&self.keys, Channel::Control, seq, frame)
    }

    /// The packets of the reliable channel that are to be sent once more.
    pub fn due_retransmits(&mut self, now: u64) -> (due: Vec<Vec<u8>>)
        ensures
            packets_view(due@) == due_packets(old(self)@.pending, now),
            final(self)@ == (SessionModel {
                pending: still_pending(old(self)@.pending, now),
                ..old(self)@
            }),
    {
        self.reliable_tx.due_retransmits(now)
    }

    /// How many packets of the reliable channel wait for their acknowledgement.
    pub fn pending_reliable_count(&self) -> (n: usize)
        ensures
            n == self@.pending.len(),
    {
        self.reliable_tx.pending_count()
    }

    /// Take in a datagram. An answer that it asks for carries an acknowledgement.
    pub fn on_datagram(&mut self, packet: &[u8]) -> (res: Result<Received, WireError>)
        ensures
            final(self)@ == take_datagram(old(self)@, packet@).0,
            match res {
                Ok(received) => {
                    &&& take_datagram(old(self)@, packet@).1 == Ok::<ReceivedModel, WireError>(
                        received@,
                    )
                    &&& match to_acknowledge(old(self)@, packet@) {
                        Some(seq) => received.reply matches Some(reply) && carries(
                            old(self)@.send_key,
                            reply@,
                            Channel::Control,
                            old(self)@.control_seq,
                            FrameModel::Ack { acked_seq: seq },
                        ),
                        None => received.reply is None,
                    }
                },
                Err(e) => take_datagram(old(self)@, packet@).1 == Err::<ReceivedModel, WireError>(e),
            },
    {
        let (chan, seq, frame) = match wire::decode(&self.keys.recv, packet) {
            Ok(decoded) => decoded,
            Err(e) => return Err(e),
        };
        match chan {
            Channel::Reliable => {
                let ack = Frame::Ack { acked_seq: seq };
                proof {
                    wire::law_packets_fit(ack@);
                }
                let reply = Some(self.send_control(&ack));
                let ready = self.reliable_rx.on_receive(seq, frame);
                Ok(Received { ready, reply })
            },
            Channel::Unreliable => {
                if self.unreliable_rx.accept(seq) {
                    let received = Received { ready: vec![frame], reply: None };
                    assert(received@.ready =~= seq![frame@]);
                    Ok(received)
                } else {
                    Ok(Received::default())
                }
            },
            Channel::Control => {
                if !self.control_rx.accept(seq) {
                    return Ok(Received::default());
                }
                if let Frame::Ack { acked_seq } = frame {
                    self.reliable_tx.on_ack(acked_seq);
                    Ok(Received::default())
                } else {
                    let received = Received { ready: vec![frame], reply: None };
                    assert(received@.ready =~= seq![frame@]);
                    Ok(received)
                }
            },
        }
    }
}

/// What one side sends on the reliable channel, the other side takes with the same number and
/// answers with an acknowledgement that the first side understands: it forgets the packet and
/// hands nothing on.
pub proof fn law_ack_settles_packet(
    sender: SessionModel,
    receiver: SessionModel,
    frame: FrameModel,
    packet: Seq<u8>,
    reply: Seq<u8>,
)
    requires
        sender.send_key == receiver.recv_key,
        receiver.send_key == sender.recv_key,
        carries(sender.send_key, packet, Channel::Reliable, sender.reliable_seq, frame),
        carries(
            receiver.send_key,
            reply,
            Channel::Control,
            receiver.control_seq,
            FrameModel::Ack { acked_seq: sender.reliable_seq },
        ),
        accepts(sender.control_rx, receiver.control_seq),
    ensures
        take_datagram(receiver, packet).1 is Ok,
        take_datagram(receiver, packet).1->Ok_0.reply == Some(reply),
        forall|now: u64|
            {
                let sent = #[trigger] after_reliable(sender, packet, now);
                let (settled, received) = take_datagram(sent, reply);
                &&& received == Ok::<ReceivedModel, WireError>(nothing_received())
                &&& settled.pending == sender.pending.remove(sender.reliable_seq)
            },
{
    assert forall|now: u64|
        {
            let sent = #[trigger] after_reliable(sender, packet, now);
            let (settled, received) = take_datagram(sent, reply);
            &&& received == Ok::<ReceivedModel, WireError>(nothing_received())
            &&& settled.pending == sender.pending.remove(sender.reliable_seq)
        } by {
        let sent = after_reliable(sender, packet, now);
        assert(sent.pending.remove(sender.reliable_seq) =~= sender.pending.remove(
            sender.reliable_seq,
        ));
    }
}

/// A datagram that is not accepted changes nothing and asks for no answer.
pub proof fn law_rejected_datagram_changes_nothing(s: SessionModel, packet: Seq<u8>)
    requires
        read_packet(s.recv_key, packet) is Err,
    ensures
        take_datagram(s, packet).0 == s,
        take_datagram(s, packet).1 is Err,
{
}

/// The channels do not disturb each other: a datagram on one of them leaves alone what the session
/// has received on the others, and only an acknowledgement touches what waits to be acknowledged.
pub proof fn law_channels_are_independent(s: SessionModel, packet: Seq<u8>)
    ensures
        ({
            let after = take_datagram(s, packet).0;
            let read = read_packet(s.recv_key, packet);
            let on = |chan: Channel| read is Ok && (read->Ok_0).0 == chan;
            &&& !on(Channel::Reliable) ==> after.reliable_rx == s.reliable_rx
            &&& !on(Channel::Unreliable) ==> after.unreliable_rx == s.unreliable_rx
            &&& !on(Channel::Control) ==> after.control_rx == s.control_rx && after.pending
                == s.pending
            &&& !on(Channel::Reliable) ==> after.control_seq == s.control_seq
            &&& after.reliable_seq == s.reliable_seq
            &&& after.unreliable_seq == s.unreliable_seq
            &&& read is Ok && !((read->Ok_0).2 is Ack) ==> after.pending == s.pending
        }),
{
}

/// A datagram that comes a second time brings no frame, provided that fewer frames than half of
/// all numbers were waiting for it.
pub proof fn law_repeated_datagram_brings_nothing(s: SessionModel, packet: Seq<u8>)
    requires
        run_length(s.reliable_rx.buffered, seq_of(s.reliable_rx.next + 1), 0) < window() - 1,
    ensures
        ({
            let again = take_datagram(take_datagram(s, packet).0, packet).1;
            again is Ok ==> again->Ok_0.ready == Seq::<FrameModel>::empty()
        }),
{
    if let Ok((chan, seq, frame)) = read_packet(s.recv_key, packet) {
        law_repeated_frame_dropped(s.reliable_rx, seq, frame);
        assert(!accepts(Some(seq), seq));
    }
}

/// The session, and all frames that were handed on, after several datagrams came in turn.
pub open spec fn take_all(s: SessionModel, packets: Seq<Seq<u8>>) -> (SessionModel, Seq<FrameModel>)
    decreases packets.len(),
{
    if packets.len() == 0 {
        (s, Seq::empty())
    } else {
        let (s1, out) = take_all(s, packets.drop_last());
        let (s2, received) = take_datagram(s1, packets.last());
        match received {
            Ok(received) => (s2, out + received.ready),
            Err(_) => (s2, out),
        }
    }
}

/// A session after `n` packets were sent on its reliable channel at `now`.
pub open spec fn after_sends(s: SessionModel, packets: Seq<Seq<u8>>, now: u64) -> SessionModel
    decreases packets.len(),
{
    if packets.len() == 0 {
        s
    } else {
        after_reliable(after_sends(s, packets.drop_last(), now), packets.last(), now)
    }
}

/// The packets of the reliable channel are numbered in the order in which they are sent.
pub proof fn law_sends_are_numbered(keys: SessionKeys, packets: Seq<Seq<u8>>, now: u64)
    ensures
        after_sends(fresh_session(keys), packets, now).reliable_seq == seq_of(
            packets.len() as int,
        ),
    decreases packets.len(),
{
    reveal(seq_of);
    if packets.len() > 0 {
        law_sends_are_numbered(keys, packets.drop_last(), now);
    }
}

/// Whatever packets of the reliable channel reach the other side, in whatever order and however
/// often, what its session hands on is the longest beginning of what was sent of which every packet
/// has come. The `i`-th packet is the one that carries the `i`-th frame under the `i`-th number.
pub proof fn law_session_delivers_in_order(
    keys: SessionKeys,
    sent: Seq<FrameModel>,
    arrivals: Seq<int>,
    packets: Seq<Seq<u8>>,
)
    requires
        in_window(sent, arrivals),
        packets.len() == arrivals.len(),
        forall|j: int|
            0 <= j < packets.len() ==> carries(
                keys.recv@,
                #[trigger] packets[j],
                Channel::Reliable,
                seq_of(arrivals[j]),
                sent[arrivals[j]],
            ),
    ensures
        ({
            let out = take_all(fresh_session(keys), packets).1;
            &&& out.len() <= sent.len()
            &&& out == sent.take(out.len() as int)
            &&& forall|i: int| 0 <= i < out.len() ==> arrivals.contains(i)
            &&& !arrivals.contains(out.len() as int)
        }),
{
    lemma_take_all_reliable(keys, sent, arrivals, packets);
    law_exactly_once_in_order(sent, arrivals);
}

proof fn lemma_take_all_reliable(
    keys: SessionKeys,
    sent: Seq<FrameModel>,
    arrivals: Seq<int>,
    packets: Seq<Seq<u8>>,
)
    requires
        packets.len() == arrivals.len(),
        forall|j: int|
            0 <= j < packets.len() ==> carries(
                keys.recv@,
                #[trigger] packets[j],
                Channel::Reliable,
                seq_of(arrivals[j]),
                sent[arrivals[j]],
            ),
    ensures
        take_all(fresh_session(keys), packets).0.recv_key == keys.recv@,
        take_all(fresh_session(keys), packets).0.reliable_rx == receive_all(sent, arrivals).0,
        take_all(fresh_session(keys), packets).1 == receive_all(sent, arrivals).1,
    decreases packets.len(),
{
    if packets.len() > 0 {
        let earlier = packets.drop_last();
        assert forall|j: int| 0 <= j < earlier.len() implies carries(
            keys.recv@,
            #[trigger] earlier[j],
            Channel::Reliable,
            seq_of(arrivals.drop_last()[j]),
            sent[arrivals.drop_last()[j]],
        ) by {
            assert(earlier[j] == packets[j]);
        }
        lemma_take_all_reliable(keys, sent, arrivals.drop_last(), earlier);
        assert(packets.last() == packets[packets.len() - 1]);
    }
}

/// Sending a packet on the reliable channel keeps it, under the number it was sent with, until its
/// acknowledgement comes, beside all that waits already; nothing else of the session changes but the
/// next number.
pub proof fn law_sent_packet_waits(s: SessionModel, packet: Seq<u8>, now: u64)
    ensures
        ({
            let sent = after_reliable(s, packet, now);
            &&& sent.pending.contains_key(s.reliable_seq)
            &&& sent.pending[s.reliable_seq].packet == packet
            &&& sent.pending[s.reliable_seq].first_sent == now
            &&& sent.pending[s.reliable_seq].last_sent == now
            &&& forall|n: u32|
                n != s.reliable_seq ==> (#[trigger] sent.pending.contains_key(n)
                    == s.pending.contains_key(n)) && (s.pending.contains_key(n)
                    ==> sent.pending[n] == s.pending[n])
            &&& sent.reliable_seq == (s.reliable_seq + 1) % 0x1_0000_0000
            &&& sent.send_key == s.send_key && sent.recv_key == s.recv_key
            &&& sent.reliable_rx == s.reliable_rx
            &&& sent.unreliable_seq == s.unreliable_seq && sent.unreliable_rx == s.unreliable_rx
            &&& sent.control_seq == s.control_seq && sent.control_rx == s.control_rx
        }),
{
    reveal(seq_of);
}

/// Sending on another channel takes that channel's next number and changes nothing else: such a
/// packet waits for no acknowledgement.
pub proof fn law_other_channels_keep_nothing(s: SessionModel)
    ensures
        ({
            let moved = after_unreliable(s);
            let told = after_control(s);
            &&& moved.unreliable_seq == (s.unreliable_seq + 1) % 0x1_0000_0000
            &&& moved == (SessionModel { unreliable_seq: moved.unreliable_seq, ..s })
            &&& told.control_seq == (s.control_seq + 1) % 0x1_0000_0000
            &&& told == (SessionModel { control_seq: told.control_seq, ..s })
        }),
{
    reveal(seq_of);
}

/// Every packet that was sent on the reliable channel waits for its acknowledgement: after `n`
/// packets and no datagram, exactly the numbers below `n` wait, each with its own packet.
pub proof fn law_all_sent_packets_wait(keys: SessionKeys, packets: Seq<Seq<u8>>, now: u64)
    requires
        packets.len() <= 0x1_0000_0000,
    ensures
        ({
            let pending = after_sends(fresh_session(keys), packets, now).pending;
            &&& pending.dom().finite()
            &&& pending.len() == packets.len()
            &&& forall|s: u32| #[trigger] pending.contains_key(s) <==> s < packets.len()
            &&& forall|i: u32|
                i < packets.len() ==> #[trigger] pending[i] == (PendingModel {
                    packet: packets[i as int],
                    first_sent: now,
                    last_sent: now,
                })
        }),
    decreases packets.len(),
{
    if packets.len() > 0 {
        let earlier = packets.drop_last();
        law_all_sent_packets_wait(keys, earlier, now);
        law_sends_are_numbered(keys, earlier, now);
        let before = after_sends(fresh_session(keys), earlier, now);
        law_sent_packet_waits(before, packets.last(), now);
        reveal(seq_of);
        assert(before.reliable_seq == earlier.len());
        assert(!before.pending.contains_key(before.reliable_seq));
        let pending = after_sends(fresh_session(keys), packets, now).pending;
        assert forall|i: u32| i < packets.len() implies #[trigger] pending[i] == (PendingModel {
            packet: packets[i as int],
            first_sent: now,
            last_sent: now,
        }) by {
            if i < earlier.len() {
                assert(before.pending.contains_key(i));
                assert(pending.contains_key(i));
                assert(before.pending[i].packet == earlier[i as int]);
            }
        }
    }
}

proof fn lemma_all_due(pending: Map<u32, PendingModel>, now: u64, from: int, n: int)
    requires
        0 <= from <= n <= SEQ_COUNT,
        forall|s: u32| #[trigger] pending.contains_key(s) <==> s < n,
        forall|s: u32| s < n ==> is_due(#[trigger] pending[s], now),
    ensures
        due_seqs(pending, now, from) == Seq::new((n - from) as nat, |i: int| (from + i) as u32),
    decreases SEQ_COUNT - from,
{
    let expected = Seq::new((n - from) as nat, |i: int| (from + i) as u32);
    if from < SEQ_COUNT {
        if from < n {
            lemma_all_due(pending, now, from + 1, n);
            assert(pending.contains_key(from as u32));
            assert(due_seqs(pending, now, from) =~= expected);
        } else {
            assert(!pending.contains_key(from as u32));
            lemma_none_due(pending, now, from, n);
            assert(due_seqs(pending, now, from) =~= expected);
        }
    } else {
        assert(due_seqs(pending, now, from) =~= expected);
    }
}

proof fn lemma_none_due(pending: Map<u32, PendingModel>, now: u64, from: int, n: int)
    requires
        0 <= n <= from <= SEQ_COUNT,
        forall|s: u32| #[trigger] pending.contains_key(s) <==> s < n,
    ensures
        due_seqs(pending, now, from) == Seq::<u32>::empty(),
    decreases SEQ_COUNT - from,
{
    if from < SEQ_COUNT {
        assert(!pending.contains_key(from as u32));
        lemma_none_due(pending, now, from + 1, n);
    }
}

/// What was sent on the reliable channel and not acknowledged is sent once more, all of it and in
/// order, when 5 ms have passed and not more than 200 ms; sooner or later than that none of it is.
pub proof fn law_all_sent_packets_are_resent(
    keys: SessionKeys,
    packets: Seq<Seq<u8>>,
    now: u64,
    later: u64,
)
    requires
        packets.len() <= 0x1_0000_0000,
    ensures
        ({
            let pending = after_sends(fresh_session(keys), packets, now).pending;
            if now + 5_000_000 <= later <= now + 200_000_000 {
                due_packets(pending, later) == packets
            } else {
                due_packets(pending, later) == Seq::<Seq<u8>>::empty()
            }
        }),
{
    let pending = after_sends(fresh_session(keys), packets, now).pending;
    law_all_sent_packets_wait(keys, packets, now);
    if now + 5_000_000 <= later <= now + 200_000_000 {
        lemma_all_due(pending, later, 0, packets.len() as int);
        assert(due_packets(pending, later) =~= packets);
    } else {
        law_resends_exactly_what_is_due(pending, later);
        let seqs = due_seqs(pending, later, 0);
        if seqs.len() > 0 {
            assert(seqs.contains(seqs[0]));
            assert(pending.contains_key(seqs[0]));
            assert(!is_due(pending[seqs[0]], later));
        }
        assert(due_packets(pending, later) =~= Seq::<Seq<u8>>::empty());
    }
}

/// A packet of the reliable channel is answered, whatever its number and however often it comes,
/// with an acknowledgement of that number on the control channel; no other packet is answered.
pub proof fn law_reliable_packets_are_acknowledged(s: SessionModel, packet: Seq<u8>)
    requires
        read_packet(s.recv_key, packet) is Ok,
    ensures
        ({
            let (chan, seq, frame) = read_packet(s.recv_key, packet)->Ok_0;
            let (after, received) = take_datagram(s, packet);
            &&& received is Ok
            &&& received->Ok_0.reply is Some <==> chan == Channel::Reliable
            &&& to_acknowledge(s, packet) == (if chan == Channel::Reliable {
                Some(seq)
            } else {
                None
            })
            &&& chan == Channel::Reliable ==> received->Ok_0.reply == Some(
                packet_bytes(
                    s.send_key,
                    Channel::Control,
                    s.control_seq,
                    FrameModel::Ack { acked_seq: seq },
                ),
            )
            &&& chan == Channel::Reliable ==> after.control_seq == (s.control_seq + 1)
                % 0x1_0000_0000
            &&& chan == Channel::Reliable ==> after.pending == s.pending
        }),
{
    reveal(seq_of);
}

proof fn lemma_accepts_newer(last: Option<u32>, seq: u32)
    ensures
        accepts(last, seq) <==> (last matches Some(last) ==> 1 <= (seq - last) % 0x1_0000_0000
            <= 0x8000_0000),
{
}

/// A packet of the unreliable channel brings its own frame if it is newer than the last one that was
/// taken, or the first, and nothing else; taking it makes all older ones late.
pub proof fn law_newest_movement_is_taken(s: SessionModel, packet: Seq<u8>)
    requires
        read_packet(s.recv_key, packet) is Ok,
        (read_packet(s.recv_key, packet)->Ok_0).0 == Channel::Unreliable,
    ensures
        ({
            let (chan, seq, frame) = read_packet(s.recv_key, packet)->Ok_0;
            let (after, received) = take_datagram(s, packet);
            let steps = match s.unreliable_rx {
                Some(last) => (seq - last) % 0x1_0000_0000,
                None => 1,
            };
            if 1 <= steps <= 0x8000_0000 {
                &&& received->Ok_0.ready == seq![frame]
                &&& after.unreliable_rx == Some(seq)
            } else {
                &&& received->Ok_0.ready == Seq::<FrameModel>::empty()
                &&& after == s
            }
        }),
{
    let (chan, seq, frame) = read_packet(s.recv_key, packet)->Ok_0;
    lemma_accepts_newer(s.unreliable_rx, seq);
}

/// A packet of the control channel that is newer than the last one brings its own frame, but for an
/// acknowledgement, which settles just the packet with the acknowledged number and brings nothing.
#[verifier::spinoff_prover]
pub proof fn law_control_frames_are_heeded(s: SessionModel, packet: Seq<u8>)
    requires
        read_packet(s.recv_key, packet) is Ok,
        (read_packet(s.recv_key, packet)->Ok_0).0 == Channel::Control,
    ensures
        ({
            let (chan, seq, frame) = read_packet(s.recv_key, packet)->Ok_0;
            let (after, received) = take_datagram(s, packet);
            let steps = match s.control_rx {
                Some(last) => (seq - last) % 0x1_0000_0000,
                None => 1,
            };
            if 1 <= steps <= 0x8000_0000 {
                &&& after.control_rx == Some(seq)
                &&& match frame {
                    FrameModel::Ack { acked_seq } => {
                        &&& received->Ok_0.ready == Seq::<FrameModel>::empty()
                        &&& !after.pending.contains_key(acked_seq)
                        &&& forall|n: u32|
                            n != acked_seq ==> (#[trigger] after.pending.contains_key(n)
                                == s.pending.contains_key(n)) && (s.pending.contains_key(n)
                                ==> after.pending[n] == s.pending[n])
                    },
                    _ => received->Ok_0.ready == seq![frame] && after.pending == s.pending,
                }
            } else {
                &&& received->Ok_0.ready == Seq::<FrameModel>::empty()
                &&& after == s
            }
        }),
{
    let (chan, seq, frame) = read_packet(s.recv_key, packet)->Ok_0;
    lemma_accepts_newer(s.control_rx, seq);
}

/// A session starts with nothing sent, nothing received and nothing waiting, and sends under the one
/// key and receives under the other.
pub proof fn law_fresh_session(keys: SessionKeys)
    ensures
        ({
            let s = fresh_session(keys);
            &&& s.send_key == keys.send@ && s.recv_key == keys.recv@
            &&& s.reliable_seq == 0 && s.unreliable_seq == 0 && s.control_seq == 0
            &&& s.unreliable_rx is None && s.control_rx is None
            &&& s.reliable_rx.next == 0
            &&& forall|n: u32| !s.pending.contains_key(n) && !s.reliable_rx.buffered.contains_key(n)
        }),
{
}

} // verus!
