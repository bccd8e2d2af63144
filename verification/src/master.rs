//! The master: it decides where the input goes.
use crate::config::{all_codes, known_codes, Config};
use crate::crypto::SessionKeys;
use crate::event::{
    DisplayGeometry, Edge, HelloInfo, HelloModel, InputEvent, Point, WelcomeInfo, PROTO_VERSION,
};
use crate::frame::{frame_models, Frame, FrameModel};
use crate::hyprland::monitors_view;
use crate::platform::{MonitorModel, RealMonitor};
use crate::pointer::{
    self, edge_in_range, entry_in_range, entry_of, exit_in_range, exit_of, touches_edge,
};
use crate::reliable::{due_packets, elapsed, packets_view, seq_of, still_pending};
use crate::safety::{
    all_held, held_after, held_after_events, millis, nanos_of, silent_too_long, HotkeyModel,
    PanicHotkey, Watchdog, WatchdogModel,
};
use crate::text;
use crate::transport::{
    after_control, after_reliable, after_unreliable, carries, fresh_session, take_datagram,
    to_acknowledge, Session, SessionModel,
};
use crate::wire::{self, packet_bytes, Channel};
use vstd::prelude::*;

verus! {

/// Nanoseconds that an authenticated slave has to say hello.
pub const HELLO_TIMEOUT: u64 = 5_000_000_000;

/// Nanoseconds between two pings.
pub const HEARTBEAT_INTERVAL: u64 = 300_000_000;

/// How far the master and its slave have come.
#[derive(Debug, Clone, Copy, PartialEq, Eq, Structural)]
pub enum PhaseTag {
    /// No slave.
    Idle,
    /// A slave is authenticated and has not said hello.
    AwaitingHello,
    /// The input goes to the master itself.
    Attached,
    /// The input goes to the slave.
    Captured,
}

/// The address of a slave.
#[derive(Debug, Clone, Copy, PartialEq, Eq, Structural)]
pub enum PeerAddr {
    V4 { ip: u32, port: u16 },
    V6 { ip: u128, port: u16, flowinfo: u32, scope_id: u32 },
}

/// What the master does next.
#[derive(Debug, Clone, PartialEq, Eq)]
pub enum MasterAction {
    /// Send a packet.
    Send { to: PeerAddr, packet: Vec<u8> },
    /// Give the input devices back to the desktop.
    ReleaseInput,
    /// Begin to follow the pointer on the slave's screen.
    TrackPointer { at: Point, screen: DisplayGeometry },
    /// Stop to follow the pointer on the slave's screen.
    ForgetPointer,
    /// Show or hide the cursor.
    SetCursorVisible(bool),
    /// Put the cursor somewhere.
    Warp(Point),
}

/// What the master is to do next.
pub enum MasterPlan {
    /// Send the packet with the given number of a channel, carrying a frame under the key.
    Send { to: PeerAddr, key: Seq<u8>, chan: Channel, seq: u32, frame: FrameModel },
    /// Send a packet once more.
    Resend { to: PeerAddr, packet: Seq<u8> },
    ReleaseInput,
    TrackPointer { at: Point, screen: DisplayGeometry },
    ForgetPointer,
    SetCursorVisible(bool),
    Warp(Point),
}

/// Whether an action is what the plan asks for. A packet that is sent is read by its receiver as the
/// frame that it is to carry.
pub open spec fn does(action: MasterAction, plan: MasterPlan) -> bool {
    match plan {
        MasterPlan::Send { to, key, chan, seq, frame } => action matches MasterAction::Send {
            to: addr,
            packet,
        } && addr == to && carries(key, packet@, chan, seq, frame),
        MasterPlan::Resend { to, packet: again } => action matches MasterAction::Send {
            to: addr,
            packet,
        } && addr == to && packet@ == again,
        MasterPlan::ReleaseInput => action is ReleaseInput,
        MasterPlan::TrackPointer { at, screen } => action == (MasterAction::TrackPointer {
            at,
            screen,
        }),
        MasterPlan::ForgetPointer => action is ForgetPointer,
        MasterPlan::SetCursorVisible(visible) => action == MasterAction::SetCursorVisible(visible),
        MasterPlan::Warp(p) => action == MasterAction::Warp(p),
    }
}

/// Whether the actions are what the plan asks for, in its order.
pub open spec fn does_all(actions: Seq<MasterAction>, plan: Seq<MasterPlan>) -> bool {
    &&& actions.len() == plan.len()
    &&& forall|i: int| 0 <= i < plan.len() ==> does(#[trigger] actions[i], plan[i])
}

/// Some actions, then others.
fn follow(first: Vec<MasterAction>, second: Vec<MasterAction>) -> (all: Vec<MasterAction>)
    ensures
        forall|p: Seq<MasterPlan>, q: Seq<MasterPlan>| #[trigger]
            does_all(first@, p) && #[trigger] does_all(second@, q) ==> does_all(all@, p + q),
{
    let mut all = first;
    let mut rest = second;
    all.append(&mut rest);
    proof {
        assert forall|p: Seq<MasterPlan>, q: Seq<MasterPlan>| #[trigger]
            does_all(first@, p) && #[trigger] does_all(second@, q) implies does_all(
            all@,
            p + q,
        ) by {
            assert forall|i: int| 0 <= i < (p + q).len() implies does(
                #[trigger] all@[i],
                (p + q)[i],
            ) by {
                if i < p.len() {
                    assert(all@[i] == first@[i]);
                } else {
                    assert(all@[i] == second@[i - p.len()]);
                }
            }
        }
    }
    all
}

/// The state of the master.
pub struct AppModel {
    /// The name of the monitor over whose side the pointer leaves.
    pub monitor: Seq<char>,
    pub side: Edge,
    pub hotkey: HotkeyModel,
    pub watchdog: WatchdogModel,
    pub phase: PhaseTag,
    pub session: Option<SessionModel>,
    pub peer: Option<PeerAddr>,
    pub edge_monitor: Option<MonitorModel>,
    pub slave_screen: Option<DisplayGeometry>,
    /// When the last slave was authenticated.
    pub accepted_at: u64,
}

impl AppModel {
    /// There is a session just where there is a slave, and its screen and the monitor are known
    /// once it is attached.
    pub open spec fn wf(self) -> bool {
        &&& self.phase == PhaseTag::Idle <==> self.session is None
        &&& self.phase == PhaseTag::Idle <==> self.peer is None
        &&& self.phase == PhaseTag::Attached || self.phase == PhaseTag::Captured
            ==> self.edge_monitor is Some && self.slave_screen is Some
    }

    /// The master after something was heard of the slave.
    pub open spec fn poked(self, now: u64) -> AppModel {
        AppModel { watchdog: WatchdogModel { last_activity: now, ..self.watchdog }, ..self }
    }
}

/// The master, and what it does, after sending a frame on a channel. Without a slave nothing is
/// sent.
pub open spec fn send(a: AppModel, chan: Channel, frame: FrameModel, now: u64) -> (
    AppModel,
    Seq<MasterPlan>,
) {
    match (a.session, a.peer) {
        (Some(s), Some(to)) => {
            let seq = match chan {
                Channel::Reliable => s.reliable_seq,
                Channel::Unreliable => s.unreliable_seq,
                Channel::Control => s.control_seq,
            };
            let s2 = match chan {
                Channel::Reliable => after_reliable(
                    s,
                    packet_bytes(s.send_key, chan, seq, frame),
                    now,
                ),
                Channel::Unreliable => after_unreliable(s),
                Channel::Control => after_control(s),
            };
            (
                AppModel { session: Some(s2), ..a },
                seq![MasterPlan::Send { to, key: s.send_key, chan, seq, frame }],
            )
        },
        _ => (a, Seq::empty()),
    }
}

/// Two steps, one after the other.
pub open spec fn both(
    first: (AppModel, Seq<MasterPlan>),
    second: (AppModel, Seq<MasterPlan>),
) -> (AppModel, Seq<MasterPlan>) {
    (second.0, first.1 + second.1)
}

/// The master gives everything up and waits for a slave.
pub open spec fn teardown(a: AppModel) -> (AppModel, Seq<MasterPlan>) {
    (
        AppModel {
            phase: PhaseTag::Idle,
            session: None,
            peer: None,
            edge_monitor: None,
            slave_screen: None,
            ..a
        },
        seq![MasterPlan::ReleaseInput, MasterPlan::ForgetPointer],
    )
}

/// The master after a slave was authenticated.
pub open spec fn accepted(a: AppModel, addr: PeerAddr, keys: SessionKeys, now: u64) -> AppModel {
    AppModel {
        peer: Some(addr),
        session: Some(fresh_session(keys)),
        phase: PhaseTag::AwaitingHello,
        accepted_at: now,
        ..a
    }.poked(now)
}

/// The master after it gave up a slave that did not say hello in time, and what it does; nothing where
/// there is still time.
pub open spec fn heed_delay(a: AppModel, now: u64) -> Option<(AppModel, Seq<MasterPlan>)> {
    if hello_overdue(a, now) {
        Some(teardown(a))
    } else {
        None
    }
}

/// The master after it noticed that the slave has been silent for too long, and what it does; nothing
/// where it has not been, or is not attached.
pub open spec fn heed_silence(a: AppModel, now: u64) -> Option<(AppModel, Seq<MasterPlan>)> {
    if !silent_too_long(a.watchdog, now) {
        None
    } else {
        match a.phase {
            PhaseTag::Captured => Some(end(a, None, now)),
            PhaseTag::Attached => Some(teardown(a)),
            PhaseTag::Idle | PhaseTag::AwaitingHello => None,
        }
    }
}

/// Whether the time that an authenticated slave has to say hello is over.
pub open spec fn hello_overdue(a: AppModel, now: u64) -> bool {
    a.phase == PhaseTag::AwaitingHello && elapsed(now, a.accepted_at) >= HELLO_TIMEOUT
}

/// The first monitor from `i` on with the given name.
pub open spec fn find_monitor(monitors: Seq<MonitorModel>, name: Seq<char>, i: int) -> Option<
    MonitorModel,
>
    decreases monitors.len() - i,
{
    if i >= monitors.len() {
        None
    } else if monitors[i].name == name {
        Some(monitors[i])
    } else {
        find_monitor(monitors, name, i + 1)
    }
}

/// The answer to a hello that is accepted.
pub open spec fn welcome() -> FrameModel {
    FrameModel::Welcome(WelcomeInfo { proto_version: PROTO_VERSION })
}

/// The master after a slave said hello, and what it does: the slave is welcomed if it speaks the
/// same version and the monitor is there; else it is given up.
pub open spec fn greet(
    a: AppModel,
    hello: HelloModel,
    monitors: Option<Seq<MonitorModel>>,
    now: u64,
) -> (AppModel, Seq<MasterPlan>) {
    if hello.proto_version != PROTO_VERSION || monitors is None {
        teardown(a)
    } else {
        match find_monitor(monitors->0, a.monitor, 0) {
            None => teardown(a),
            Some(m) => send(
                AppModel {
                    edge_monitor: Some(m),
                    slave_screen: Some(hello.screen),
                    phase: PhaseTag::Attached,
                    ..a
                }.poked(now),
                Channel::Reliable,
                welcome(),
                now,
            ),
        }
    }
}

/// The point at which the pointer enters the slave's screen.
pub open spec fn entry_at(a: AppModel, global: Point) -> Point {
    let (x, y) = entry_of(global, a.edge_monitor->0, a.side, a.slave_screen->0);
    Point { x: x as i32, y: y as i32 }
}

/// The point at which the pointer comes back to the desktop.
pub open spec fn exit_at(a: AppModel, local: Point) -> Point {
    let (x, y) = exit_of(local, a.edge_monitor->0, a.side, a.slave_screen->0);
    Point { x: x as i32, y: y as i32 }
}

/// The master after the pointer went over to the slave, and what it does: from now on the input
/// goes to the slave, which first lets go of everything.
pub open spec fn begin(a: AppModel, global: Point, now: u64) -> (AppModel, Seq<MasterPlan>) {
    let at = entry_at(a, global);
    let begun = AppModel {
        hotkey: HotkeyModel { held: Set::empty(), ..a.hotkey },
        phase: PhaseTag::Captured,
        ..a
    }.poked(now);
    let local = seq![
        MasterPlan::TrackPointer { at, screen: a.slave_screen->0 },
        MasterPlan::SetCursorVisible(false),
    ];
    let first = send(begun, Channel::Reliable, FrameModel::Event(InputEvent::ReleaseAll), now);
    let second = send(
        first.0,
        Channel::Reliable,
        FrameModel::Event(InputEvent::Enter { at }),
        now,
    );
    (second.0, local + first.1 + second.1)
}

/// The master after the input came back to it, and what it does: the devices are released first,
/// the slave lets go of everything, and the cursor is put where the pointer came back, if it came
/// back over a side.
pub open spec fn end(a: AppModel, local_exit: Option<Point>, now: u64) -> (
    AppModel,
    Seq<MasterPlan>,
) {
    let first = send(a, Channel::Reliable, FrameModel::Event(InputEvent::Leave), now);
    let second = send(
        first.0,
        Channel::Reliable,
        FrameModel::Event(InputEvent::ReleaseAll),
        now,
    );
    let warp = match local_exit {
        Some(local) => seq![MasterPlan::Warp(exit_at(a, local))],
        None => Seq::empty(),
    };
    (
        AppModel { phase: PhaseTag::Attached, ..second.0 },
        seq![MasterPlan::ReleaseInput] + first.1 + second.1 + warp + seq![
            MasterPlan::SetCursorVisible(true),
            MasterPlan::ForgetPointer,
        ],
    )
}

/// An event of a captured device, with the place of the pointer on the slave's screen, and the
/// side over which a movement left that screen.
#[derive(Debug, Clone, Copy, PartialEq, Eq, Structural)]
pub enum CapturedEvent {
    Motion { to: Point, edge: Option<Edge> },
    Key { code: u16, pressed: bool },
    Button { code: u16, pressed: bool, at: Point },
    Scroll { dx: i32, dy: i32, hi_res: bool },
}

/// The frame by which an event is sent on, and its channel. Only a movement may be lost.
pub open spec fn forwarded(event: CapturedEvent) -> (Channel, FrameModel) {
    match event {
        CapturedEvent::Motion { to, .. } => (
            Channel::Unreliable,
            FrameModel::Event(InputEvent::Motion { x: to.x, y: to.y }),
        ),
        CapturedEvent::Key { code, pressed } => (
            Channel::Reliable,
            FrameModel::Event(InputEvent::Key { code, pressed }),
        ),
        CapturedEvent::Button { code, pressed, at } => (
            Channel::Reliable,
            FrameModel::Event(InputEvent::Button { code, pressed, at }),
        ),
        CapturedEvent::Scroll { dx, dy, hi_res } => (
            Channel::Reliable,
            FrameModel::Event(InputEvent::Scroll { dx, dy, hi_res }),
        ),
    }
}

/// The keys that are held down after an event.
pub open spec fn observed(a: AppModel, event: CapturedEvent) -> AppModel {
    match event {
        CapturedEvent::Key { code, pressed } => AppModel {
            hotkey: HotkeyModel { held: held_after(a.hotkey.held, code, pressed), ..a.hotkey },
            ..a
        },
        _ => a,
    }
}

/// The master after several key events.
pub open spec fn with_keys(a: AppModel, keys: Seq<(u16, bool)>) -> AppModel {
    AppModel { hotkey: HotkeyModel { held: held_after_events(a.hotkey.held, keys), ..a.hotkey }, ..a }
}

/// Whether an event completes the hotkey.
pub open spec fn triggers_hotkey(a: AppModel, event: CapturedEvent) -> bool {
    event matches CapturedEvent::Key { code, pressed } && pressed && all_held(
        a.hotkey.combo,
        held_after(a.hotkey.held, code, pressed),
    )
}

/// Whether an event ends the capture: the hotkey, or a movement over a side.
pub open spec fn ends_capture(a: AppModel, event: CapturedEvent) -> bool {
    triggers_hotkey(a, event) || (event matches CapturedEvent::Motion { edge, .. } && edge is Some)
}

/// The master after an event of a captured device, and what it does. The key that completes the
/// hotkey is not sent on.
pub open spec fn forward(a: AppModel, event: CapturedEvent, now: u64) -> (
    AppModel,
    Seq<MasterPlan>,
) {
    let seen = observed(a, event);
    if triggers_hotkey(a, event) {
        end(seen, None, now)
    } else {
        let (chan, frame) = forwarded(event);
        let sent = send(seen, chan, frame, now);
        match event {
            CapturedEvent::Motion { to, edge } => if edge is Some {
                both(sent, end(sent.0, Some(to), now))
            } else {
                sent
            },
            _ => sent,
        }
    }
}

/// The master after the events of a batch from the `i`-th on, and what it does. What comes behind
/// the end of the capture is dropped.
pub open spec fn forward_all(a: AppModel, batch: Seq<CapturedEvent>, i: int, now: u64) -> (
    AppModel,
    Seq<MasterPlan>,
)
    decreases batch.len() - i,
{
    if i >= batch.len() {
        (a, Seq::empty())
    } else {
        let first = forward(a, batch[i], now);
        if ends_capture(a, batch[i]) {
            first
        } else {
            both(first, forward_all(first.0, batch, i + 1, now))
        }
    }
}

/// Whether the pointer can come back from where an event takes it over a side.
pub open spec fn exit_possible(a: AppModel, event: CapturedEvent) -> bool {
    match event {
        CapturedEvent::Motion { to, edge } => edge is Some ==> exit_in_range(
            to,
            a.edge_monitor->0,
            a.side,
            a.slave_screen->0,
        ),
        _ => true,
    }
}

/// Whether the pointer can come back from where the events of a batch from the `i`-th on take it
/// over a side. What comes behind the end of the capture does not count.
pub open spec fn exits_possible(a: AppModel, batch: Seq<CapturedEvent>, i: int) -> bool
    decreases batch.len() - i,
{
    i < batch.len() ==> exit_possible(a, batch[i]) && (ends_capture(a, batch[i]) || exits_possible(
        observed(a, batch[i]),
        batch,
        i + 1,
    ))
}

/// The acknowledgement with which a datagram is answered, if it asks for one.
pub open spec fn acknowledge(s: SessionModel, to: PeerAddr, packet: Seq<u8>) -> Seq<MasterPlan> {
    match to_acknowledge(s, packet) {
        Some(acked_seq) => seq![
            MasterPlan::Send {
                to,
                key: s.send_key,
                chan: Channel::Control,
                seq: s.control_seq,
                frame: FrameModel::Ack { acked_seq },
            },
        ],
        None => Seq::empty(),
    }
}

/// The master after a datagram, what it does, and the frames that came. Only the slave's own
/// datagrams count.
pub open spec fn take_incoming(a: AppModel, from: PeerAddr, packet: Seq<u8>, now: u64) -> (
    AppModel,
    Seq<MasterPlan>,
    Seq<FrameModel>,
) {
    if a.peer != Some(from) || a.session is None {
        (a, Seq::empty(), Seq::empty())
    } else {
        match take_datagram(a.session->0, packet) {
            (s, Ok(received)) => (
                AppModel { session: Some(s), ..a }.poked(now),
                acknowledge(a.session->0, from, packet),
                received.ready,
            ),
            (s, Err(_)) => (a, Seq::empty(), Seq::empty()),
        }
    }
}

/// The master after it sent a ping, and what it does.
pub open spec fn pings(a: AppModel, nonce: u64, now: u64) -> (AppModel, Seq<MasterPlan>) {
    send(a, Channel::Control, FrameModel::Ping { nonce }, now)
}

/// `rand::random`: some number. Which one is left to chance.
#[verifier::external_body]
fn random_nonce() -> (nonce: u64) {
    rand::random()
}

/// What is done before the slave is told that the master stops: in a capture the input and the
/// cursor come back.
pub open spec fn stop_first(a: AppModel) -> Seq<MasterPlan> {
    if a.phase == PhaseTag::Captured {
        seq![MasterPlan::ReleaseInput, MasterPlan::SetCursorVisible(true)]
    } else {
        Seq::empty()
    }
}

/// What the master does before it stops: the input and the cursor come back, and the slave is told.
pub open spec fn stop(a: AppModel, now: u64) -> (AppModel, Seq<MasterPlan>) {
    both((a, stop_first(a)), send(a, Channel::Control, FrameModel::Bye, now))
}

/// The master.
pub struct App {
    monitor: String,
    side: Edge,
    hotkey: PanicHotkey,
    watchdog: Watchdog,
    phase: PhaseTag,
    session: Option<Session>,
    peer: Option<PeerAddr>,
    edge_monitor: Option<RealMonitor>,
    slave_screen: Option<DisplayGeometry>,
    accepted_at: u64,
}

impl View for App {
    type V = AppModel;

    closed spec fn view(&self) -> AppModel {
        AppModel {
            monitor: self.monitor@,
            side: self.side,
            hotkey: self.hotkey@,
            watchdog: self.watchdog@,
            phase: self.phase,
            session: match self.session {
                Some(session) => Some(session@),
                None => None,
            },
            peer: self.peer,
            edge_monitor: match self.edge_monitor {
                Some(monitor) => Some(monitor@),
                None => None,
            },
            slave_screen: self.slave_screen,
            accepted_at: self.accepted_at,
        }
    }
}

impl App {
    /// Send a frame to the slave, if there is one.
    fn send_now(&mut self, chan: Channel, frame: &Frame, now: u64) -> (actions: Vec<MasterAction>)
        requires
            !(frame is Hello),
        ensures
            final(self)@ == send(old(self)@, chan, frame@, now).0,
            does_all(actions@, send(old(self)@, chan, frame@, now).1),
    {
        proof {
            wire::law_packets_fit(frame@);
        }
        let to = match self.peer {
            Some(to) => to,
            None => return Vec::new(),
        };
        match &mut self.session {
            Some(session) => {
                let packet = match chan {
                    Channel::Reliable => session.send_reliable(frame, now),
                    Channel::Unreliable => session.send_unreliable(frame),
                    Channel::Control => session.send_control(frame),
                };
                vec![MasterAction::Send { to, packet }]
            },
            None => Vec::new(),
        }
    }

    /// A master without a slave. A name in the hotkey that is not that of a key is the error.
    pub fn new(config: &Config, now: u64) -> (res: Result<App, String>)
        ensures
            ({
                let names = text::texts_view(config.safety.panic_hotkey@);
                let codes = all_codes(names, known_codes(names), names.len() as int);
                match res {
                    Ok(app) => codes matches Ok(combo) && app@ == fresh_app(
                        config.edge.monitor@,
                        config.edge.side,
                        combo,
                        config.safety.watchdog_ms,
                        now,
                    ),
                    Err(name) => codes == Err::<Seq<u16>, Seq<char>>(name@),
                }
            }),
    {
        match config.panic_hotkey_codes() {
            Ok(codes) => Ok(
                Self::with_hotkey(
                    config.edge.monitor.clone(),
                    config.edge.side,
                    codes,
                    config.safety.watchdog_ms,
                    now,
                ),
            ),
            Err(name) => Err(name),
        }
    }

    /// A master without a slave, with the given keys as its hotkey.
    pub fn with_hotkey(
        monitor: String,
        side: Edge,
        codes: Vec<u16>,
        watchdog_ms: u64,
        now: u64,
    ) -> (app: App)
        ensures
            app@ == fresh_app(monitor@, side, codes@, watchdog_ms, now),
            app@.wf(),
    {
        App {
            monitor,
            side,
            hotkey: PanicHotkey::new(codes),
            watchdog: Watchdog::new(millis(watchdog_ms), now),
            phase: PhaseTag::Idle,
            session: None,
            peer: None,
            edge_monitor: None,
            slave_screen: None,
            accepted_at: now,
        }
    }

    /// How far the master and its slave have come.
    pub fn phase(&self) -> (phase: PhaseTag)
        ensures
            phase == self@.phase,
    {
        self.phase
    }

    /// A slave was authenticated and answered: its session begins.
    pub fn accept_peer(&mut self, addr: PeerAddr, keys: SessionKeys, now: u64)
        ensures
            final(self)@ == (AppModel {
                peer: Some(addr),
                session: Some(fresh_session(keys)),
                phase: PhaseTag::AwaitingHello,
                accepted_at: now,
                ..old(self)@
            }.poked(now)),
            final(self)@ == accepted(old(self)@, addr, keys, now),
            final(self)@.wf(),
    {
        self.peer = Some(addr);
        self.session = Some(Session::new(keys));
        self.watchdog.poke(now);
        self.phase = PhaseTag::AwaitingHello;
        self.accepted_at = now;
    }

    /// What is to be done if the slave has not said hello in time: it is given up. Nothing where
    /// there is still time, or no hello is awaited.
    pub fn check_hello(&mut self, now: u64) -> (actions: Option<Vec<MasterAction>>)
        requires
            old(self)@.wf(),
        ensures
            actions is Some <==> hello_overdue(old(self)@, now),
            match actions {
                Some(actions) => {
                    &&& final(self)@ == teardown(old(self)@).0
                    &&& does_all(actions@, teardown(old(self)@).1)
                },
                None => final(self)@ == old(self)@,
            },
            match heed_delay(old(self)@, now) {
                Some((a, plan)) => actions is Some && final(self)@ == a && does_all(
                    actions->0@,
                    plan,
                ),
                None => actions is None && final(self)@ == old(self)@,
            },
            final(self)@.wf(),
    {
        if self.phase == PhaseTag::AwaitingHello && now.saturating_sub(self.accepted_at)
            >= HELLO_TIMEOUT {
            Some(self.teardown_to_idle())
        } else {
            None
        }
    }

    /// Give the slave up.
    pub fn teardown_to_idle(&mut self) -> (actions: Vec<MasterAction>)
        ensures
            final(self)@ == teardown(old(self)@).0,
            does_all(actions@, teardown(old(self)@).1),
            final(self)@.wf(),
    {
        self.session = None;
        self.peer = None;
        self.edge_monitor = None;
        self.slave_screen = None;
        self.phase = PhaseTag::Idle;
        vec![MasterAction::ReleaseInput, MasterAction::ForgetPointer]
    }

    /// Take in a datagram: what is to be done, and the frames that came.
    pub fn on_incoming(&mut self, addr: PeerAddr, data: &[u8], now: u64) -> (res: (
        Vec<MasterAction>,
        Vec<Frame>,
    ))
        requires
            old(self)@.wf(),
        ensures
            ({
                let (a, actions, ready) = take_incoming(old(self)@, addr, data@, now);
                &&& final(self)@ == a
                &&& does_all(res.0@, actions)
                &&& frame_models(res.1@) == ready
            }),
            final(self)@.wf(),
    {
        let none: Vec<Frame> = Vec::new();
        assert(frame_models(none@) =~= Seq::empty());
        match self.peer {
            Some(peer) => {
                if peer != addr {
                    return (Vec::new(), none);
                }
            },
            None => return (Vec::new(), none),
        }
        match &mut self.session {
            Some(session) => match session.on_datagram(data) {
                Ok(received) => {
                    self.watchdog.poke(now);
                    let reply = match received.reply {
                        Some(packet) => vec![MasterAction::Send { to: addr, packet }],
                        None => Vec::new(),
                    };
                    (reply, received.ready)
                },
                Err(_) => (Vec::new(), none),
            },
            None => (Vec::new(), none),
        }
    }

    /// Whether a slave speaks the same version.
    pub fn speaks_same_version(hello: &HelloInfo) -> (same: bool)
        ensures
            same == (hello@.proto_version == PROTO_VERSION),
    {
        hello.proto_version == PROTO_VERSION
    }

    /// The first monitor with the configured name.
    fn find_edge_monitor(&self, monitors: Vec<RealMonitor>) -> (res: Option<RealMonitor>)
        ensures
            match res {
                Some(m) => find_monitor(monitors_view(monitors@), self@.monitor, 0) == Some(m@),
                None => find_monitor(monitors_view(monitors@), self@.monitor, 0) is None,
            },
    {
        let ghost models = monitors_view(monitors@);
        let mut rest = monitors;
        let mut i: usize = 0;
        while i < rest.len()
            invariant
                i <= rest@.len(),
                models == monitors_view(monitors@),
                models == monitors_view(rest@),
                find_monitor(models, self@.monitor, 0) == find_monitor(
                    models,
                    self@.monitor,
                    i as int,
                ),
            decreases rest@.len() - i,
        {
            assert(models[i as int] == rest@[i as int]@);
            if text::same_text(rest[i].name.as_str(), self.monitor.as_str()) {
                return Some(rest.remove(i));
            }
            i += 1;
        }
        None
    }

    /// A slave said hello; `monitors` are those of this machine, where they could be told.
    pub fn on_hello(
        &mut self,
        hello: HelloInfo,
        monitors: Option<Vec<RealMonitor>>,
        now: u64,
    ) -> (actions: Vec<MasterAction>)
        requires
            old(self)@.wf(),
            old(self)@.phase == PhaseTag::AwaitingHello,
        ensures
            ({
                let models = match monitors {
                    Some(monitors) => Some(monitors_view(monitors@)),
                    None => None,
                };
                let (a, done) = greet(old(self)@, hello@, models, now);
                &&& final(self)@ == a
                &&& does_all(actions@, done)
            }),
            final(self)@.wf(),
    {
        if !Self::speaks_same_version(&hello) {
            return self.teardown_to_idle();
        }
        let monitors = match monitors {
            Some(monitors) => monitors,
            None => return self.teardown_to_idle(),
        };
        let edge_monitor = match self.find_edge_monitor(monitors) {
            Some(monitor) => monitor,
            None => return self.teardown_to_idle(),
        };
        self.edge_monitor = Some(edge_monitor);
        self.slave_screen = Some(hello.screen);
        self.watchdog.poke(now);
        self.phase = PhaseTag::Attached;
        let welcome = Frame::Welcome(WelcomeInfo { proto_version: PROTO_VERSION });
        self.send_now(Channel::Reliable, &welcome, now)
    }

    /// Whether [`touches_doorway`](Self::touches_doorway) can be asked.
    pub fn can_test_doorway(&self, pos: Point) -> (res: bool)
        ensures
            res == (self@.edge_monitor is Some && edge_in_range(
                pos,
                self@.edge_monitor->0,
                self@.side,
            )),
    {
        match &self.edge_monitor {
            Some(monitor) => pointer::can_test_edge(pos, monitor, self.side),
            None => false,
        }
    }

    /// Whether the cursor is where the pointer goes over to the slave.
    pub fn touches_doorway(&self, pos: Point) -> (res: bool)
        requires
            self@.wf(),
            self@.phase == PhaseTag::Attached,
            edge_in_range(pos, self@.edge_monitor->0, self@.side),
        ensures
            res == touches_edge(pos, self@.edge_monitor->0, self@.side),
    {
        match &self.edge_monitor {
            Some(monitor) => pointer::at_trigger_edge(pos, monitor, self.side),
            None => false,
        }
    }

    /// Whether [`begin_capture`](Self::begin_capture) can tell where the pointer enters.
    pub fn can_begin_capture(&self, global: Point) -> (res: bool)
        ensures
            res == (self@.edge_monitor is Some && self@.slave_screen is Some && entry_in_range(
                global,
                self@.edge_monitor->0,
                self@.side,
                self@.slave_screen->0,
            )),
    {
        match (&self.edge_monitor, self.slave_screen) {
            (Some(monitor), Some(screen)) => pointer::can_enter(global, monitor, self.side, screen),
            _ => false,
        }
    }

    /// The devices are grabbed: the input goes to the slave.
    pub fn begin_capture(&mut self, global: Point, now: u64) -> (actions: Vec<MasterAction>)
        requires
            old(self)@.wf(),
            old(self)@.phase == PhaseTag::Attached,
            entry_in_range(
                global,
                old(self)@.edge_monitor->0,
                old(self)@.side,
                old(self)@.slave_screen->0,
            ),
        ensures
            final(self)@ == begin(old(self)@, global, now).0,
            does_all(actions@, begin(old(self)@, global, now).1),
            final(self)@.wf(),
    {
        let (at, screen) = match (&self.edge_monitor, self.slave_screen) {
            (Some(monitor), Some(screen)) => (
                pointer::entry_point(global, monitor, self.side, screen),
                screen,
            ),
            _ => return Vec::new(),
        };
        assert(at == entry_at(old(self)@, global));
        self.hotkey.reset();
        self.watchdog.poke(now);
        self.phase = PhaseTag::Captured;
        let local = vec![
            MasterAction::TrackPointer { at, screen },
            MasterAction::SetCursorVisible(false),
        ];
        assert(does_all(
            local@,
            seq![MasterPlan::TrackPointer { at, screen }, MasterPlan::SetCursorVisible(false)],
        ));
        let release = self.send_now(Channel::Reliable, &Frame::Event(InputEvent::ReleaseAll), now);
        let enter = self.send_now(Channel::Reliable, &Frame::Event(InputEvent::Enter { at }), now);
        follow(follow(local, release), enter)
    }

    /// The input comes back, over a side of the slave's screen or in another way.
    fn end_at(&mut self, local_exit: Option<Point>, now: u64) -> (actions: Vec<MasterAction>)
        requires
            old(self)@.wf(),
            old(self)@.phase == PhaseTag::Captured,
            local_exit matches Some(local) ==> exit_in_range(
                local,
                old(self)@.edge_monitor->0,
                old(self)@.side,
                old(self)@.slave_screen->0,
            ),
        ensures
            final(self)@ == end(old(self)@, local_exit, now).0,
            does_all(actions@, end(old(self)@, local_exit, now).1),
            final(self)@.wf(),
    {
        let input = vec![MasterAction::ReleaseInput];
        assert(does_all(input@, seq![MasterPlan::ReleaseInput]));
        let leave = self.send_now(Channel::Reliable, &Frame::Event(InputEvent::Leave), now);
        let release = self.send_now(Channel::Reliable, &Frame::Event(InputEvent::ReleaseAll), now);
        let warp = match (local_exit, &self.edge_monitor, self.slave_screen) {
            (Some(local), Some(monitor), Some(screen)) => {
                let target = pointer::exit_point(local, monitor, self.side, screen);
                assert(target == exit_at(old(self)@, local));
                vec![MasterAction::Warp(target)]
            },
            _ => Vec::new(),
        };
        assert(does_all(
            warp@,
            match local_exit {
                Some(local) => seq![MasterPlan::Warp(exit_at(old(self)@, local))],
                None => Seq::empty(),
            },
        ));
        let last = vec![MasterAction::SetCursorVisible(true), MasterAction::ForgetPointer];
        assert(does_all(
            last@,
            seq![MasterPlan::SetCursorVisible(true), MasterPlan::ForgetPointer],
        ));
        self.phase = PhaseTag::Attached;
        follow(follow(follow(follow(input, leave), release), warp), last)
    }

    /// The input comes back without the pointer having left the slave's screen.
    pub fn end_capture(&mut self, now: u64) -> (actions: Vec<MasterAction>)
        requires
            old(self)@.wf(),
            old(self)@.phase == PhaseTag::Captured,
        ensures
            final(self)@ == end(old(self)@, None, now).0,
            does_all(actions@, end(old(self)@, None, now).1),
            final(self)@.wf(),
    {
        self.end_at(None, now)
    }

    /// Do what an event of a captured device asks for, and say whether it ended the capture.
    fn forward_one(&mut self, event: CapturedEvent, now: u64) -> (res: (Vec<MasterAction>, bool))
        requires
            old(self)@.wf(),
            old(self)@.phase == PhaseTag::Captured,
            exit_possible(old(self)@, event),
        ensures
            final(self)@ == forward(old(self)@, event, now).0,
            does_all(res.0@, forward(old(self)@, event, now).1),
            res.1 == ends_capture(old(self)@, event),
            final(self)@.wf(),
    {
        match event {
            CapturedEvent::Motion { to, edge } => {
                let frame = Frame::Event(InputEvent::Motion { x: to.x, y: to.y });
                let sent = self.send_now(Channel::Unreliable, &frame, now);
                match edge {
                    Some(_) => {
                        let rest = self.end_at(Some(to), now);
                        (follow(sent, rest), true)
                    },
                    None => (sent, false),
                }
            },
            CapturedEvent::Key { code, pressed } => {
                if self.hotkey.observe(code, pressed) {
                    return (self.end_at(None, now), true);
                }
                let frame = Frame::Event(InputEvent::Key { code, pressed });
                (self.send_now(Channel::Reliable, &frame, now), false)
            },
            CapturedEvent::Button { code, pressed, at } => {
                let frame = Frame::Event(InputEvent::Button { code, pressed, at });
                (self.send_now(Channel::Reliable, &frame, now), false)
            },
            CapturedEvent::Scroll { dx, dy, hi_res } => {
                let frame = Frame::Event(InputEvent::Scroll { dx, dy, hi_res });
                (self.send_now(Channel::Reliable, &frame, now), false)
            },
        }
    }

    /// Whether [`handle_capture_batch`](Self::handle_capture_batch) can tell where the pointer
    /// comes back.
    pub fn can_handle(&self, batch: &[CapturedEvent]) -> (res: bool)
        requires
            self@.wf(),
            self@.phase == PhaseTag::Captured,
        ensures
            res == exits_possible(self@, batch@, 0),
    {
        let mut keys: Vec<(u16, bool)> = Vec::new();
        let ghost mut a = self@;
        let mut i: usize = 0;
        while i < batch.len()
            invariant
                i <= batch@.len(),
                self@.wf(),
                self@.phase == PhaseTag::Captured,
                a == with_keys(self@, keys@),
                exits_possible(self@, batch@, 0) == exits_possible(a, batch@, i as int),
            decreases batch@.len() - i,
        {
            match batch[i] {
                CapturedEvent::Motion { to, edge } => {
                    if edge.is_some() {
                        return match (&self.edge_monitor, self.slave_screen) {
                            (Some(monitor), Some(screen)) => pointer::can_exit(
                                to,
                                monitor,
                                self.side,
                                screen,
                            ),
                            _ => true,
                        };
                    }
                },
                CapturedEvent::Key { code, pressed } => {
                    let ghost before = keys@;
                    keys.push((code, pressed));
                    assert(keys@.drop_last() =~= before);
                    if pressed && self.hotkey.complete_after(keys.as_slice()) {
                        return true;
                    }
                    proof {
                        a = observed(a, batch@[i as int]);
                    }
                },
                CapturedEvent::Button { .. } | CapturedEvent::Scroll { .. } => {},
            }
            i += 1;
        }
        true
    }

    /// Do what the events of a batch ask for, in order, until the capture ends.
    pub fn handle_capture_batch(&mut self, batch: &[CapturedEvent], now: u64) -> (actions: Vec<
        MasterAction,
    >)
        requires
            old(self)@.wf(),
            old(self)@.phase == PhaseTag::Captured,
            exits_possible(old(self)@, batch@, 0),
        ensures
            final(self)@ == forward_all(old(self)@, batch@, 0, now).0,
            does_all(actions@, forward_all(old(self)@, batch@, 0, now).1),
            final(self)@.wf(),
    {
        let mut actions: Vec<MasterAction> = Vec::new();
        let ghost whole = forward_all(self@, batch@, 0, now);
        let ghost mut done: Seq<MasterPlan> = Seq::empty();
        let mut i: usize = 0;
        proof {
            lemma_forward_all(self@, batch@, 0, now, done);
            assert(done + whole.1 =~= whole.1);
        }
        while i < batch.len()
            invariant_except_break
                i <= batch@.len(),
                self@.wf(),
                self@.phase == PhaseTag::Captured,
                exits_possible(self@, batch@, i as int),
                whole.0 == forward_all(self@, batch@, i as int, now).0,
                whole.1 == done + forward_all(self@, batch@, i as int, now).1,
                i == batch@.len() ==> whole == (self@, done),
                does_all(actions@, done),
            ensures
                self@ == whole.0,
                does_all(actions@, whole.1),
                self@.wf(),
            decreases batch@.len() - i,
        {
            let ghost more = forward(self@, batch@[i as int], now).1;
            proof {
                lemma_forward_all(self@, batch@, i as int, now, done);
                if !ends_capture(self@, batch@[i as int]) {
                    lemma_forward_keeps(self@, batch@, i as int, now);
                }
            }
            let (forwarded, ended) = self.forward_one(batch[i], now);
            actions = follow(actions, forwarded);
            proof {
                done = done + more;
            }
            if ended {
                break;
            }
            i += 1;
            proof {
                if i == batch@.len() {
                    lemma_forward_all(self@, batch@, i as int, now, done);
                }
            }
        }
        actions
    }

    /// Whether the slave has been silent for too long.
    pub fn watchdog_expired(&self, now: u64) -> (expired: bool)
        ensures
            expired == silent_too_long(self@.watchdog, now),
    {
        self.watchdog.expired(now)
    }

    /// Send once more what is due.
    pub fn tick_retransmits(&mut self, now: u64) -> (actions: Vec<MasterAction>)
        requires
            old(self)@.wf(),
        ensures
            final(self)@ == resend(old(self)@, now).0,
            does_all(actions@, resend(old(self)@, now).1),
            final(self)@.wf(),
    {
        let mut actions: Vec<MasterAction> = Vec::new();
        let to = match self.peer {
            Some(to) => to,
            None => return actions,
        };
        let due = match &mut self.session {
            Some(session) => session.due_retransmits(now),
            None => return actions,
        };
        let mut i: usize = 0;
        let ghost packets = packets_view(due@);
        while i < due.len()
            invariant
                i <= due@.len(),
                packets == packets_view(due@),
                actions@.len() == i,
                forall|j: int|
                    0 <= j < i ==> does(#[trigger] actions@[j], resend_to(to, packets)[j]),
            decreases due@.len() - i,
        {
            let packet = due[i].clone();
            assert(packets[i as int] == packet@);
            actions.push(MasterAction::Send { to, packet });
            i += 1;
        }
        actions
    }

    /// Send a ping with a random nonce.
    pub fn send_ping(&mut self, now: u64) -> (actions: Vec<MasterAction>)
        requires
            old(self)@.wf(),
        ensures
            exists|nonce: u64|
                {
                    let (a, plan) = #[trigger] pings(old(self)@, nonce, now);
                    final(self)@ == a && does_all(actions@, plan)
                },
            final(self)@.wf(),
    {
        let nonce: u64 = random_nonce();
        self.send_ping_with(nonce, now)
    }

    /// Send a ping with the given nonce.
    pub fn send_ping_with(&mut self, nonce: u64, now: u64) -> (actions: Vec<MasterAction>)
        requires
            old(self)@.wf(),
        ensures
            final(self)@ == pings(old(self)@, nonce, now).0,
            does_all(actions@, pings(old(self)@, nonce, now).1),
            final(self)@.wf(),
    {
        self.send_now(Channel::Control, &Frame::Ping { nonce }, now)
    }

    /// What is to be done before the master stops.
    pub fn cleanup(&mut self, now: u64) -> (actions: Vec<MasterAction>)
        requires
            old(self)@.wf(),
        ensures
            final(self)@ == stop(old(self)@, now).0,
            does_all(actions@, stop(old(self)@, now).1),
            final(self)@.wf(),
    {
        let back = if self.phase == PhaseTag::Captured {
            vec![MasterAction::ReleaseInput, MasterAction::SetCursorVisible(true)]
        } else {
            Vec::new()
        };
        assert(does_all(back@, stop_first(self@)));
        let bye = self.send_now(Channel::Control, &Frame::Bye, now);
        follow(back, bye)
    }

    /// Take the input back and give the slave up, because it left or the devices failed.
    pub fn abort(&mut self) -> (actions: Vec<MasterAction>)
        ensures
            final(self)@ == give_up(old(self)@).0,
            does_all(actions@, give_up(old(self)@).1),
            final(self)@.wf(),
    {
        let first = if self.phase == PhaseTag::Captured {
            vec![MasterAction::ReleaseInput]
        } else {
            Vec::new()
        };
        assert(does_all(first@, give_up_first(self@)));
        let rest = self.teardown_to_idle();
        follow(first, rest)
    }

    /// Take in a datagram: what is to be done, and the hello that came, where one is awaited. A
    /// slave that says goodbye is given up.
    pub fn on_datagram(&mut self, addr: PeerAddr, data: &[u8], now: u64) -> (res: (
        Vec<MasterAction>,
        Option<HelloInfo>,
    ))
        requires
            old(self)@.wf(),
        ensures
            ({
                let (a, actions, hello) = heed_datagram(old(self)@, addr, data@, now);
                &&& final(self)@ == a
                &&& does_all(res.0@, actions)
                &&& match res.1 {
                    Some(h) => hello == Some(h@),
                    None => hello is None,
                }
            }),
            final(self)@.wf(),
    {
        let (actions, ready) = self.on_incoming(addr, data, now);
        if self.phase == PhaseTag::AwaitingHello {
            let hello = first_hello(ready);
            return (actions, hello);
        }
        if self.phase != PhaseTag::Idle && contains_bye(ready.as_slice()) {
            let rest = self.abort();
            return (follow(actions, rest), None);
        }
        (actions, None)
    }

    /// What is to be done if the slave has been silent for too long: in a capture the input comes
    /// back, else the slave is given up. Nothing where it has not, or no slave is attached.
    pub fn check_watchdog(&mut self, now: u64) -> (actions: Option<Vec<MasterAction>>)
        requires
            old(self)@.wf(),
        ensures
            match actions {
                Some(actions) => {
                    &&& silent_too_long(old(self)@.watchdog, now)
                    &&& if old(self)@.phase == PhaseTag::Captured {
                        &&& final(self)@ == end(old(self)@, None, now).0
                        &&& does_all(actions@, end(old(self)@, None, now).1)
                    } else {
                        &&& old(self)@.phase == PhaseTag::Attached
                        &&& final(self)@ == teardown(old(self)@).0
                        &&& does_all(actions@, teardown(old(self)@).1)
                    }
                },
                None => {
                    &&& final(self)@ == old(self)@
                    &&& !silent_too_long(old(self)@.watchdog, now) || old(self)@.phase
                        == PhaseTag::Idle || old(self)@.phase == PhaseTag::AwaitingHello
                },
            },
            match heed_silence(old(self)@, now) {
                Some((a, plan)) => actions is Some && final(self)@ == a && does_all(
                    actions->0@,
                    plan,
                ),
                None => actions is None && final(self)@ == old(self)@,
            },
            final(self)@.wf(),
    {
        if !self.watchdog_expired(now) {
            return None;
        }
        match self.phase {
            PhaseTag::Captured => Some(self.end_capture(now)),
            PhaseTag::Attached => Some(self.teardown_to_idle()),
            PhaseTag::Idle | PhaseTag::AwaitingHello => None,
        }
    }
}

/// A master without a slave.
pub open spec fn fresh_app(
    monitor: Seq<char>,
    side: Edge,
    combo: Seq<u16>,
    watchdog_ms: u64,
    now: u64,
) -> AppModel {
    AppModel {
        monitor,
        side,
        hotkey: HotkeyModel { combo, held: Set::empty() },
        watchdog: WatchdogModel {
            last_activity: now,
            timeout: nanos_of(watchdog_ms),
        },
        phase: PhaseTag::Idle,
        session: None,
        peer: None,
        edge_monitor: None,
        slave_screen: None,
        accepted_at: now,
    }
}

/// Sending several packets once more.
pub open spec fn resend_to(to: PeerAddr, packets: Seq<Seq<u8>>) -> Seq<MasterPlan> {
    packets.map_values(|packet: Seq<u8>| MasterPlan::Resend { to, packet })
}

/// The master after sending once more what is due, and what it does.
pub open spec fn resend(a: AppModel, now: u64) -> (AppModel, Seq<MasterPlan>) {
    match (a.session, a.peer) {
        (Some(s), Some(to)) => (
            AppModel {
                session: Some(SessionModel { pending: still_pending(s.pending, now), ..s }),
                ..a
            },
            resend_to(to, due_packets(s.pending, now)),
        ),
        _ => (a, Seq::empty()),
    }
}

/// The first event of a batch is dealt with, then the others, unless it ends the capture.
proof fn lemma_forward_all(
    a: AppModel,
    batch: Seq<CapturedEvent>,
    i: int,
    now: u64,
    done: Seq<MasterPlan>,
)
    ensures
        i >= batch.len() ==> forward_all(a, batch, i, now).0 == a && done + forward_all(
            a,
            batch,
            i,
            now,
        ).1 == done,
        i < batch.len() ==> ({
            let first = forward(a, batch[i], now);
            if ends_capture(a, batch[i]) {
                forward_all(a, batch, i, now) == first
            } else {
                let rest = forward_all(first.0, batch, i + 1, now);
                &&& forward_all(a, batch, i, now).0 == rest.0
                &&& done + forward_all(a, batch, i, now).1 == (done + first.1) + rest.1
            }
        }),
{
    if i >= batch.len() {
        assert(done + Seq::empty() =~= done);
    } else {
        let first = forward(a, batch[i], now);
        let rest = forward_all(first.0, batch, i + 1, now);
        assert(done + (first.1 + rest.1) =~= (done + first.1) + rest.1);
    }
}

/// An event that does not end the capture leaves the phase alone, and where the later events of its
/// batch can take the pointer.
proof fn lemma_forward_keeps(a: AppModel, batch: Seq<CapturedEvent>, i: int, now: u64)
    requires
        a.wf(),
        0 <= i < batch.len(),
        exits_possible(a, batch, i),
        !ends_capture(a, batch[i]),
    ensures
        forward(a, batch[i], now).0.phase == a.phase,
        exits_possible(forward(a, batch[i], now).0, batch, i + 1),
{
    lemma_exits_possible(observed(a, batch[i]), forward(a, batch[i], now).0, batch, i + 1);
}

/// Where a batch can take the pointer depends on the keys that are held down, the monitor, its side
/// and the slave's screen alone.
proof fn lemma_exits_possible(a: AppModel, b: AppModel, batch: Seq<CapturedEvent>, i: int)
    requires
        a.hotkey == b.hotkey,
        a.edge_monitor == b.edge_monitor,
        a.side == b.side,
        a.slave_screen == b.slave_screen,
    ensures
        exits_possible(a, batch, i) == exits_possible(b, batch, i),
    decreases batch.len() - i,
{
    if i < batch.len() {
        lemma_exits_possible(observed(a, batch[i]), observed(b, batch[i]), batch, i + 1);
    }
}

/// Whether a goodbye is among the frames.
pub open spec fn says_goodbye(frames: Seq<FrameModel>) -> bool {
    exists|i: int| 0 <= i < frames.len() && (#[trigger] frames[i]) is Bye
}

/// Whether a goodbye is among the frames.
pub fn contains_bye(frames: &[Frame]) -> (res: bool)
    ensures
        res == says_goodbye(frame_models(frames@)),
{
    let ghost models = frame_models(frames@);
    let mut i: usize = 0;
    while i < frames.len()
        invariant
            i <= frames@.len(),
            models == frame_models(frames@),
            forall|j: int| 0 <= j < i ==> !((#[trigger] models[j]) is Bye),
        decreases frames@.len() - i,
    {
        if let Frame::Bye = &frames[i] {
            assert(models[i as int] is Bye);
            return true;
        }
        assert(!(models[i as int] is Bye));
        i += 1;
    }
    false
}

/// The first hello from the `i`-th frame on.
pub open spec fn first_hello_from(frames: Seq<FrameModel>, i: int) -> Option<HelloModel>
    decreases frames.len() - i,
{
    if i >= frames.len() {
        None
    } else {
        match frames[i] {
            FrameModel::Hello(hello) => Some(hello),
            _ => first_hello_from(frames, i + 1),
        }
    }
}

/// The first hello among the frames.
pub fn first_hello(frames: Vec<Frame>) -> (res: Option<HelloInfo>)
    ensures
        match res {
            Some(hello) => first_hello_from(frame_models(frames@), 0) == Some(hello@),
            None => first_hello_from(frame_models(frames@), 0) is None,
        },
{
    let ghost models = frame_models(frames@);
    let mut rest = frames;
    let ghost mut i: int = 0;
    assert(models.skip(0) =~= models);
    while rest.len() > 0
        invariant
            models == frame_models(frames@),
            0 <= i <= models.len(),
            frame_models(rest@) == models.skip(i),
            first_hello_from(models, 0) == first_hello_from(models, i),
        decreases rest@.len(),
    {
        let ghost before = rest@;
        let frame = rest.remove(0);
        proof {
            assert(frame_models(before).len() == before.len());
            assert(frame_models(before)[0] == before[0]@);
            assert(models.skip(i).len() == models.len() - i);
            assert(models.skip(i)[0] == models[i]);
        }
        if let Frame::Hello(hello) = frame {
            return Some(hello);
        }
        proof {
            assert(frame_models(rest@) =~= models.skip(i + 1)) by {
                assert(rest@ =~= before.drop_first());
                assert forall|j: int| 0 <= j < rest@.len() implies frame_models(rest@)[j]
                    == models.skip(i + 1)[j] by {
                    assert(frame_models(before)[j + 1] == models.skip(i)[j + 1]);
                }
            }
            i = i + 1;
        }
    }
    proof {
        assert(frame_models(rest@).len() == rest@.len());
    }
    None
}

/// What is done before a slave is given up: in a capture the input comes back at once.
pub open spec fn give_up_first(a: AppModel) -> Seq<MasterPlan> {
    if a.phase == PhaseTag::Captured {
        seq![MasterPlan::ReleaseInput]
    } else {
        Seq::empty()
    }
}

/// The master after it gave the slave up, and what it does.
pub open spec fn give_up(a: AppModel) -> (AppModel, Seq<MasterPlan>) {
    (teardown(a).0, give_up_first(a) + teardown(a).1)
}

/// The master after a datagram, what it does, and the hello that came, where one is awaited.
pub open spec fn heed_datagram(a: AppModel, from: PeerAddr, packet: Seq<u8>, now: u64) -> (
    AppModel,
    Seq<MasterPlan>,
    Option<HelloModel>,
) {
    let (b, actions, ready) = take_incoming(a, from, packet, now);
    if b.phase == PhaseTag::AwaitingHello {
        (b, actions, first_hello_from(ready, 0))
    } else if b.phase != PhaseTag::Idle && says_goodbye(ready) {
        (give_up(b).0, actions + give_up(b).1, None)
    } else {
        (b, actions, None)
    }
}

/// However a capture ends, the first thing that happens is that the devices are released.
pub proof fn law_capture_ends_with_release(a: AppModel, local_exit: Option<Point>, now: u64)
    requires
        a.phase == PhaseTag::Captured,
    ensures
        end(a, local_exit, now).1[0] == MasterPlan::ReleaseInput,
        teardown(a).1[0] == MasterPlan::ReleaseInput,
        give_up(a).1[0] == MasterPlan::ReleaseInput,
        stop(a, now).1[0] == MasterPlan::ReleaseInput,
{
}

/// The slave is told to let go of everything, on the reliable channel, both when the input goes to
/// it and when the input comes back.
pub proof fn law_slave_lets_go(a: AppModel, global: Point, local_exit: Option<Point>, now: u64)
    requires
        a.session is Some,
        a.peer is Some,
    ensures
        ({
            let s = a.session->0;
            let lets_go = |seq: u32|
                MasterPlan::Send {
                    to: a.peer->0,
                    key: s.send_key,
                    chan: Channel::Reliable,
                    seq,
                    frame: FrameModel::Event(InputEvent::ReleaseAll),
                };
            &&& begin(a, global, now).1.contains(lets_go(s.reliable_seq))
            &&& end(a, local_exit, now).1.contains(lets_go(seq_of(s.reliable_seq + 1)))
        }),
{
    let s = a.session->0;
    let lets_go = |seq: u32|
        MasterPlan::Send {
            to: a.peer->0,
            key: s.send_key,
            chan: Channel::Reliable,
            seq,
            frame: FrameModel::Event(InputEvent::ReleaseAll),
        };
    assert(begin(a, global, now).1[2] == lets_go(s.reliable_seq));
    assert(end(a, local_exit, now).1[2] == lets_go(seq_of(s.reliable_seq + 1)));
}

/// The hotkey always ends the capture, and the key that completes it does not reach the slave: the
/// only packets that are sent say that the pointer left and that everything is let go of.
pub proof fn law_hotkey_ends_capture(a: AppModel, event: CapturedEvent, now: u64)
    requires
        triggers_hotkey(a, event),
    ensures
        forward(a, event, now) == end(observed(a, event), None, now),
        forward(a, event, now).0.phase == PhaseTag::Attached,
{
}

/// Only movements travel on the channel that may lose them; keys, buttons and scrolling do not.
pub proof fn law_only_motion_may_be_lost(event: CapturedEvent)
    ensures
        forwarded(event).0 == Channel::Unreliable <==> event is Motion,
        forwarded(event).0 == Channel::Reliable <==> !(event is Motion),
{
}

/// A datagram from anyone but the slave changes nothing and is not answered.
pub proof fn law_strangers_are_ignored(a: AppModel, from: PeerAddr, packet: Seq<u8>, now: u64)
    requires
        a.peer != Some(from),
    ensures
        take_incoming(a, from, packet, now) == (
            a,
            Seq::<MasterPlan>::empty(),
            Seq::<FrameModel>::empty(),
        ),
{
}

} // verus!
