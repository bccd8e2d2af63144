use smkb::config::{CaptureConfig, Config, DiscoveryConfig, EdgeConfig, SafetyConfig};
use smkb::crypto::SessionKeys;
use smkb::event::{DisplayGeometry, Edge, HelloInfo, InputEvent, Point, WelcomeInfo, PROTO_VERSION};
use smkb::frame::Frame;
use smkb::master::{
    contains_bye, first_hello, App, CapturedEvent, MasterAction, PeerAddr, PhaseTag, HELLO_TIMEOUT,
};
use smkb::platform::RealMonitor;
use smkb::reliable::RETRANSMIT_INTERVAL;
use smkb::slave::{hello_frame, Connection, SlaveAction, WATCHDOG_TIMEOUT};
use smkb::transport::Session;
use smkb::wire::{decode, fits_cipher, Channel};

const M: [u8; 32] = [1; 32];
const S: [u8; 32] = [2; 32];
const PEER: PeerAddr = PeerAddr::V4 { ip: 0x0a00_0002, port: 40_000 };
const OTHER: PeerAddr = PeerAddr::V4 { ip: 0x0a00_0002, port: 40_001 };

fn screen() -> DisplayGeometry {
    DisplayGeometry { width: 1280, height: 720, refresh_mhz: 60_000, scale_pct: 100 }
}

fn monitor(name: &str) -> RealMonitor {
    RealMonitor { name: name.to_string(), x: 0, y: 0, width: 1920, height: 1080, focused: true }
}

fn fresh() -> App {
    App::with_hotkey("DP-1".to_string(), Edge::Right, vec![29, 1], 1000, 0)
}

fn slave_session() -> Session {
    Session::new(SessionKeys { send: S, recv: M })
}

fn hello(version: u32) -> HelloInfo {
    HelloInfo { proto_version: version, hostname: "box".to_string(), screen: screen() }
}

fn awaiting() -> App {
    let mut app = fresh();
    app.accept_peer(PEER, SessionKeys { send: M, recv: S }, 0);
    app
}

fn attached() -> App {
    let mut app = awaiting();
    app.on_hello(hello(PROTO_VERSION), Some(vec![monitor("HDMI"), monitor("DP-1")]), 5);
    app
}

fn captured() -> App {
    let mut app = attached();
    app.begin_capture(Point::new(1919, 540), 6);
    app
}

fn sent(action: &MasterAction) -> (Channel, u32, Frame) {
    match action {
        MasterAction::Send { to, packet } => {
            assert_eq!(*to, PEER);
            decode(&M, packet).unwrap()
        }
        other => panic!("{:?}", other),
    }
}

fn event(e: InputEvent) -> Frame {
    Frame::Event(e)
}

#[test]
fn a_slave_is_welcomed_and_attached() {
    let mut app = awaiting();
    assert_eq!(app.phase(), PhaseTag::AwaitingHello);
    let mut slave = slave_session();
    let packet = slave.send_reliable(&Frame::Hello(hello(PROTO_VERSION)), 0);
    let (actions, got) = app.on_datagram(PEER, &packet, 10);
    assert_eq!(actions.len(), 1);
    assert_eq!(sent(&actions[0]), (Channel::Control, 0, Frame::Ack { acked_seq: 0 }));
    assert_eq!(got, Some(hello(PROTO_VERSION)));
    let actions = app.on_hello(got.unwrap(), Some(vec![monitor("DP-1")]), 11);
    assert_eq!(app.phase(), PhaseTag::Attached);
    assert_eq!(
        actions.iter().map(sent).collect::<Vec<_>>(),
        vec![(
            Channel::Reliable,
            0,
            Frame::Welcome(WelcomeInfo { proto_version: PROTO_VERSION })
        )]
    );
}

#[test]
fn a_slave_is_given_up_for_good_reasons() {
    let gone = vec![MasterAction::ReleaseInput, MasterAction::ForgetPointer];
    let mut app = awaiting();
    assert_eq!(app.on_hello(hello(PROTO_VERSION + 1), Some(vec![monitor("DP-1")]), 1), gone);
    assert_eq!(app.phase(), PhaseTag::Idle);
    let mut app = awaiting();
    assert_eq!(app.on_hello(hello(PROTO_VERSION), None, 1), gone);
    assert_eq!(app.phase(), PhaseTag::Idle);
    let mut app = awaiting();
    assert_eq!(app.on_hello(hello(PROTO_VERSION), Some(vec![monitor("DP-2")]), 1), gone);
    assert_eq!(app.phase(), PhaseTag::Idle);
    assert!(App::speaks_same_version(&hello(PROTO_VERSION)));
    assert!(!App::speaks_same_version(&hello(0)));
}

#[test]
fn a_slave_has_to_say_hello_in_time() {
    let mut app = fresh();
    assert_eq!(app.check_hello(HELLO_TIMEOUT), None);
    app.accept_peer(PEER, SessionKeys { send: M, recv: S }, 100);
    assert_eq!(app.check_hello(HELLO_TIMEOUT + 99), None);
    assert_eq!(app.phase(), PhaseTag::AwaitingHello);
    assert_eq!(
        app.check_hello(HELLO_TIMEOUT + 100),
        Some(vec![MasterAction::ReleaseInput, MasterAction::ForgetPointer])
    );
    assert_eq!(app.phase(), PhaseTag::Idle);
    assert_eq!(attached().check_hello(10 * HELLO_TIMEOUT), None);
}

#[test]
fn strangers_are_ignored() {
    let mut app = attached();
    let mut slave = slave_session();
    let bye = slave.send_control(&Frame::Bye);
    assert_eq!(app.on_datagram(OTHER, &bye, 7), (vec![], None));
    assert_eq!(app.phase(), PhaseTag::Attached);
    assert_eq!(app.on_datagram(PEER, &[1, 2, 3], 7), (vec![], None));
    assert_eq!(fresh().on_datagram(PEER, &bye, 7), (vec![], None));
    let (actions, _) = app.on_datagram(PEER, &bye, 7);
    assert_eq!(actions, vec![MasterAction::ReleaseInput, MasterAction::ForgetPointer]);
    assert_eq!(app.phase(), PhaseTag::Idle);
}

#[test]
fn the_pointer_goes_over_to_the_slave() {
    let mut app = attached();
    assert!(app.can_test_doorway(Point::new(1919, 540)));
    assert!(app.touches_doorway(Point::new(1919, 540)));
    assert!(!app.touches_doorway(Point::new(1918, 540)));
    assert!(app.can_begin_capture(Point::new(1919, 540)));
    let actions = app.begin_capture(Point::new(1919, 540), 6);
    let at = Point::new(2, 360);
    assert_eq!(app.phase(), PhaseTag::Captured);
    assert_eq!(actions.len(), 4);
    assert_eq!(actions[0], MasterAction::TrackPointer { at, screen: screen() });
    assert_eq!(actions[1], MasterAction::SetCursorVisible(false));
    assert_eq!(sent(&actions[2]), (Channel::Reliable, 1, event(InputEvent::ReleaseAll)));
    assert_eq!(sent(&actions[3]), (Channel::Reliable, 2, event(InputEvent::Enter { at })));
    assert!(!fresh().can_test_doorway(at));
    assert!(!fresh().can_begin_capture(at));
}

#[test]
fn captured_events_are_sent_on() {
    let mut app = captured();
    let at = Point::new(7, 8);
    let batch = [
        CapturedEvent::Key { code: 30, pressed: true },
        CapturedEvent::Button { code: 0x110, pressed: true, at },
        CapturedEvent::Motion { to: at, edge: None },
        CapturedEvent::Scroll { dx: 0, dy: 120, hi_res: false },
    ];
    assert!(app.can_handle(&batch));
    let actions = app.handle_capture_batch(&batch, 9);
    assert_eq!(
        actions.iter().map(sent).collect::<Vec<_>>(),
        vec![
            (Channel::Reliable, 3, event(InputEvent::Key { code: 30, pressed: true })),
            (Channel::Reliable, 4, event(InputEvent::Button { code: 0x110, pressed: true, at })),
            (Channel::Unreliable, 0, event(InputEvent::Motion { x: 7, y: 8 })),
            (Channel::Reliable, 5, event(InputEvent::Scroll { dx: 0, dy: 120, hi_res: false })),
        ]
    );
    assert_eq!(app.phase(), PhaseTag::Captured);
}

#[test]
fn leaving_over_a_side_ends_the_capture() {
    let mut app = captured();
    let batch = [
        CapturedEvent::Motion { to: Point::new(0, 360), edge: Some(Edge::Left) },
        CapturedEvent::Key { code: 30, pressed: true },
    ];
    let actions = app.handle_capture_batch(&batch, 9);
    assert_eq!(app.phase(), PhaseTag::Attached);
    assert_eq!(actions.len(), 7);
    assert_eq!(sent(&actions[0]).2, event(InputEvent::Motion { x: 0, y: 360 }));
    assert_eq!(actions[1], MasterAction::ReleaseInput);
    assert_eq!(sent(&actions[2]), (Channel::Reliable, 3, event(InputEvent::Leave)));
    assert_eq!(sent(&actions[3]), (Channel::Reliable, 4, event(InputEvent::ReleaseAll)));
    assert_eq!(actions[4], MasterAction::Warp(Point::new(1918, 540)));
    assert_eq!(actions[5], MasterAction::SetCursorVisible(true));
    assert_eq!(actions[6], MasterAction::ForgetPointer);
}

#[test]
fn the_hotkey_ends_the_capture_unseen_by_the_slave() {
    let mut app = captured();
    let batch = [
        CapturedEvent::Key { code: 29, pressed: true },
        CapturedEvent::Key { code: 1, pressed: true },
        CapturedEvent::Key { code: 30, pressed: true },
    ];
    let actions = app.handle_capture_batch(&batch, 9);
    assert_eq!(app.phase(), PhaseTag::Attached);
    assert_eq!(sent(&actions[0]).2, event(InputEvent::Key { code: 29, pressed: true }));
    assert_eq!(actions[1], MasterAction::ReleaseInput);
    assert_eq!(sent(&actions[2]).2, event(InputEvent::Leave));
    assert_eq!(sent(&actions[3]).2, event(InputEvent::ReleaseAll));
    assert_eq!(actions[4..], [MasterAction::SetCursorVisible(true), MasterAction::ForgetPointer]);
}

#[test]
fn a_silent_slave_loses_the_input() {
    let second = 1_000_000_000;
    let mut app = captured();
    assert_eq!(app.check_watchdog(second + 6), None);
    assert!(!app.watchdog_expired(second + 6));
    let actions = app.check_watchdog(second + 7).unwrap();
    assert_eq!(actions[0], MasterAction::ReleaseInput);
    assert_eq!(app.phase(), PhaseTag::Attached);
    let actions = app.check_watchdog(second + 7).unwrap();
    assert_eq!(actions, vec![MasterAction::ReleaseInput, MasterAction::ForgetPointer]);
    assert_eq!(app.phase(), PhaseTag::Idle);
    assert_eq!(app.check_watchdog(9 * second), None);
    assert_eq!(awaiting().check_watchdog(9 * second), None);
}

#[test]
fn a_goodbye_in_a_capture_releases_the_input() {
    let mut app = captured();
    let mut slave = slave_session();
    let bye = slave.send_control(&Frame::Bye);
    let (actions, hello) = app.on_datagram(PEER, &bye, 7);
    assert_eq!(hello, None);
    assert_eq!(
        actions,
        vec![
            MasterAction::ReleaseInput,
            MasterAction::ReleaseInput,
            MasterAction::ForgetPointer
        ]
    );
    let mut app = captured();
    assert_eq!(app.abort().len(), 3);
    assert_eq!(app.phase(), PhaseTag::Idle);
}

#[test]
fn pings_and_retransmissions_go_to_the_slave() {
    let mut app = attached();
    let actions = app.send_ping_with(77, 8);
    assert_eq!(sent(&actions[0]), (Channel::Control, 0, Frame::Ping { nonce: 77 }));
    assert_eq!(app.tick_retransmits(6), vec![]);
    let actions = app.tick_retransmits(5 + RETRANSMIT_INTERVAL);
    assert_eq!(actions.len(), 1);
    assert!(matches!(sent(&actions[0]), (Channel::Reliable, 0, Frame::Welcome(_))));
    assert_eq!(fresh().send_ping(1), vec![]);
    assert_eq!(fresh().tick_retransmits(1), vec![]);
}

#[test]
fn pings_are_told_apart() {
    let mut app = attached();
    let first = app.send_ping(8);
    let second = app.send_ping(9);
    assert_eq!((first.len(), second.len()), (1, 1));
    let (a, b) = (sent(&first[0]), sent(&second[0]));
    assert_eq!((a.0, a.1), (Channel::Control, 0));
    assert_eq!((b.0, b.1), (Channel::Control, 1));
    assert!(matches!(a.2, Frame::Ping { .. }) && matches!(b.2, Frame::Ping { .. }));
    assert_ne!(a.2, b.2);
}

fn config(keys: &[&str]) -> Config {
    Config {
        listen: "0.0.0.0:24801".to_string(),
        psk_file: "~/.config/smkb/psk".to_string(),
        discovery: DiscoveryConfig::default(),
        edge: EdgeConfig { monitor: "DP-1".to_string(), side: Edge::Right, poll_ms: 8 },
        capture: CaptureConfig::default(),
        safety: SafetyConfig {
            panic_hotkey: keys.iter().map(|k| k.to_string()).collect(),
            watchdog_ms: 1000,
        },
    }
}

#[test]
fn the_configuration_makes_a_master() {
    let mut app = App::new(&config(&["KEY_LEFTCTRL", "KEY_ESC"]), 0).ok().unwrap();
    assert_eq!(app.phase(), PhaseTag::Idle);
    assert!(!app.watchdog_expired(1_000_000_000));
    assert!(app.watchdog_expired(1_000_000_001));
    app.accept_peer(PEER, SessionKeys { send: M, recv: S }, 0);
    app.on_hello(hello(PROTO_VERSION), Some(vec![monitor("DP-1")]), 5);
    app.begin_capture(Point::new(1919, 540), 6);
    let batch = [
        CapturedEvent::Key { code: 29, pressed: true },
        CapturedEvent::Key { code: 1, pressed: true },
    ];
    app.handle_capture_batch(&batch, 7);
    assert_eq!(app.phase(), PhaseTag::Attached);
    assert_eq!(
        App::new(&config(&["KEY_ESC", "KEY_NONSENSE"]), 0).err(),
        Some("KEY_NONSENSE".to_string())
    );
}

#[test]
fn only_the_crossing_that_counts_has_to_be_possible() {
    let far = RealMonitor { x: i32::MAX - 1, ..monitor("DP-1") };
    let mut app = App::with_hotkey("DP-1".to_string(), Edge::Left, vec![29, 1], 1000, 0);
    app.accept_peer(PEER, SessionKeys { send: M, recv: S }, 0);
    app.on_hello(hello(PROTO_VERSION), Some(vec![far]), 5);
    app.begin_capture(Point::new(0, 0), 6);
    let crossing = CapturedEvent::Motion { to: Point::new(0, 0), edge: Some(Edge::Right) };
    let staying = CapturedEvent::Motion { to: Point::new(0, 0), edge: None };
    let ctrl = CapturedEvent::Key { code: 29, pressed: true };
    let esc = CapturedEvent::Key { code: 1, pressed: true };
    let ctrl_up = CapturedEvent::Key { code: 29, pressed: false };
    assert!(app.can_handle(&[]));
    assert!(app.can_handle(&[staying, ctrl]));
    assert!(!app.can_handle(&[crossing]));
    assert!(!app.can_handle(&[ctrl, crossing]));
    assert!(!app.can_handle(&[ctrl, ctrl_up, esc, crossing]));
    assert!(app.can_handle(&[ctrl, esc, crossing]));
    app.handle_capture_batch(&[ctrl, esc, crossing], 7);
    assert_eq!(app.phase(), PhaseTag::Attached);
}

#[test]
fn stopping_gives_everything_back() {
    assert_eq!(fresh().cleanup(1), vec![]);
    let actions = attached().cleanup(1);
    assert_eq!(actions.len(), 1);
    assert_eq!(sent(&actions[0]), (Channel::Control, 0, Frame::Bye));
    let actions = captured().cleanup(1);
    assert_eq!(actions.len(), 3);
    assert_eq!(
        actions[..2],
        [MasterAction::ReleaseInput, MasterAction::SetCursorVisible(true)]
    );
    assert_eq!(sent(&actions[2]).2, Frame::Bye);
    let mut app = captured();
    let actions = app.end_capture(7);
    assert_eq!(actions[0], MasterAction::ReleaseInput);
    assert_eq!(app.phase(), PhaseTag::Attached);
}

#[test]
fn frames_are_searched_in_order() {
    let one = hello(1);
    let two = hello(2);
    let frames = vec![Frame::Bye, Frame::Hello(one.clone()), Frame::Hello(two)];
    assert!(contains_bye(&frames));
    assert!(!contains_bye(&frames[1..]));
    assert_eq!(first_hello(frames), Some(one));
    assert_eq!(first_hello(vec![Frame::Bye]), None);
}

fn connect() -> (Connection, Session) {
    let frame = hello_frame("box".to_string(), screen());
    assert!(fits_cipher(&frame));
    let (connection, packet) = Connection::open(SessionKeys { send: S, recv: M }, &frame, 0);
    assert_eq!(
        decode(&S, &packet),
        Ok((Channel::Reliable, 0, Frame::Hello(hello(PROTO_VERSION))))
    );
    (connection, Session::new(SessionKeys { send: M, recv: S }))
}

#[test]
fn the_slave_replays_and_answers() {
    let (mut slave, mut master) = connect();
    let key = InputEvent::Key { code: 30, pressed: true };
    let first = master.send_reliable(&event(key), 0);
    let second = master.send_reliable(&Frame::Welcome(WelcomeInfo { proto_version: 1 }), 0);
    let actions = slave.on_datagram(&second, 5);
    assert_eq!(actions.len(), 1);
    let actions = slave.on_datagram(&first, 6);
    assert_eq!(actions.len(), 3);
    match &actions[0] {
        SlaveAction::Send(packet) => {
            assert_eq!(
                decode(&S, packet),
                Ok((Channel::Control, 1, Frame::Ack { acked_seq: 0 }))
            )
        }
        other => panic!("{:?}", other),
    }
    assert_eq!(actions[1..], [SlaveAction::Emit(key), SlaveAction::Welcomed]);
    let ping = master.send_control(&Frame::Ping { nonce: 9 });
    match &slave.on_datagram(&ping, 7)[..] {
        [SlaveAction::Send(packet)] => {
            assert_eq!(decode(&S, packet), Ok((Channel::Control, 2, Frame::Pong { nonce: 9 })))
        }
        other => panic!("{:?}", other),
    }
}

#[test]
fn nothing_counts_after_a_goodbye() {
    let (mut slave, mut master) = connect();
    let first = master.send_reliable(&Frame::Bye, 0);
    let second = master.send_reliable(&event(InputEvent::Leave), 0);
    slave.on_datagram(&second, 1);
    let actions = slave.on_datagram(&first, 1);
    assert_eq!(actions.len(), 2);
    assert_eq!(actions[1], SlaveAction::Close);
    let pong = master.send_control(&Frame::Pong { nonce: 1 });
    assert_eq!(slave.on_datagram(&pong, 1), vec![]);
}

#[test]
fn a_silent_master_is_given_up() {
    let (mut slave, mut master) = connect();
    assert!(!slave.is_dead(WATCHDOG_TIMEOUT));
    assert!(slave.is_dead(WATCHDOG_TIMEOUT + 1));
    assert_eq!(slave.on_datagram(&[0; 40], 50), vec![]);
    assert!(slave.is_dead(WATCHDOG_TIMEOUT + 1));
    let ping = master.send_control(&Frame::Ping { nonce: 1 });
    slave.on_datagram(&ping, 50);
    assert!(!slave.is_dead(WATCHDOG_TIMEOUT + 50));
    assert_eq!(slave.due_retransmits(RETRANSMIT_INTERVAL).len(), 1);
    assert_eq!(slave.due_retransmits(RETRANSMIT_INTERVAL).len(), 0);
}

#[test]
fn silence_counts_from_the_start_of_the_service() {
    let (mut slave, _) = connect();
    slave.start_service(70);
    assert!(!slave.is_dead(WATCHDOG_TIMEOUT + 70));
    assert!(slave.is_dead(WATCHDOG_TIMEOUT + 71));
    assert_eq!(slave.due_retransmits(RETRANSMIT_INTERVAL).len(), 1);
}

#[test]
fn a_whole_capture_reaches_the_slave_in_order() {
    let (mut slave, _) = connect();
    let mut app = attached();
    let mut packets = Vec::new();
    let collect = |actions: Vec<MasterAction>, packets: &mut Vec<Vec<u8>>| {
        for action in actions {
            if let MasterAction::Send { packet, .. } = action {
                packets.push(packet);
            }
        }
    };
    collect(app.tick_retransmits(5 + RETRANSMIT_INTERVAL), &mut packets);
    collect(app.begin_capture(Point::new(1919, 0), 6), &mut packets);
    let key = CapturedEvent::Key { code: 30, pressed: true };
    collect(app.handle_capture_batch(&[key], 7), &mut packets);
    collect(app.end_capture(8), &mut packets);
    packets.reverse();
    let mut events = Vec::new();
    for packet in &packets {
        for action in slave.on_datagram(packet, 9) {
            if let SlaveAction::Emit(e) = action {
                events.push(e);
            }
        }
    }
    assert_eq!(
        events,
        vec![
            InputEvent::ReleaseAll,
            InputEvent::Enter { at: Point::new(2, 0) },
            InputEvent::Key { code: 30, pressed: true },
            InputEvent::Leave,
            InputEvent::ReleaseAll,
        ]
    );
}
