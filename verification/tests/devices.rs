use smkb::batch::{PendingBatch, EV_KEY, EV_REL, EV_SYN};
use smkb::capture::{
    apply_filters, classify, describe_device, glob_match, DeviceTraits, BTN_LEFT, KEY_A, KEY_SPACE,
    REL_HWHEEL, REL_HWHEEL_HI_RES, REL_WHEEL, REL_WHEEL_HI_RES, REL_X, REL_Y,
};
use smkb::emitter::{
    keyboard_setup, plan_emission, pointer_setup, Emission, HeldInputs, OutDevice, OutEvent,
};
use smkb::event::{DisplayGeometry, InputEvent, Point};
use smkb::grab::{after_failed_attempt, Grab, GrabAction, GrabRetry, GRAB_RETRY_DELAY};
use smkb::keys::{is_keyboard_key, is_keyboard_name, keyboard_keys};
use smkb::platform::{DeviceInfo, DeviceKind, PlatformError, RawInputEvent};

fn traits(name: &str, keys: &[u16], axes: &[u16]) -> DeviceTraits {
    DeviceTraits {
        name: Some(name.to_string()),
        keys: Some(keys.to_vec()),
        relative_axes: Some(axes.to_vec()),
    }
}

#[test]
fn devices_are_told_apart() {
    assert_eq!(classify(&traits("m", &[BTN_LEFT], &[REL_X, REL_Y])), Some(DeviceKind::Mouse));
    assert_eq!(
        classify(&traits("m", &[BTN_LEFT], &[REL_X])),
        Some(DeviceKind::ConsumerControl)
    );
    assert_eq!(classify(&traits("k", &[KEY_A, KEY_SPACE], &[])), Some(DeviceKind::Keyboard));
    assert_eq!(classify(&traits("k", &[KEY_A], &[])), Some(DeviceKind::ConsumerControl));
    assert_eq!(
        classify(&traits("both", &[KEY_A, KEY_SPACE, BTN_LEFT], &[REL_Y, REL_X])),
        Some(DeviceKind::Mouse)
    );
    assert_eq!(classify(&traits("none", &[], &[REL_X, REL_Y])), None);
    assert_eq!(classify(&DeviceTraits { name: None, keys: None, relative_axes: None }), None);
    assert_eq!(classify(&traits("smkb-virtual-pointer", &[BTN_LEFT], &[REL_X, REL_Y])), None);
    assert_eq!(
        classify(&traits("Smkb-mouse", &[BTN_LEFT], &[REL_X, REL_Y])),
        Some(DeviceKind::Mouse)
    );
    assert_eq!(DeviceKind::Mouse.label(), "mouse");
    assert_eq!(DeviceKind::Keyboard.label(), "keyboard");
    assert_eq!(DeviceKind::ConsumerControl.label(), "consumer-control");
}

#[test]
fn devices_are_described() {
    let path = "/dev/input/event3".to_string();
    let info = describe_device(path.clone(), &traits("Mouse", &[BTN_LEFT], &[REL_X, REL_Y]));
    assert_eq!(
        info,
        Some(DeviceInfo { path: path.clone(), name: "Mouse".to_string(), kind: DeviceKind::Mouse })
    );
    let nameless = DeviceTraits { name: None, keys: Some(vec![1]), relative_axes: None };
    assert_eq!(describe_device(path.clone(), &nameless).unwrap().name, "<unnamed>");
    assert_eq!(describe_device(path, &traits("x", &[], &[])), None);
}

#[test]
fn patterns_match_at_their_open_ends() {
    assert!(glob_match("Logitech", "LOGITECH"));
    assert!(!glob_match("Logitech", "Logitech G"));
    assert!(glob_match("logi*", "Logitech G"));
    assert!(!glob_match("logi*", "A Logitech"));
    assert!(glob_match("*tech", "Logitech"));
    assert!(!glob_match("*tech", "Logitech G"));
    assert!(glob_match("*ITE*", "Logitech G"));
    assert!(!glob_match("*itx*", "Logitech G"));
    assert!(glob_match("*", ""));
    assert!(glob_match("*", "anything"));
    assert!(glob_match("**", ""));
    assert!(glob_match("", ""));
    assert!(!glob_match("", "x"));
    assert!(!glob_match("a*b", "axb"));
    assert!(glob_match("a*b", "A*B"));
    assert!(glob_match("*É", "caféÉ"));
    assert!(!glob_match("*É", "café"));
}

fn device(path: &str, name: &str, kind: DeviceKind) -> DeviceInfo {
    DeviceInfo { path: path.to_string(), name: name.to_string(), kind }
}

fn found() -> Vec<DeviceInfo> {
    vec![
        device("/dev/input/event0", "Mouse", DeviceKind::Mouse),
        device("/dev/input/event1", "Keyboard", DeviceKind::Keyboard),
        device("/dev/input/event2", "Media Keys", DeviceKind::ConsumerControl),
        device("/dev/input/event3", "Keyboard 2", DeviceKind::Keyboard),
    ]
}

fn names(devices: &[DeviceInfo]) -> Vec<String> {
    devices.iter().map(|d| d.name.clone()).collect()
}

#[test]
fn listed_devices_win_over_patterns() {
    let mut devices = found();
    let listed = vec![
        "/dev//input/./event3/".to_string(),
        "/dev/input/event2".to_string(),
        "dev/input/event0".to_string(),
    ];
    apply_filters(&mut devices, Some(&listed), &["*".to_string()], false);
    assert_eq!(names(&devices), vec!["Media Keys", "Keyboard 2"]);
    let mut devices = found();
    apply_filters(&mut devices, Some(&[]), &[], true);
    assert!(devices.is_empty());
}

#[test]
fn patterns_and_kinds_exclude_devices() {
    let mut devices = found();
    apply_filters(&mut devices, None, &["*2".to_string(), "MOUSE".to_string()], true);
    assert_eq!(names(&devices), vec!["Keyboard", "Media Keys"]);
    let mut devices = found();
    apply_filters(&mut devices, None, &[], false);
    assert_eq!(names(&devices), vec!["Mouse", "Keyboard", "Keyboard 2"]);
}

#[test]
fn a_report_becomes_one_batch() {
    let mut b = PendingBatch::default();
    assert!(!b.push(EV_REL, REL_X, 3, DeviceKind::Mouse));
    assert!(!b.push(EV_REL, REL_X, -5, DeviceKind::Mouse));
    assert!(!b.push(EV_REL, REL_Y, 7, DeviceKind::Mouse));
    assert!(!b.push(EV_KEY, BTN_LEFT, 1, DeviceKind::Mouse));
    assert!(!b.push(EV_REL, REL_WHEEL, -1, DeviceKind::Mouse));
    assert!(!b.push(EV_REL, REL_HWHEEL, 2, DeviceKind::Mouse));
    assert!(!b.push(4, 4, 99, DeviceKind::Mouse));
    assert!(!b.push(EV_SYN, 3, 0, DeviceKind::Mouse));
    assert!(!b.push(EV_REL, 5, 9, DeviceKind::Mouse));
    assert!(b.push(EV_SYN, 0, 0, DeviceKind::Mouse));
    assert_eq!(
        b.take(),
        vec![
            RawInputEvent::Button { code: BTN_LEFT, pressed: true },
            RawInputEvent::RelMotion { dx: -2, dy: 7 },
            RawInputEvent::Scroll { dx: 240, dy: -120, hi_res: false },
        ]
    );
    assert_eq!(b.take(), vec![]);
}

#[test]
fn high_resolution_scrolling_replaces_notches() {
    let mut b = PendingBatch::default();
    b.push(EV_REL, REL_WHEEL, 1, DeviceKind::Mouse);
    b.push(EV_REL, REL_HWHEEL, 1, DeviceKind::Mouse);
    b.push(EV_REL, REL_WHEEL_HI_RES, 30, DeviceKind::Mouse);
    assert_eq!(b.take(), vec![RawInputEvent::Scroll { dx: 0, dy: 30, hi_res: true }]);
    b.push(EV_REL, REL_WHEEL, 1, DeviceKind::Mouse);
    b.push(EV_REL, REL_HWHEEL_HI_RES, -15, DeviceKind::Mouse);
    assert_eq!(b.take(), vec![RawInputEvent::Scroll { dx: -15, dy: 120, hi_res: true }]);
}

#[test]
fn keys_are_keys_but_on_a_mouse() {
    for kind in [DeviceKind::Keyboard, DeviceKind::ConsumerControl] {
        let mut b = PendingBatch::default();
        assert_eq!(b.feed(EV_KEY, 30, 2, kind), Ok(None));
        assert_eq!(b.feed(EV_KEY, 30, 0, kind), Ok(None));
        assert_eq!(
            b.feed(EV_SYN, 0, 0, kind),
            Ok(Some(vec![
                RawInputEvent::Key { code: 30, pressed: true },
                RawInputEvent::Key { code: 30, pressed: false },
            ]))
        );
    }
}

#[test]
fn sums_without_room_are_noticed() {
    let mut b = PendingBatch::default();
    assert_eq!(b.feed(EV_REL, REL_X, i32::MAX, DeviceKind::Mouse), Ok(None));
    assert!(!b.can_push(EV_REL, REL_X, 1));
    assert!(b.can_push(EV_REL, REL_Y, 1));
    assert_eq!(b.feed(EV_REL, REL_X, 1, DeviceKind::Mouse), Err(()));
    assert_eq!(b.feed(EV_REL, REL_WHEEL, i32::MAX / 100, DeviceKind::Mouse), Ok(None));
    assert!(!b.can_take());
    assert_eq!(b.feed(EV_SYN, 0, 0, DeviceKind::Mouse), Err(()));
    assert_eq!(b.feed(EV_REL, REL_WHEEL_HI_RES, 1, DeviceKind::Mouse), Ok(None));
    assert!(b.can_take());
}

#[test]
fn a_grab_takes_all_devices_or_none() {
    let (mut grab, action) = Grab::begin(0, 2);
    assert_eq!(action, GrabAction::Open(0));
    assert_eq!(grab.step(true), GrabAction::Open(1));
    assert_eq!(grab.step(true), GrabAction::Start(0));
    assert_eq!(grab.step(true), GrabAction::Start(1));
    assert_eq!(grab.step(true), GrabAction::Done);
    let (mut grab, _) = Grab::begin(0, 3);
    assert_eq!(grab.step(true), GrabAction::Open(1));
    assert_eq!(grab.step(false), GrabAction::Ungrab(1));
    let (mut grab, _) = Grab::begin(0, 1);
    assert_eq!(grab.step(true), GrabAction::Start(0));
    assert_eq!(grab.step(false), GrabAction::Stop(0));
    assert_eq!(Grab::begin(1, 5).1, GrabAction::Done);
    assert_eq!(Grab::begin(0, 0).1, GrabAction::NoDevices);
}

#[test]
fn a_refusing_device_is_asked_five_times() {
    for attempt in 0..4 {
        assert_eq!(after_failed_attempt(attempt), GrabRetry::RetryAfter(GRAB_RETRY_DELAY));
    }
    assert_eq!(after_failed_attempt(4), GrabRetry::GiveUp);
    assert_eq!(GRAB_RETRY_DELAY, 20_000_000);
}

fn out(type_: u16, code: u16, value: i32) -> OutEvent {
    OutEvent { type_, code, value }
}

#[test]
fn events_are_replayed_exactly() {
    let at = Point::new(10, 20);
    let pointer = |events| Emission::Send { device: OutDevice::Pointer, events };
    assert_eq!(
        plan_emission(&InputEvent::Motion { x: 5, y: -6 }),
        pointer(vec![out(3, 0, 5), out(3, 1, -6)])
    );
    assert_eq!(
        plan_emission(&InputEvent::Button { code: 0x111, pressed: false, at }),
        pointer(vec![out(3, 0, 10), out(3, 1, 20), out(1, 0x111, 0)])
    );
    assert_eq!(
        plan_emission(&InputEvent::Key { code: 30, pressed: true }),
        Emission::Send { device: OutDevice::Keyboard, events: vec![out(1, 30, 1)] }
    );
    assert_eq!(
        plan_emission(&InputEvent::Scroll { dx: 1, dy: 2, hi_res: false }),
        pointer(vec![out(2, 6, 1), out(2, 8, 2)])
    );
    assert_eq!(
        plan_emission(&InputEvent::Scroll { dx: 1, dy: 2, hi_res: true }),
        pointer(vec![out(2, 12, 1), out(2, 11, 2)])
    );
    assert_eq!(
        plan_emission(&InputEvent::Scroll { dx: 0, dy: -3, hi_res: false }),
        pointer(vec![out(2, 8, -3)])
    );
    assert_eq!(
        plan_emission(&InputEvent::Scroll { dx: 0, dy: 0, hi_res: true }),
        Emission::Nothing
    );
    assert_eq!(
        plan_emission(&InputEvent::Enter { at }),
        pointer(vec![out(3, 0, 10), out(3, 1, 20)])
    );
    assert_eq!(plan_emission(&InputEvent::Leave), Emission::Nothing);
    assert_eq!(plan_emission(&InputEvent::ReleaseAll), Emission::ReleaseAll);
}

#[test]
fn what_is_held_is_let_go_of_once() {
    let at = Point::new(0, 0);
    let mut held = HeldInputs::default();
    held.note_emitted(&InputEvent::Key { code: 30, pressed: true }, true);
    held.note_emitted(&InputEvent::Key { code: 31, pressed: true }, true);
    held.note_emitted(&InputEvent::Key { code: 30, pressed: false }, true);
    held.note_emitted(&InputEvent::Key { code: 32, pressed: true }, true);
    held.note_emitted(&InputEvent::Button { code: 0x110, pressed: true, at }, true);
    held.note_emitted(&InputEvent::Motion { x: 1, y: 1 }, true);
    let mut keys = held.release_keys();
    keys.sort_by_key(|e| e.code);
    assert_eq!(keys, vec![out(1, 31, 0), out(1, 32, 0)]);
    assert_eq!(held.release_keys(), vec![]);
    assert_eq!(held.release_buttons(), vec![out(1, 0x110, 0)]);
    assert_eq!(held.release_buttons(), vec![]);
}

#[test]
fn what_did_not_arrive_is_not_held() {
    let at = Point::new(0, 0);
    let key = |code, pressed| InputEvent::Key { code, pressed };
    let button = InputEvent::Button { code: 0x110, pressed: true, at };
    let keys_up = Emission::Send { device: OutDevice::Keyboard, events: vec![out(1, 30, 0)] };
    let buttons_up = Emission::Send { device: OutDevice::Pointer, events: vec![out(1, 0x110, 0)] };
    let mut held = HeldInputs::default();
    assert_eq!(held.release_next(true), Emission::Nothing);
    held.note_emitted(&key(30, true), true);
    held.note_emitted(&key(31, true), false);
    held.note_emitted(&key(30, false), false);
    held.note_emitted(&button, true);
    assert_eq!(held.release_next(true), keys_up);
    assert_eq!(held.release_next(false), Emission::Nothing);
    assert_eq!(held.release_next(true), buttons_up);
    assert_eq!(held.release_next(true), Emission::Nothing);
}

#[test]
fn the_virtual_pointer_covers_the_screen() {
    let screen = DisplayGeometry { width: 1920, height: 0, refresh_mhz: 0, scale_pct: 0 };
    let setup = pointer_setup(screen);
    assert_eq!(setup.name, "smkb-virtual-pointer");
    assert_eq!(setup.buttons, (0x110..=0x117).collect::<Vec<u16>>());
    assert_eq!(setup.relative_axes, vec![8, 6, 11, 12]);
    assert_eq!((setup.max_x, setup.max_y), (1919, 0));
    assert_eq!(classify(&traits(setup.name, &setup.buttons, &[REL_X, REL_Y])), None);
}

#[test]
fn the_virtual_keyboard_has_keys_and_no_buttons() {
    let setup = keyboard_setup();
    assert_eq!(setup.name, "smkb-virtual-keyboard");
    assert_eq!(setup.keys[0], 1);
    assert!(setup.keys.contains(&KEY_A));
    assert!(setup.keys.contains(&KEY_SPACE));
    assert!(!setup.keys.contains(&BTN_LEFT));
    assert!(setup.keys.windows(2).all(|w| w[0] < w[1]));
    for code in 1..0x2ff {
        let named = format!("{:?}", evdev::KeyCode(code)).starts_with("KEY_");
        assert_eq!(setup.keys.contains(&code), named);
        assert_eq!(is_keyboard_key(code), named);
    }
    assert_eq!(keyboard_keys(29, 31), vec![29, 30]);
    assert!(is_keyboard_name("KEY_A"));
    assert!(!is_keyboard_name("BTN_LEFT"));
    assert!(!is_keyboard_name("unknown key: 700"));
}

#[test]
fn platform_errors_have_words() {
    assert_eq!(
        PlatformError::NoBackend.describe(),
        "no supported compositor/window manager detected (checked: Hyprland)"
    );
    assert_eq!(PlatformError::Io("x".to_string()).describe(), "input device error: x");
    assert_eq!(PlatformError::Hyprland("y".to_string()).describe(), "Hyprland IPC error: y");
    assert_eq!(
        PlatformError::NoDevices.describe(),
        "no usable input devices found (mouse + keyboard required)"
    );
}
