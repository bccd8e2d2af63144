use smkb::event::{DisplayGeometry, Point};
use smkb::hyprland::{
    check_ok, control_socket_path, find_entry, json_request, monitor_from_fields,
    monitors_from_json, move_cursor_request, parse_position, primary_monitor, read_json,
    real_monitor_from_json, screen_geometry, set_visible_request, HyprlandCursor, MonitorFields,
};
use smkb::platform::{PlatformError, RealMonitor};

fn words(text: &str) -> PlatformError {
    PlatformError::Hyprland(text.to_string())
}

fn monitor(name: &str, focused: bool) -> RealMonitor {
    RealMonitor { name: name.to_string(), x: 0, y: 0, width: 10, height: 10, focused }
}

#[test]
fn the_socket_lies_below_the_runtime_directory() {
    assert_eq!(
        control_socket_path(Some("/run/user/1000"), Some("abc")),
        Ok("/run/user/1000/hypr/abc/.socket.sock".to_string())
    );
    assert_eq!(
        control_socket_path(Some("/run/"), Some("/abs")),
        Ok("/abs/.socket.sock".to_string())
    );
    assert_eq!(control_socket_path(None, None), Err(words("XDG_RUNTIME_DIR is not set")));
    assert_eq!(
        control_socket_path(Some("/run"), None),
        Err(words("HYPRLAND_INSTANCE_SIGNATURE is not set (Hyprland not running?)"))
    );
}

#[test]
fn requests_have_exact_texts() {
    assert_eq!(json_request("monitors"), "j/monitors");
    assert_eq!(move_cursor_request(Point::new(-5, 1080)), "dispatch movecursor -5 1080");
    assert_eq!(
        move_cursor_request(Point::new(i32::MIN, i32::MAX)),
        "dispatch movecursor -2147483648 2147483647"
    );
    assert_eq!(set_visible_request(true), "keyword cursor:invisible false");
    assert_eq!(set_visible_request(false), "keyword cursor:invisible true");
    assert_eq!(HyprlandCursor::new(), HyprlandCursor::default());
}

#[test]
fn commands_succeed_with_ok() {
    assert_eq!(check_ok("cmd", "ok"), Ok(()));
    assert_eq!(check_ok("cmd", " ok\n"), Ok(()));
    assert_eq!(check_ok("cmd", "OK"), Err(words("`cmd` failed: OK")));
    assert_eq!(check_ok("cmd", ""), Err(words("`cmd` failed: ")));
}

#[test]
fn positions_are_read_with_white_space() {
    assert_eq!(parse_position("100, 200"), Ok(Point::new(100, 200)));
    assert_eq!(parse_position("\n -1 ,+7\u{a0}\u{3000}"), Ok(Point::new(-1, 7)));
    assert_eq!(parse_position("-2147483648,2147483647"), Ok(Point::new(i32::MIN, i32::MAX)));
    assert_eq!(parse_position("0007,-0"), Ok(Point::new(7, 0)));
}

#[test]
fn bad_positions_are_told_apart() {
    assert_eq!(parse_position("12"), Err(words("unexpected `cursorpos` response: 12")));
    assert_eq!(
        parse_position(",1"),
        Err(words("parsing cursorpos `,1`: cannot parse integer from empty string"))
    );
    assert_eq!(
        parse_position("1,2,3"),
        Err(words("parsing cursorpos `1,2,3`: invalid digit found in string"))
    );
    assert_eq!(
        parse_position("-,1"),
        Err(words("parsing cursorpos `-,1`: invalid digit found in string"))
    );
    assert_eq!(
        parse_position("2147483648,x"),
        Err(words("parsing cursorpos `2147483648,x`: number too large to fit in target type"))
    );
    assert_eq!(
        parse_position("1,-2147483649"),
        Err(words("parsing cursorpos `1,-2147483649`: number too small to fit in target type"))
    );
}

#[test]
fn numbers_are_read_as_the_standard_library_reads_them() {
    let texts = [
        "0", "-0", "+5", "++5", "--5", "", "+", "-", "99999999999999999999x", "9999999999x",
        "x99", "2147483647", "2147483648", "-2147483648", "-2147483649", "1 2", "٣", "1_000",
    ];
    for t in texts {
        let ours = parse_position(&format!("0,x{}", t).replace(",x", ","));
        match t.trim().parse::<i32>() {
            Ok(n) => assert_eq!(ours, Ok(Point::new(0, n))),
            Err(e) => {
                assert_eq!(ours, Err(words(&format!("parsing cursorpos `0,{}`: {}", t, e))))
            }
        }
    }
}

#[test]
fn written_positions_are_read_back() {
    for (x, y) in [(0, 0), (-17, 4), (i32::MIN, i32::MAX), (1920, 1080), (10, -100)] {
        assert_eq!(parse_position(&format!("{}, {}", x, y)), Ok(Point::new(x, y)));
    }
}

const TWO: &str = r#"[
    {"name": "DP-1", "x": 0, "y": -10, "width": 2560, "height": 1440, "focused": false,
     "refreshRate": 143.9, "scale": 1.25},
    {"name": "HDMI-A-1", "x": 2560, "y": 4294967297, "width": 4294967298, "height": 1,
     "focused": true}
]"#;

#[test]
fn monitors_are_read_from_json() {
    let json = read_json("monitors", TWO).unwrap();
    let monitors = monitors_from_json(&json).unwrap();
    assert_eq!(
        monitors,
        vec![
            RealMonitor {
                name: "DP-1".to_string(),
                x: 0,
                y: -10,
                width: 2560,
                height: 1440,
                focused: false,
            },
            RealMonitor {
                name: "HDMI-A-1".to_string(),
                x: 2560,
                y: 1,
                width: 2,
                height: 1,
                focused: true,
            },
        ]
    );
    assert_eq!(primary_monitor(&monitors), Ok(1));
    let entry = find_entry(&json, "DP-1").unwrap();
    assert_eq!(entry.get("scale").and_then(|v| v.as_f64()), Some(1.25));
    assert_eq!(
        find_entry(&json, "DP-2").err(),
        Some(words("monitor DP-2 vanished between queries"))
    );
}

#[test]
fn answers_that_are_no_list_are_refused() {
    let json = read_json("monitors", "{}").unwrap();
    let expected = words("`monitors` response was not a JSON array");
    assert_eq!(monitors_from_json(&json), Err(expected.clone()));
    assert_eq!(find_entry(&json, "x").err(), Some(expected));
    let error = serde_json::from_str::<serde_json::Value>("{").unwrap_err();
    assert_eq!(
        read_json("monitors", "{").err(),
        Some(words(&format!(
            "parsing JSON response to `monitors`: {} (raw: {{)",
            error
        )))
    );
}

#[test]
fn the_first_missing_field_is_named() {
    let fields = ["name", "x", "y", "width", "height"];
    for missing in fields {
        let mut value: serde_json::Value =
            serde_json::from_str(r#"{"name":"a","x":1,"y":2,"width":3,"height":4}"#).unwrap();
        value.as_object_mut().unwrap().remove(missing);
        assert_eq!(
            real_monitor_from_json(&value),
            Err(words(&format!(
                "monitor JSON missing/wrong-typed field `{}`: {}",
                missing, value
            )))
        );
    }
    let list = r#"[{"name":"a","x":1,"y":2,"width":3,"height":4},{"name":1},{}]"#;
    let json = read_json("monitors", list).unwrap();
    assert_eq!(
        monitors_from_json(&json),
        Err(words("monitor JSON missing/wrong-typed field `name`: {\"name\":1}"))
    );
}

#[test]
fn wrong_types_count_as_missing() {
    for (field, value) in [
        ("x", "1.5"),
        ("x", "18446744073709551615"),
        ("y", "\"2\""),
        ("width", "-3"),
        ("height", "null"),
        ("name", "[]"),
    ] {
        let mut json: serde_json::Value =
            serde_json::from_str(r#"{"name":"a","x":1,"y":2,"width":3,"height":4}"#).unwrap();
        let value: serde_json::Value = serde_json::from_str(value).unwrap();
        json.as_object_mut().unwrap().insert(field.to_string(), value);
        assert!(real_monitor_from_json(&json).is_err(), "{}", field);
    }
}

#[test]
fn fields_become_a_monitor() {
    let full = MonitorFields {
        name: Some("m".to_string()),
        x: Some(-1),
        y: Some(i64::MIN),
        width: Some(u64::MAX),
        height: Some(7),
        focused: None,
    };
    assert_eq!(
        monitor_from_fields(full.clone(), "shown"),
        Ok(RealMonitor {
            name: "m".to_string(),
            x: -1,
            y: 0,
            width: u32::MAX,
            height: 7,
            focused: false,
        })
    );
    let none = MonitorFields { height: None, ..full };
    assert_eq!(
        monitor_from_fields(none, "shown"),
        Err(words("monitor JSON missing/wrong-typed field `height`: shown"))
    );
}

#[test]
fn the_focused_monitor_is_the_primary_one() {
    assert_eq!(primary_monitor(&[]), Err(words("no monitors reported")));
    assert_eq!(primary_monitor(&[monitor("a", false), monitor("b", false)]), Ok(0));
    assert_eq!(
        primary_monitor(&[monitor("a", false), monitor("b", true), monitor("c", true)]),
        Ok(1)
    );
}

#[test]
fn a_screen_that_tells_no_rates_gets_usual_ones() {
    let m = RealMonitor {
        name: "DP-1".to_string(),
        x: 5,
        y: 6,
        width: 2560,
        height: 1440,
        focused: true,
    };
    assert_eq!(
        screen_geometry(&m, None, None),
        DisplayGeometry { width: 2560, height: 1440, refresh_mhz: 60_000, scale_pct: 100 }
    );
    assert_eq!(
        screen_geometry(&m, Some(143_912), Some(150)),
        DisplayGeometry { width: 2560, height: 1440, refresh_mhz: 143_912, scale_pct: 150 }
    );
}
