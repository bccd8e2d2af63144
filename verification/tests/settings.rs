use smkb::args::{parse_args, Args};
use smkb::config::{
    collect_codes, default_panic_hotkey, default_poll_ms, default_true, default_watchdog_ms,
    AutoOr, CaptureConfig, Config, DiscoveryConfig, EdgeConfig, Repr, SafetyConfig,
};
use smkb::discovery::{local_hostname, service_hostname, SERVICE_TYPE};
use smkb::event::Edge;
use smkb::paths::{expand_tilde, join, same_path};
use smkb::safety::{millis, PanicHotkey, Watchdog};
use smkb::slave_config::{self, default_interval_ms, MasterAddr, ReconnectConfig};
use smkb::text::{append_decimal, append_signed, same_text, starts_with, trim};
use std::path::{Path, PathBuf};

fn texts(list: &[&str]) -> Vec<String> {
    list.iter().map(|s| s.to_string()).collect()
}

fn config(hotkey: &[&str]) -> Config {
    Config {
        listen: "0.0.0.0:24800".to_string(),
        psk_file: "~/.config/smkb/psk".to_string(),
        discovery: DiscoveryConfig::default(),
        edge: EdgeConfig { monitor: "DP-1".to_string(), side: Edge::Right, poll_ms: 8 },
        capture: CaptureConfig::default(),
        safety: SafetyConfig { panic_hotkey: texts(hotkey), watchdog_ms: 1000 },
    }
}

#[test]
fn settings_have_defaults() {
    assert!(DiscoveryConfig::default().mdns);
    assert_eq!(default_poll_ms(), 8);
    assert_eq!(default_watchdog_ms(), 1000);
    assert_eq!(default_interval_ms(), 500);
    assert!(default_true());
    assert_eq!(default_panic_hotkey(), texts(&["KEY_LEFTCTRL", "KEY_LEFTALT", "KEY_ESC"]));
    let safety = SafetyConfig::default();
    assert_eq!(safety.panic_hotkey, default_panic_hotkey());
    assert_eq!(safety.watchdog_ms, 1000);
    let capture = CaptureConfig::default();
    assert!(matches!(capture.devices, AutoOr::Auto));
    assert!(capture.exclude.is_empty());
    assert!(!capture.include_consumer_control);
    assert_eq!(ReconnectConfig::default().interval_ms, 500);
}

#[test]
fn auto_is_the_only_text_for_a_setting() {
    assert!(matches!(AutoOr::<u8>::from_repr(Repr::Str("auto".to_string())), Ok(AutoOr::Auto)));
    assert_eq!(AutoOr::<u8>::from_repr(Repr::Str("Auto".to_string())).err(), Some("Auto".to_string()));
    assert!(matches!(AutoOr::from_repr(Repr::Val(3u8)), Ok(AutoOr::Fixed(3))));
    assert!(matches!(AutoOr::<u8>::default(), AutoOr::Auto));
    assert!(matches!(MasterAddr::from_text("auto".to_string()), MasterAddr::Auto));
    assert!(matches!(
        MasterAddr::from_text("host:1".to_string()),
        MasterAddr::Explicit(s) if s == "host:1"
    ));
}

#[test]
fn hotkey_names_become_codes() {
    assert_eq!(
        config(&["KEY_LEFTCTRL", "KEY_LEFTALT", "KEY_ESC"]).panic_hotkey_codes(),
        Ok(vec![29, 56, 1])
    );
    assert_eq!(config(&[]).panic_hotkey_codes(), Ok(vec![]));
    assert_eq!(
        config(&["KEY_A", "KEY_NONE", "nonsense"]).panic_hotkey_codes(),
        Err("KEY_NONE".to_string())
    );
    assert_eq!(config(&["BTN_LEFT"]).panic_hotkey_codes(), Ok(vec![0x110]));
    assert_eq!(
        collect_codes(&texts(&["a", "b"]), &[Some(4), Some(5)]),
        Ok(vec![4, 5])
    );
    assert_eq!(
        collect_codes(&texts(&["a", "b", "c"]), &[Some(4), None, None]),
        Err("b".to_string())
    );
}

#[test]
fn the_tilde_stands_for_the_home_directory() {
    assert_eq!(expand_tilde("~/x/y", Some("/home/me")), "/home/me/x/y");
    assert_eq!(expand_tilde("~//x", Some("/home/me/")), "/home/me/x");
    assert_eq!(expand_tilde("~", Some("/home/me")), "/home/me/");
    assert_eq!(expand_tilde("~x", None), "/x");
    assert_eq!(expand_tilde("/a/~", Some("/home/me")), "/a/~");
    assert_eq!(expand_tilde("", Some("/home/me")), "");
    assert_eq!(config(&[]).psk_path(Some("/root")), "/root/.config/smkb/psk");
    let slave = slave_config::Config {
        master: MasterAddr::Auto,
        psk_file: "psk".to_string(),
        reconnect: ReconnectConfig::default(),
    };
    assert_eq!(slave.psk_path(None), "psk");
}

#[test]
fn paths_join_and_compare_as_in_the_standard_library() {
    let bases = ["", "/", "a", "a/", "/a/b", "/a//"];
    let paths = ["", "b", "/b", "b/", "./b", "b/../c"];
    for base in bases {
        for path in paths {
            let expected = PathBuf::from(base).join(path);
            assert_eq!(PathBuf::from(join(base, path)).as_os_str(), expected.as_os_str());
        }
    }
    let all = [
        "", "/", ".", "./", "a", "a/", "./a", "a/.", "a//b", "a/b", "a/./b", "/a/b", "/./a/b",
        "//a/b/", "a/../b", "..", "./.", "././a", "a/b/.", "/.",
    ];
    for x in all {
        for y in all {
            assert_eq!(same_path(x, y), Path::new(x) == Path::new(y), "{:?} {:?}", x, y);
        }
    }
}

#[test]
fn the_command_line_is_read_in_order() {
    let run = |config: Option<&str>| Args::Run { config: config.map(|s| s.to_string()) };
    assert_eq!(parse_args(&[]), run(None));
    assert_eq!(parse_args(&texts(&["--config", "a"])), run(Some("a")));
    assert_eq!(parse_args(&texts(&["--config", "a", "--config", "--help"])), run(Some("--help")));
    assert_eq!(parse_args(&texts(&["--config"])), Args::MissingPath);
    assert_eq!(parse_args(&texts(&["-h", "--config"])), Args::Help);
    assert_eq!(parse_args(&texts(&["--config", "a", "--help"])), Args::Help);
    assert_eq!(parse_args(&texts(&["x", "--help"])), Args::Unknown("x".to_string()));
}

#[test]
fn names_of_machines_are_trimmed() {
    assert_eq!(local_hostname(Some("box\n"), "smkb-slave"), "box");
    assert_eq!(local_hostname(None, "smkb-slave"), "smkb-slave");
    assert_eq!(service_hostname("box"), "box.local.");
    assert_eq!(SERVICE_TYPE, "_smkb._udp.local.");
}

#[test]
fn trimming_is_that_of_the_standard_library() {
    let mut odd = String::new();
    for n in 0..0x3100u32 {
        if let Some(c) = char::from_u32(n) {
            let s = format!("{}x{}", c, c);
            assert_eq!(trim(&s), s.trim(), "{:x}", n);
            odd.push(c);
        }
    }
    assert_eq!(trim(&odd), odd.trim());
    assert_eq!(trim(trim("  a b \u{2028}")), "a b");
    assert_eq!(trim(" \t "), "");
}

#[test]
fn numbers_are_written_in_decimal() {
    for n in [0u64, 9, 10, 99, 100, 1_234_567_890, u64::MAX] {
        let mut s = String::from("n");
        append_decimal(&mut s, n);
        assert_eq!(s, format!("n{}", n));
    }
    for n in [0, -1, 7, i32::MIN, i32::MAX] {
        let mut s = String::new();
        append_signed(&mut s, n);
        assert_eq!(s, n.to_string());
    }
    assert!(same_text("é", "é") && !same_text("a", "ab"));
    assert!(starts_with("KEY_A", "KEY_") && !starts_with("KEY", "KEY_"));
}

#[test]
fn the_hotkey_triggers_on_its_last_key() {
    let mut hotkey = PanicHotkey::new(vec![29, 56, 1]);
    assert!(!hotkey.observe(1, true));
    assert!(!hotkey.observe(29, true));
    assert!(!hotkey.observe(30, true));
    assert!(hotkey.observe(56, true));
    assert!(hotkey.observe(56, true));
    assert!(!hotkey.observe(29, false));
    assert!(!hotkey.observe(30, true));
    assert!(hotkey.observe(29, true));
    hotkey.reset();
    assert!(!hotkey.observe(29, true));
    let mut none = PanicHotkey::new(vec![]);
    assert!(!none.observe(1, true));
}

#[test]
fn the_watchdog_waits_for_its_timeout() {
    let mut dog = Watchdog::new(millis(5), 100);
    assert!(!dog.expired(5_000_100));
    assert!(dog.expired(5_000_101));
    dog.poke(5_000_101);
    assert!(!dog.expired(5_000_101));
    assert!(!dog.expired(7));
    assert!(dog.expired(10_000_102));
    assert_eq!(millis(u64::MAX), u64::MAX);
    assert_eq!(millis(u64::MAX / 1_000_000), u64::MAX / 1_000_000 * 1_000_000);
}
