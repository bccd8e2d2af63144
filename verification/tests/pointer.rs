use smkb::event::{DisplayGeometry, Edge, Point};
use smkb::platform::RealMonitor;
use smkb::pointer::{
    at_trigger_edge, can_enter, can_exit, can_test_edge, cast_i32, crossed_edge, entry_point,
    exit_point,
};
use smkb::scale::scale_position;

fn monitor(x: i32, y: i32, width: u32, height: u32) -> RealMonitor {
    RealMonitor { name: "DP-1".to_string(), x, y, width, height, focused: true }
}

fn screen(width: u32, height: u32) -> DisplayGeometry {
    DisplayGeometry { width, height, refresh_mhz: 60_000, scale_pct: 100 }
}

fn frac(value: i32, origin: i32, span: u32) -> f64 {
    ((value - origin) as f64 / span.max(1) as f64).clamp(0.0, 1.0)
}

#[test]
fn scaling_is_that_of_doubles() {
    let spans = [1u32, 2, 3, 7, 100, 719, 1079, 1439, 2159, 4319, 65_535, 1_000_003, u32::MAX];
    let maxes = [0u32, 1, 2, 5, 767, 1079, 2159, 0x7fff_fffe, 0x7fff_ffff, u32::MAX];
    for span in spans {
        for max in maxes {
            let mut values = vec![i32::MIN, -1, 0, 1, 2, 3, 5, 17, 333, 540, 1078, 1079, i32::MAX];
            for k in 0..40u32 {
                values.push(((span as u64 * k as u64 / 40) as u32 & 0x7fff_ffff) as i32);
            }
            for a in values {
                let expected = (frac(a, 0, span) * max as f64).round() as u64;
                assert_eq!(scale_position(a, span, max) as u64, expected, "{} {} {}", a, span, max);
            }
        }
    }
}

#[test]
fn every_row_of_common_monitors_scales_exactly() {
    for span in [767u32, 1079, 1199, 1439, 2159] {
        for max in [719u32, 767, 1079, 1439, 1599, 2159] {
            for a in 0..=span as i32 {
                let expected = (frac(a, 0, span) * max as f64).round() as u32;
                assert_eq!(scale_position(a, span, max), expected);
            }
        }
    }
}

#[test]
fn scaling_keeps_ends_and_comes_back() {
    assert_eq!(scale_position(0, 1079, 1439), 0);
    assert_eq!(scale_position(1079, 1079, 1439), 1439);
    assert_eq!(scale_position(540, 1079, 1439), 720);
    for a in 0..=1079 {
        let there = scale_position(a, 1079, 1439);
        let back = scale_position(there as i32, 1439, 1079) as i32;
        assert!((back - a).abs() <= 1);
    }
}

#[test]
fn edges_are_touched_on_their_last_column_or_row() {
    let m = monitor(1920, -100, 1280, 800);
    let at = |x, y, side| at_trigger_edge(Point::new(x, y), &m, side);
    assert!(at(3199, 0, Edge::Right));
    assert!(at(4000, 0, Edge::Right));
    assert!(!at(3198, 0, Edge::Right));
    assert!(!at(3199, 700, Edge::Right));
    assert!(!at(3199, -101, Edge::Right));
    assert!(at(1920, 699, Edge::Left));
    assert!(at(0, -100, Edge::Left));
    assert!(!at(1921, 0, Edge::Left));
    assert!(at(2000, 699, Edge::Bottom));
    assert!(!at(2000, 698, Edge::Bottom));
    assert!(!at(1919, 699, Edge::Bottom));
    assert!(at(3199, -100, Edge::Top));
    assert!(!at(3200, -100, Edge::Top));
    assert!(!at(2000, -99, Edge::Top));
}

#[test]
fn entry_points_have_exact_values() {
    let m = monitor(0, 0, 1920, 1080);
    let s = screen(2560, 1440);
    let enter = |x, y, side| entry_point(Point::new(x, y), &m, side, s);
    assert_eq!(enter(1919, 540, Edge::Right), Point::new(2, 720));
    assert_eq!(enter(0, 1079, Edge::Left), Point::new(2557, 1439));
    assert_eq!(enter(960, 1079, Edge::Bottom), Point::new(1280, 2));
    assert_eq!(enter(0, 0, Edge::Top), Point::new(0, 1437));
    assert_eq!(enter(1919, -50, Edge::Right), Point::new(2, 0));
    assert_eq!(enter(1919, 5000, Edge::Right), Point::new(2, 1439));
}

#[test]
fn exit_points_have_exact_values() {
    let m = monitor(100, 200, 1920, 1080);
    let s = screen(2560, 1440);
    let exit = |x, y, side| exit_point(Point::new(x, y), &m, side, s);
    assert_eq!(exit(0, 720, Edge::Right), Point::new(2018, 740));
    assert_eq!(exit(2559, 0, Edge::Left), Point::new(102, 200));
    assert_eq!(exit(1280, 0, Edge::Bottom), Point::new(1060, 1278));
    assert_eq!(exit(2559, 1439, Edge::Top), Point::new(2019, 202));
}

#[test]
fn entry_and_exit_agree_with_doubles() {
    let m = monitor(-77, 13, 1366, 768);
    let s = screen(3440, 1441);
    for v in (-100..1500).step_by(7) {
        let p = Point::new(v, v);
        let fy = frac(v, m.y, m.height - 1);
        let fx = frac(v, m.x, m.width - 1);
        let y = (fy * 1440f64).round() as i32;
        let x = (fx * 3439f64).round() as i32;
        assert_eq!(entry_point(p, &m, Edge::Right, s), Point::new(2, y));
        assert_eq!(entry_point(p, &m, Edge::Left, s), Point::new(3437, y));
        assert_eq!(entry_point(p, &m, Edge::Bottom, s), Point::new(x, 2));
        assert_eq!(entry_point(p, &m, Edge::Top, s), Point::new(x, 1438));
        let y = m.y + (frac(v, 0, 1440) * 767f64).round() as i32;
        let x = m.x + (frac(v, 0, 3439) * 1365f64).round() as i32;
        assert_eq!(exit_point(p, &m, Edge::Right, s), Point::new(-77 + 1364, y));
        assert_eq!(exit_point(p, &m, Edge::Left, s), Point::new(-75, y));
        assert_eq!(exit_point(p, &m, Edge::Bottom, s), Point::new(x, 13 + 766));
        assert_eq!(exit_point(p, &m, Edge::Top, s), Point::new(x, 15));
    }
}

#[test]
fn huge_screens_run_downwards() {
    let m = monitor(0, 0, 1920, 1080);
    let s = screen(100, u32::MAX);
    let max_y = cast_i32(u32::MAX - 1);
    assert_eq!(max_y, -2);
    let p = entry_point(Point::new(1919, 1079), &m, Edge::Right, s);
    assert_eq!(p, Point::new(2, -2));
    let p = entry_point(Point::new(1919, 540), &m, Edge::Right, s);
    assert_eq!(p, Point::new(2, (frac(540, 0, 1079) * -2f64).round() as i32));
}

#[test]
fn one_pixel_scales_are_one_long() {
    let m = monitor(0, 0, 1, 1);
    let s = screen(1, 1);
    assert_eq!(entry_point(Point::new(0, 0), &m, Edge::Right, s), Point::new(2, 0));
    assert_eq!(exit_point(Point::new(0, 0), &m, Edge::Left, s), Point::new(2, 0));
    let none = monitor(0, 0, 0, 0);
    assert_eq!(entry_point(Point::new(0, 5), &none, Edge::Right, screen(0, 0)), Point::new(2, 0));
}

#[test]
fn coming_back_never_crosses_again() {
    let m = monitor(0, 0, 1920, 1080);
    let s = screen(2560, 1440);
    for side in [Edge::Left, Edge::Right, Edge::Top, Edge::Bottom] {
        for v in (0..2560).step_by(99) {
            let p = exit_point(Point::new(v, v), &m, side, s);
            assert!(!at_trigger_edge(p, &m, side));
            assert!(p.x >= 0 && p.x < 1920 && p.y >= 0 && p.y < 1080);
            let q = entry_point(p, &m, side, s);
            assert!(q.x >= 0 && q.x < 2560 && q.y >= 0 && q.y < 1440);
        }
    }
}

#[test]
fn impossible_coordinates_are_noticed() {
    let far = monitor(i32::MAX, 0, 10, 10);
    assert!(!can_test_edge(Point::new(i32::MAX, 0), &far, Edge::Left));
    assert!(can_test_edge(Point::new(0, 20), &far, Edge::Right));
    assert!(!can_test_edge(Point::new(0, 0), &far, Edge::Right));
    assert!(can_test_edge(Point::new(0, 0), &monitor(0, 0, 10, 10), Edge::Right));
    assert!(!can_enter(Point::new(0, i32::MAX), &monitor(0, -1, 1, 1), Edge::Right, screen(9, 9)));
    assert!(can_enter(Point::new(0, 0), &monitor(0, 0, 1, 1), Edge::Left, screen(9, 9)));
    assert!(!can_enter(
        Point::new(0, 0),
        &monitor(0, 0, 1, 1),
        Edge::Left,
        screen(0x8000_0001, 9)
    ));
    assert!(!can_exit(Point::new(0, 0), &far, Edge::Right, screen(9, 9)));
    assert!(can_exit(Point::new(0, 0), &monitor(0, 0, 9, 9), Edge::Right, screen(9, 9)));
}

#[test]
fn corners_go_to_the_longer_way() {
    let (x, y) = (Some(Edge::Left), Some(Edge::Bottom));
    assert_eq!(crossed_edge(x, y, true), Some(Edge::Left));
    assert_eq!(crossed_edge(x, y, false), Some(Edge::Bottom));
    assert_eq!(crossed_edge(x, None, false), Some(Edge::Left));
    assert_eq!(crossed_edge(None, y, true), Some(Edge::Bottom));
    assert_eq!(crossed_edge(None, None, true), None);
}

#[test]
fn crossing_and_coming_back_keeps_the_place() {
    let s = screen(2560, 1440);
    for m in [monitor(-100, 50, 1920, 1080), monitor(3, -7, 2560, 1440), monitor(0, 0, 1, 1)] {
        for i in 0..m.height as i32 {
            for side in [Edge::Left, Edge::Right] {
                let p = Point::new(m.x, m.y + i);
                let back = exit_point(entry_point(p, &m, side, s), &m, side, s);
                assert_eq!(back.y, p.y);
            }
        }
        for i in 0..m.width as i32 {
            for side in [Edge::Top, Edge::Bottom] {
                let p = Point::new(m.x + i, m.y);
                let back = exit_point(entry_point(p, &m, side, s), &m, side, s);
                assert_eq!(back.x, p.x);
            }
        }
    }
    let small = screen(1280, 720);
    let m = monitor(0, 0, 1920, 1080);
    let e = entry_point(Point::new(1919, 1), &m, Edge::Right, small);
    assert_eq!(exit_point(e, &m, Edge::Right, small).y, 2);
}
