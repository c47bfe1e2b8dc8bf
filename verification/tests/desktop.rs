//! Monitors, the clipboard, notices.

use desk_agent::desktop::{
    can_count, clipboard_fits, clipboard_text, clipped, ended_notice, layout, sort_monitors, started_notice,
    Monitor, CLIPBOARD_MAX,
};
use desk_agent::input::Rect;

fn at(name: &str, x: i32, y: i32, width: i32, height: i32) -> Monitor {
    Monitor { name: name.into(), x, y, width, height }
}

#[test]
fn layout_of_two_side_by_side() {
    let m = |name: &str, x| Monitor { name: name.into(), x, y: 0, width: 1920, height: 1080 };
    assert_eq!(
        layout(&[m("A", 0), m("B", 1920)]),
        Rect { x: 0, y: 0, w: 3840, h: 1080 }
    );
}

#[test]
fn layout_of_none_and_of_scattered() {
    assert_eq!(layout(&[]), Rect { x: 0, y: 0, w: 1920, h: 1080 });
    assert_eq!(
        layout(&[at("A", -100, 50, 200, 100), at("B", 0, -300, 50, 1000)]),
        Rect { x: -100, y: -300, w: 200, h: 1000 }
    );
    assert!(can_count(&[at("A", -100, 50, 200, 100), at("B", 0, -300, 50, 1000)]));
    assert!(!can_count(&[at("A", i32::MAX, 0, 1, 1)]));
    assert!(!can_count(&[at("A", i32::MIN, 0, 1, 1), at("B", 10, 0, 1, 1)]));
    assert_eq!(at("A", 1, 2, 3, 4).rect(), Rect { x: 1, y: 2, w: 3, h: 4 });
}

#[test]
fn monitors_are_sorted_by_corner_and_stay_in_order() {
    let sorted = sort_monitors(vec![
        at("D", 5, 9, 1, 1),
        at("B", 0, 7, 1, 1),
        at("C", 5, 0, 1, 1),
        at("A", -3, 9, 1, 1),
        at("B2", 0, 7, 2, 2),
    ]);
    let names: Vec<&str> = sorted.iter().map(|m| m.name.as_str()).collect();
    assert_eq!(names, ["A", "B", "B2", "C", "D"]);
}

#[test]
fn clipboards_are_cut_between_characters() {
    assert_eq!(clipped("héllo"), "héllo");
    let long = "é".repeat(CLIPBOARD_MAX / 2);
    assert_eq!(clipped(&long), long);
    let odd = format!("a{long}");
    let cut = clipped(&odd);
    assert_eq!(cut.len(), CLIPBOARD_MAX - 1);
    assert!(odd.starts_with(&cut));
    assert!(clipboard_fits(&long));
    assert!(!clipboard_fits(&odd));
    assert_eq!(clipped("a\u{20ac}\u{1f600}"), "a\u{20ac}\u{1f600}");
}

#[test]
fn what_is_no_text_is_marked() {
    assert_eq!(clipboard_text(b"a\xffb"), "a\u{fffd}b");
    assert_eq!(clipboard_text("\u{20ac}".as_bytes()), "\u{20ac}");
}

#[test]
fn notices_name_the_host() {
    assert_eq!(
        started_notice("desk.example.com"),
        (
            "Remote session started",
            "Someone is viewing and controlling this PC via desk.example.com".to_string()
        )
    );
    assert_eq!(
        ended_notice("desk.example.com"),
        ("Remote session ended", "desk.example.com viewer disconnected".to_string())
    );
}

#[test]
fn far_edges_are_counted_where_the_box_can_be() {
    // The edges lie further before an origin than a number holds, but no box is made of that.
    let far = [at("A", 2_000_000_000, 0, -2_000_000_000, 1), at("B", 0, 0, -1_000_000_000, 1)];
    assert!(can_count(&far));
    assert_eq!(layout(&far), Rect { x: 0, y: 0, w: 0, h: 1 });
}

#[test]
fn the_box_rests_on_the_areas_alone() {
    let (a, b) = (at("A", -5, 3, 10, 10), at("B", 20, -4, 7, 9));
    let r = layout(&[a.clone(), b.clone()]);
    assert_eq!(r, Rect { x: -5, y: -4, w: 32, h: 17 });
    assert_eq!(layout(&[at("C", 20, -4, 7, 9), a.clone(), b.clone(), a.clone()]), r);
    assert_eq!(layout(&[a, b, at("D", 0, 0, 1, 1)]), r);
}
