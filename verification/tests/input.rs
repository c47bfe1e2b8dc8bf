//! Remote input: keys, buttons, the wheel and the pointer.

use desk_agent::input::{
    device_for, keyboard_device, place_point, placeable, pointer_device, Action, Device, Event,
    Injector, InputMsg, Rect, ABS_X, ABS_Y, BTN_LEFT, BTN_MIDDLE, BTN_RIGHT, EV_ABS, EV_KEY, EV_REL, REL_HWHEEL, REL_WHEEL,
};
use desk_agent::keys::{keycode, keymap};
use evdev::{AbsoluteAxisCode, EventType, KeyCode, RelativeAxisCode};
use std::collections::HashSet;

const LAYOUT: Rect = Rect { x: 0, y: 0, w: 3840, h: 1080 };
const RIGHT: Rect = Rect { x: 1920, y: 0, w: 1920, h: 1080 };

fn map_point(layout: Rect, monitor: Rect, nx: f64, ny: f64) -> (i32, i32) {
    let share = |n: f64, size: i32| {
        let n = if n.is_finite() { n.clamp(0.0, 1.0) } else { 0.0 };
        (n * (size - 1) as f64).round() as i32
    };
    place_point(layout, monitor, share(nx, monitor.w), share(ny, monitor.h))
}

#[test]
fn maps_into_selected_monitor() {
    assert_eq!(map_point(LAYOUT, RIGHT, 0.0, 0.0), (1920, 0));
    assert_eq!(map_point(LAYOUT, RIGHT, 1.0, 1.0), (3839, 1079));
    assert_eq!(map_point(LAYOUT, RIGHT, 0.5, 0.5), (2880, 540));
    assert_eq!(map_point(LAYOUT, RIGHT, -3.0, f64::NAN), (1920, 0));
}

#[test]
fn points_stay_on_the_axes() {
    let off = Rect { x: -500, y: 5000, w: 100, h: 100 };
    assert_eq!(place_point(LAYOUT, off, 99, 99), (0, 1079));
    assert!(placeable(LAYOUT, off, 99, 99));
    assert!(!placeable(Rect { x: 0, y: 0, w: 0, h: 1 }, off, 0, 0));
    assert!(!placeable(Rect { x: i32::MIN, y: 0, w: 1, h: 1 }, RIGHT, 0, 0));
}

#[test]
fn keymap_is_unique_and_complete() {
    let mut seen = HashSet::new();
    for (c, _) in keymap() {
        assert!(seen.insert(c), "duplicate {c}");
    }
    for c in ["KeyA", "Enter", "ShiftLeft", "ArrowUp", "F12", "MetaLeft", "IntlBackslash"] {
        assert!(keycode(c).is_some(), "{c}");
    }
    assert!(keycode("Nope").is_none());
}

#[test]
fn codes_are_those_of_linux() {
    for (name, code) in [
        ("Escape", KeyCode::KEY_ESC),
        ("Digit1", KeyCode::KEY_1),
        ("Digit0", KeyCode::KEY_0),
        ("KeyA", KeyCode::KEY_A),
        ("KeyZ", KeyCode::KEY_Z),
        ("Enter", KeyCode::KEY_ENTER),
        ("IntlBackslash", KeyCode::KEY_102ND),
        ("PrintScreen", KeyCode::KEY_SYSRQ),
        ("ContextMenu", KeyCode::KEY_COMPOSE),
        ("NumpadEqual", KeyCode::KEY_KPEQUAL),
        ("MediaTrackPrevious", KeyCode::KEY_PREVIOUSSONG),
    ] {
        assert_eq!(keycode(name), Some(code.0), "{name}");
    }
    assert_eq!(keymap().len(), 112);
    assert_eq!(BTN_LEFT, KeyCode::BTN_LEFT.0);
    assert_eq!(BTN_MIDDLE, KeyCode::BTN_MIDDLE.0);
    assert_eq!(BTN_RIGHT, KeyCode::BTN_RIGHT.0);
    assert_eq!(EV_KEY, EventType::KEY.0);
    assert_eq!(EV_REL, EventType::RELATIVE.0);
    assert_eq!(EV_ABS, EventType::ABSOLUTE.0);
    assert_eq!(ABS_X, AbsoluteAxisCode::ABS_X.0);
    assert_eq!(ABS_Y, AbsoluteAxisCode::ABS_Y.0);
    assert_eq!(REL_WHEEL, RelativeAxisCode::REL_WHEEL.0);
    assert_eq!(REL_HWHEEL, RelativeAxisCode::REL_HWHEEL.0);
}

#[test]
fn devices_declare_what_they_send() {
    let p = pointer_device(LAYOUT);
    assert_eq!(p.name, "desk-agent pointer");
    assert_eq!(p.keys, vec![BTN_LEFT, BTN_MIDDLE, BTN_RIGHT]);
    assert_eq!(p.relative, vec![REL_WHEEL, REL_HWHEEL]);
    assert_eq!(p.absolute, vec![(ABS_X, 3839), (ABS_Y, 1079)]);
    let k = keyboard_device();
    assert_eq!(k.name, "desk-agent keyboard");
    assert_eq!(k.keys, keymap().iter().map(|(_, code)| *code).collect::<Vec<u16>>());
    assert!(k.relative.is_empty() && k.absolute.is_empty());
}

fn emitted(a: Action) -> (Device, Vec<Event>, Option<(u16, bool)>) {
    match a {
        Action::Emit { device, events, change } => (device, events, change),
        _ => panic!("nothing emitted"),
    }
}

fn key(c: &str, d: bool) -> InputMsg {
    InputMsg::Key { c: c.into(), d }
}

#[test]
fn keys_and_buttons_are_held_until_released() {
    let mut inj = Injector::new(LAYOUT, RIGHT);
    let (device, events, change) = emitted(inj.handle(key("KeyA", true)));
    assert_eq!(device, Device::Keyboard);
    assert_eq!(events, vec![Event { kind: EV_KEY, code: KeyCode::KEY_A.0, value: 1 }]);
    assert_eq!(change, Some((KeyCode::KEY_A.0, true)));
    // Not held before its event has been sent.
    assert!(!inj.holds(KeyCode::KEY_A.0));
    inj.track(KeyCode::KEY_A.0, true);
    assert!(matches!(inj.handle(key("KeyA", true)), Action::Nothing));

    let (device, events, change) = emitted(inj.handle(InputMsg::Button { b: 2, d: true }));
    assert_eq!(device, Device::Pointer);
    assert_eq!(events, vec![Event { kind: EV_KEY, code: BTN_RIGHT, value: 1 }]);
    inj.track(change.unwrap().0, true);
    inj.track(BTN_RIGHT, true);

    assert_eq!(
        inj.release_all(),
        vec![
            (Device::Keyboard, Event { kind: EV_KEY, code: KeyCode::KEY_A.0, value: 0 }),
            (Device::Pointer, Event { kind: EV_KEY, code: BTN_RIGHT, value: 0 }),
        ]
    );
    assert!(!inj.holds(BTN_RIGHT));
    assert!(inj.release_all().is_empty());
    let (_, events, _) = emitted(inj.handle(key("KeyA", false)));
    assert_eq!(events[0].value, 0);
}

#[test]
fn a_released_key_is_not_held() {
    let mut inj = Injector::new(LAYOUT, RIGHT);
    inj.track(30, true);
    inj.track(31, true);
    inj.track(30, false);
    inj.track(99, false);
    assert!(!inj.holds(30));
    assert!(inj.holds(31));
    assert_eq!(inj.set_monitor(LAYOUT).len(), 1);
    assert_eq!(inj.areas(), (LAYOUT, LAYOUT));
}

#[test]
fn other_messages() {
    let inj = Injector::new(LAYOUT, RIGHT);
    let (device, events, change) = emitted(inj.handle(InputMsg::Move { dx: 960, dy: 540 }));
    assert_eq!(device, Device::Pointer);
    assert_eq!(
        events,
        vec![
            Event { kind: EV_ABS, code: ABS_X, value: 2880 },
            Event { kind: EV_ABS, code: ABS_Y, value: 540 },
        ]
    );
    assert_eq!(change, None);
    let (_, events, _) = emitted(inj.handle(InputMsg::Wheel { sx: 3, sy: -2 }));
    assert_eq!(
        events,
        vec![
            Event { kind: EV_REL, code: REL_WHEEL, value: 2 },
            Event { kind: EV_REL, code: REL_HWHEEL, value: 3 },
        ]
    );
    let (_, events, _) = emitted(inj.handle(InputMsg::Wheel { sx: 0, sy: 1 }));
    assert_eq!(events, vec![Event { kind: EV_REL, code: REL_WHEEL, value: -1 }]);
    let (_, events, _) = emitted(inj.handle(InputMsg::Wheel { sx: 0, sy: i32::MIN }));
    assert_eq!(events[0].value, i32::MAX);
    let (_, events, _) = emitted(inj.handle(InputMsg::Button { b: 1, d: false }));
    assert_eq!(events, vec![Event { kind: EV_KEY, code: BTN_MIDDLE, value: 0 }]);
    assert!(matches!(inj.handle(InputMsg::Wheel { sx: 0, sy: 0 }), Action::Nothing));
    assert!(matches!(inj.handle(InputMsg::Button { b: 3, d: true }), Action::Nothing));
    assert!(matches!(inj.handle(key("Nope", true)), Action::Nothing));
    assert!(matches!(inj.handle(InputMsg::Heartbeat), Action::Nothing));
    assert!(matches!(inj.handle(InputMsg::ReleaseAll), Action::Release));
    assert_eq!(device_for(BTN_LEFT), Device::Pointer);
    assert_eq!(device_for(30), Device::Keyboard);
}

#[test]
fn no_two_keys_share_a_code() {
    let table = keymap();
    for (i, (name, code)) in table.iter().enumerate() {
        for (other, other_code) in &table[i + 1..] {
            assert!(name != other && code != other_code, "{name} {other}");
        }
    }
}

#[test]
fn points_move_with_the_desktop_and_keep_their_order() {
    let rect = |x, y, w, h| Rect { x, y, w, h };
    let (layout, monitor) = (rect(-100, 0, 400, 300), rect(50, 20, 200, 100));
    assert_eq!(place_point(layout, monitor, 30, 40), (180, 60));
    assert_eq!(
        place_point(rect(-1100, 7, 400, 300), rect(-950, 27, 200, 100), 30, 40),
        (180, 60)
    );
    assert_eq!(place_point(layout, monitor, 31, 40), (181, 60));
    assert_eq!(place_point(layout, monitor, 30, 400), (180, 299));
}
