//! The keys of a keyboard: names of physical keys as browsers report them (`KeyboardEvent.code`) and
//! the Linux key codes for them. Because both are physical, the layout of the desktop decides which
//! character a key produces.

use crate::text::same;
use vstd::prelude::*;

verus! {

broadcast use vstd::string::group_string_axioms;

/// How many keys there are.
pub const KEYS: usize = 112;

/// The keys: each name with its code.
pub open spec fn key_table() -> Seq<(Seq<char>, u16)> {
    seq![
        ("Escape"@, 1),
        ("Digit1"@, 2),
        ("Digit2"@, 3),
        ("Digit3"@, 4),
        ("Digit4"@, 5),
        ("Digit5"@, 6),
        ("Digit6"@, 7),
        ("Digit7"@, 8),
        ("Digit8"@, 9),
        ("Digit9"@, 10),
        ("Digit0"@, 11),
        ("Minus"@, 12),
        ("Equal"@, 13),
        ("Backspace"@, 14),
        ("Tab"@, 15),
        ("KeyQ"@, 16),
        ("KeyW"@, 17),
        ("KeyE"@, 18),
        ("KeyR"@, 19),
        ("KeyT"@, 20),
        ("KeyY"@, 21),
        ("KeyU"@, 22),
        ("KeyI"@, 23),
        ("KeyO"@, 24),
        ("KeyP"@, 25),
        ("BracketLeft"@, 26),
        ("BracketRight"@, 27),
        ("Enter"@, 28),
        ("ControlLeft"@, 29),
        ("KeyA"@, 30),
        ("KeyS"@, 31),
        ("KeyD"@, 32),
        ("KeyF"@, 33),
        ("KeyG"@, 34),
        ("KeyH"@, 35),
        ("KeyJ"@, 36),
        ("KeyK"@, 37),
        ("KeyL"@, 38),
        ("Semicolon"@, 39),
        ("Quote"@, 40),
        ("Backquote"@, 41),
        ("ShiftLeft"@, 42),
        ("Backslash"@, 43),
        ("KeyZ"@, 44),
        ("KeyX"@, 45),
        ("KeyC"@, 46),
        ("KeyV"@, 47),
        ("KeyB"@, 48),
        ("KeyN"@, 49),
        ("KeyM"@, 50),
        ("Comma"@, 51),
        ("Period"@, 52),
        ("Slash"@, 53),
        ("ShiftRight"@, 54),
        ("NumpadMultiply"@, 55),
        ("AltLeft"@, 56),
        ("Space"@, 57),
        ("CapsLock"@, 58),
        ("F1"@, 59),
        ("F2"@, 60),
        ("F3"@, 61),
        ("F4"@, 62),
        ("F5"@, 63),
        ("F6"@, 64),
        ("F7"@, 65),
        ("F8"@, 66),
        ("F9"@, 67),
        ("F10"@, 68),
        ("F11"@, 87),
        ("F12"@, 88),
        ("NumLock"@, 69),
        ("ScrollLock"@, 70),
        ("Numpad7"@, 71),
        ("Numpad8"@, 72),
        ("Numpad9"@, 73),
        ("NumpadSubtract"@, 74),
        ("Numpad4"@, 75),
        ("Numpad5"@, 76),
        ("Numpad6"@, 77),
        ("NumpadAdd"@, 78),
        ("Numpad1"@, 79),
        ("Numpad2"@, 80),
        ("Numpad3"@, 81),
        ("Numpad0"@, 82),
        ("NumpadDecimal"@, 83),
        ("IntlBackslash"@, 86),
        ("NumpadEnter"@, 96),
        ("ControlRight"@, 97),
        ("NumpadDivide"@, 98),
        ("PrintScreen"@, 99),
        ("AltRight"@, 100),
        ("Home"@, 102),
        ("ArrowUp"@, 103),
        ("PageUp"@, 104),
        ("ArrowLeft"@, 105),
        ("ArrowRight"@, 106),
        ("End"@, 107),
        ("ArrowDown"@, 108),
        ("PageDown"@, 109),
        ("Insert"@, 110),
        ("Delete"@, 111),
        ("Pause"@, 119),
        ("MetaLeft"@, 125),
        ("MetaRight"@, 126),
        ("ContextMenu"@, 127),
        ("NumpadEqual"@, 117),
        ("AudioVolumeMute"@, 113),
        ("AudioVolumeDown"@, 114),
        ("AudioVolumeUp"@, 115),
        ("MediaPlayPause"@, 164),
        ("MediaTrackNext"@, 163),
        ("MediaTrackPrevious"@, 165),
    ]
}

/// The keys: each name with its code.
pub fn keymap() -> (t: Vec<(&'static str, u16)>)
    ensures
        t@.len() == KEYS,
        key_table().len() == KEYS,
        forall|i: int| 0 <= i < KEYS ==> (#[trigger] t@[i]).0@ == key_table()[i].0,
        forall|i: int| 0 <= i < KEYS ==> (#[trigger] t@[i]).1 == key_table()[i].1,
        forall|i: int| 0 <= i < KEYS ==> (#[trigger] key_table()[i]).1 < 256,
{
    vec![
        ("Escape", 1),
        ("Digit1", 2),
        ("Digit2", 3),
        ("Digit3", 4),
        ("Digit4", 5),
        ("Digit5", 6),
        ("Digit6", 7),
        ("Digit7", 8),
        ("Digit8", 9),
        ("Digit9", 10),
        ("Digit0", 11),
        ("Minus", 12),
        ("Equal", 13),
        ("Backspace", 14),
        ("Tab", 15),
        ("KeyQ", 16),
        ("KeyW", 17),
        ("KeyE", 18),
        ("KeyR", 19),
        ("KeyT", 20),
        ("KeyY", 21),
        ("KeyU", 22),
        ("KeyI", 23),
        ("KeyO", 24),
        ("KeyP", 25),
        ("BracketLeft", 26),
        ("BracketRight", 27),
        ("Enter", 28),
        ("ControlLeft", 29),
        ("KeyA", 30),
        ("KeyS", 31),
        ("KeyD", 32),
        ("KeyF", 33),
        ("KeyG", 34),
        ("KeyH", 35),
        ("KeyJ", 36),
        ("KeyK", 37),
        ("KeyL", 38),
        ("Semicolon", 39),
        ("Quote", 40),
        ("Backquote", 41),
        ("ShiftLeft", 42),
        ("Backslash", 43),
        ("KeyZ", 44),
        ("KeyX", 45),
        ("KeyC", 46),
        ("KeyV", 47),
        ("KeyB", 48),
        ("KeyN", 49),
        ("KeyM", 50),
        ("Comma", 51),
        ("Period", 52),
        ("Slash", 53),
        ("ShiftRight", 54),
        ("NumpadMultiply", 55),
        ("AltLeft", 56),
        ("Space", 57),
        ("CapsLock", 58),
        ("F1", 59),
        ("F2", 60),
        ("F3", 61),
        ("F4", 62),
        ("F5", 63),
        ("F6", 64),
        ("F7", 65),
        ("F8", 66),
        ("F9", 67),
        ("F10", 68),
        ("F11", 87),
        ("F12", 88),
        ("NumLock", 69),
        ("ScrollLock", 70),
        ("Numpad7", 71),
        ("Numpad8", 72),
        ("Numpad9", 73),
        ("NumpadSubtract", 74),
        ("Numpad4", 75),
        ("Numpad5", 76),
        ("Numpad6", 77),
        ("NumpadAdd", 78),
        ("Numpad1", 79),
        ("Numpad2", 80),
        ("Numpad3", 81),
        ("Numpad0", 82),
        ("NumpadDecimal", 83),
        ("IntlBackslash", 86),
        ("NumpadEnter", 96),
        ("ControlRight", 97),
        ("NumpadDivide", 98),
        ("PrintScreen", 99),
        ("AltRight", 100),
        ("Home", 102),
        ("ArrowUp", 103),
        ("PageUp", 104),
        ("ArrowLeft", 105),
        ("ArrowRight", 106),
        ("End", 107),
        ("ArrowDown", 108),
        ("PageDown", 109),
        ("Insert", 110),
        ("Delete", 111),
        ("Pause", 119),
        ("MetaLeft", 125),
        ("MetaRight", 126),
        ("ContextMenu", 127),
        ("NumpadEqual", 117),
        ("AudioVolumeMute", 113),
        ("AudioVolumeDown", 114),
        ("AudioVolumeUp", 115),
        ("MediaPlayPause", 164),
        ("MediaTrackNext", 163),
        ("MediaTrackPrevious", 165),
    ]
}

/// Whether `code` is the code of the key named `name`.
pub open spec fn key_has_code(name: Seq<char>, code: u16) -> bool {
    exists|i: int| 0 <= i < key_table().len() && #[trigger] key_table()[i] == (name, code)
}

/// Whether there is a key named `name`.
pub open spec fn known_key(name: Seq<char>) -> bool {
    exists|i: int| 0 <= i < key_table().len() && (#[trigger] key_table()[i]).0 == name
}

/// The Linux code of a key, by its name.
pub fn keycode(code: &str) -> (r: Option<u16>)
    ensures
        match r {
            Some(k) => key_has_code(code@, k) && k < 256,
            None => !known_key(code@),
        },
{
    let t = keymap();
    let mut i: usize = 0;
    while i < t.len()
        invariant
            i <= t@.len(),
            t@.len() == KEYS,
            key_table().len() == KEYS,
            forall|j: int| 0 <= j < KEYS ==> (#[trigger] t@[j]).0@ == key_table()[j].0,
            forall|j: int| 0 <= j < KEYS ==> (#[trigger] t@[j]).1 == key_table()[j].1,
            forall|j: int| 0 <= j < KEYS ==> (#[trigger] key_table()[j]).1 < 256,
            forall|j: int| 0 <= j < i ==> (#[trigger] key_table()[j]).0 != code@,
        decreases t@.len() - i,
    {
        assert(t@[i as int].0@ == key_table()[i as int].0);
        assert(t@[i as int].1 == key_table()[i as int].1);
        if same(t[i].0, code) {
            assert(key_table()[i as int] == (code@, t@[i as int].1));
            return Some(t[i].1);
        }
        i += 1;
    }
    None
}

/// A number that tells the names apart: made of the length, the first and the last two characters.
spec fn fingerprint(s: Seq<char>) -> int {
    s.len() + 32 * (s[0] as int) + 4096 * (s[s.len() - 1] as int) + 524288 * (s[s.len() - 2] as int)
}

/// The place in the table of the name with a fingerprint.
spec fn place(f: int) -> int {
    if f == 59136166 {
        0
    } else if f == 61020294 {
        1
    } else if f == 61024390 {
        2
    } else if f == 61028486 {
        3
    } else if f == 61032582 {
        4
    } else if f == 61036678 {
        5
    } else if f == 61040774 {
        6
    } else if f == 61044870 {
        7
    } else if f == 61048966 {
        8
    } else if f == 61053062 {
        9
    } else if f == 61016198 {
        10
    } else if f == 61815205 {
        11
    } else if f == 51300517 {
        12
    } else if f == 52320329 {
        13
    } else if f == 51260035 {
        14
    } else if f == 63773028 {
        15
    } else if f == 63797604 {
        16
    } else if f == 63723876 {
        17
    } else if f == 63777124 {
        18
    } else if f == 63785316 {
        19
    } else if f == 63805796 {
        20
    } else if f == 63789412 {
        21
    } else if f == 63740260 {
        22
    } else if f == 63764836 {
        23
    } else if f == 63768932 {
        24
    } else if f == 53954635 {
        25
    } else if f == 55003212 {
        26
    } else if f == 53422245 {
        27
    } else if f == 53954667 {
        28
    } else if f == 63707492 {
        29
    } else if f == 63781220 {
        30
    } else if f == 63719780 {
        31
    } else if f == 63727972 {
        32
    } else if f == 63732068 {
        33
    } else if f == 63736164 {
        34
    } else if f == 63744356 {
        35
    } else if f == 63748452 {
        36
    } else if f == 63752548 {
        37
    } else if f == 58649193 {
        38
    } else if f == 61233701 {
        39
    } else if f == 61233225 {
        40
    } else if f == 53955177 {
        41
    } else if f == 60721225 {
        42
    } else if f == 63809892 {
        43
    } else if f == 63801700 {
        44
    } else if f == 63715684 {
        45
    } else if f == 63793508 {
        46
    } else if f == 63711588 {
        47
    } else if f == 63760740 {
        48
    } else if f == 63756644 {
        49
    } else if f == 57546853 {
        50
    } else if f == 58608134 {
        51
    } else if f == 60721765 {
        52
    } else if f == 55003754 {
        53
    } else if f == 57121230 {
        54
    } else if f == 53954599 {
        55
    } else if f == 52320869 {
        56
    } else if f == 52344936 {
        57
    } else if f == 36903106 {
        58
    } else if f == 36907202 {
        59
    } else if f == 36911298 {
        60
    } else if f == 36915394 {
        61
    } else if f == 36919490 {
        62
    } else if f == 36923586 {
        63
    } else if f == 36927682 {
        64
    } else if f == 36931778 {
        65
    } else if f == 36935874 {
        66
    } else if f == 25888963 {
        67
    } else if f == 25893059 {
        68
    } else if f == 25897155 {
        69
    } else if f == 52345287 {
        70
    } else if f == 52345450 {
        71
    } else if f == 52656583 {
        72
    } else if f == 52660679 {
        73
    } else if f == 52664775 {
        74
    } else if f == 52382158 {
        75
    } else if f == 52644295 {
        76
    } else if f == 52648391 {
        77
    } else if f == 52652487 {
        78
    } else if f == 52840905 {
        79
    } else if f == 52632007 {
        80
    } else if f == 52636103 {
        81
    } else if f == 52640199 {
        82
    } else if f == 52627911 {
        83
    } else if f == 51300813 {
        84
    } else if f == 60721453 {
        85
    } else if f == 53422539 {
        86
    } else if f == 55003244 {
        87
    } else if f == 52845004 {
        88
    } else if f == 53406219 {
        89
    } else if f == 55003176 {
        90
    } else if f == 57563396 {
        91
    } else if f == 45025319 {
        92
    } else if f == 45025798 {
        93
    } else if f == 53954601 {
        94
    } else if f == 55003178 {
        95
    } else if f == 58083491 {
        96
    } else if f == 62842921 {
        97
    } else if f == 62843400 {
        98
    } else if f == 60246310 {
        99
    } else if f == 61233286 {
        100
    } else if f == 60709381 {
        101
    } else if f == 53954984 {
        102
    } else if f == 55003561 {
        103
    } else if f == 58153067 {
        104
    } else if f == 51300811 {
        105
    } else if f == 61233199 {
        106
    } else if f == 62842927 {
        107
    } else if f == 45025325 {
        108
    } else if f == 60709294 {
        109
    } else if f == 63392174 {
        110
    } else if f == 61815218 {
        111
    } else {
        -1
    }
}

proof fn places_from_0()
    ensures
        forall|i: int| 0 <= i < 14 ==> place(fingerprint((#[trigger] key_table()[i]).0)) == i,
{
    reveal_strlit("Escape");
    reveal_strlit("Digit1");
    reveal_strlit("Digit2");
    reveal_strlit("Digit3");
    reveal_strlit("Digit4");
    reveal_strlit("Digit5");
    reveal_strlit("Digit6");
    reveal_strlit("Digit7");
    reveal_strlit("Digit8");
    reveal_strlit("Digit9");
    reveal_strlit("Digit0");
    reveal_strlit("Minus");
    reveal_strlit("Equal");
    reveal_strlit("Backspace");
    assert(place(fingerprint("Escape"@)) == 0);
    assert(place(fingerprint("Digit1"@)) == 1);
    assert(place(fingerprint("Digit2"@)) == 2);
    assert(place(fingerprint("Digit3"@)) == 3);
    assert(place(fingerprint("Digit4"@)) == 4);
    assert(place(fingerprint("Digit5"@)) == 5);
    assert(place(fingerprint("Digit6"@)) == 6);
    assert(place(fingerprint("Digit7"@)) == 7);
    assert(place(fingerprint("Digit8"@)) == 8);
    assert(place(fingerprint("Digit9"@)) == 9);
    assert(place(fingerprint("Digit0"@)) == 10);
    assert(place(fingerprint("Minus"@)) == 11);
    assert(place(fingerprint("Equal"@)) == 12);
    assert(place(fingerprint("Backspace"@)) == 13);
}

proof fn places_from_14()
    ensures
        forall|i: int| 14 <= i < 28 ==> place(fingerprint((#[trigger] key_table()[i]).0)) == i,
{
    reveal_strlit("Tab");
    reveal_strlit("KeyQ");
    reveal_strlit("KeyW");
    reveal_strlit("KeyE");
    reveal_strlit("KeyR");
    reveal_strlit("KeyT");
    reveal_strlit("KeyY");
    reveal_strlit("KeyU");
    reveal_strlit("KeyI");
    reveal_strlit("KeyO");
    reveal_strlit("KeyP");
    reveal_strlit("BracketLeft");
    reveal_strlit("BracketRight");
    reveal_strlit("Enter");
    assert(place(fingerprint("Tab"@)) == 14);
    assert(place(fingerprint("KeyQ"@)) == 15);
    assert(place(fingerprint("KeyW"@)) == 16);
    assert(place(fingerprint("KeyE"@)) == 17);
    assert(place(fingerprint("KeyR"@)) == 18);
    assert(place(fingerprint("KeyT"@)) == 19);
    assert(place(fingerprint("KeyY"@)) == 20);
    assert(place(fingerprint("KeyU"@)) == 21);
    assert(place(fingerprint("KeyI"@)) == 22);
    assert(place(fingerprint("KeyO"@)) == 23);
    assert(place(fingerprint("KeyP"@)) == 24);
    assert(place(fingerprint("BracketLeft"@)) == 25);
    assert(place(fingerprint("BracketRight"@)) == 26);
    assert(place(fingerprint("Enter"@)) == 27);
}

proof fn places_from_28()
    ensures
        forall|i: int| 28 <= i < 42 ==> place(fingerprint((#[trigger] key_table()[i]).0)) == i,
{
    reveal_strlit("ControlLeft");
    reveal_strlit("KeyA");
    reveal_strlit("KeyS");
    reveal_strlit("KeyD");
    reveal_strlit("KeyF");
    reveal_strlit("KeyG");
    reveal_strlit("KeyH");
    reveal_strlit("KeyJ");
    reveal_strlit("KeyK");
    reveal_strlit("KeyL");
    reveal_strlit("Semicolon");
    reveal_strlit("Quote");
    reveal_strlit("Backquote");
    reveal_strlit("ShiftLeft");
    assert(place(fingerprint("ControlLeft"@)) == 28);
    assert(place(fingerprint("KeyA"@)) == 29);
    assert(place(fingerprint("KeyS"@)) == 30);
    assert(place(fingerprint("KeyD"@)) == 31);
    assert(place(fingerprint("KeyF"@)) == 32);
    assert(place(fingerprint("KeyG"@)) == 33);
    assert(place(fingerprint("KeyH"@)) == 34);
    assert(place(fingerprint("KeyJ"@)) == 35);
    assert(place(fingerprint("KeyK"@)) == 36);
    assert(place(fingerprint("KeyL"@)) == 37);
    assert(place(fingerprint("Semicolon"@)) == 38);
    assert(place(fingerprint("Quote"@)) == 39);
    assert(place(fingerprint("Backquote"@)) == 40);
    assert(place(fingerprint("ShiftLeft"@)) == 41);
}

proof fn places_from_42()
    ensures
        forall|i: int| 42 <= i < 56 ==> place(fingerprint((#[trigger] key_table()[i]).0)) == i,
{
    reveal_strlit("Backslash");
    reveal_strlit("KeyZ");
    reveal_strlit("KeyX");
    reveal_strlit("KeyC");
    reveal_strlit("KeyV");
    reveal_strlit("KeyB");
    reveal_strlit("KeyN");
    reveal_strlit("KeyM");
    reveal_strlit("Comma");
    reveal_strlit("Period");
    reveal_strlit("Slash");
    reveal_strlit("ShiftRight");
    reveal_strlit("NumpadMultiply");
    reveal_strlit("AltLeft");
    assert(place(fingerprint("Backslash"@)) == 42);
    assert(place(fingerprint("KeyZ"@)) == 43);
    assert(place(fingerprint("KeyX"@)) == 44);
    assert(place(fingerprint("KeyC"@)) == 45);
    assert(place(fingerprint("KeyV"@)) == 46);
    assert(place(fingerprint("KeyB"@)) == 47);
    assert(place(fingerprint("KeyN"@)) == 48);
    assert(place(fingerprint("KeyM"@)) == 49);
    assert(place(fingerprint("Comma"@)) == 50);
    assert(place(fingerprint("Period"@)) == 51);
    assert(place(fingerprint("Slash"@)) == 52);
    assert(place(fingerprint("ShiftRight"@)) == 53);
    assert(place(fingerprint("NumpadMultiply"@)) == 54);
    assert(place(fingerprint("AltLeft"@)) == 55);
}

proof fn places_from_56()
    ensures
        forall|i: int| 56 <= i < 70 ==> place(fingerprint((#[trigger] key_table()[i]).0)) == i,
{
    reveal_strlit("Space");
    reveal_strlit("CapsLock");
    reveal_strlit("F1");
    reveal_strlit("F2");
    reveal_strlit("F3");
    reveal_strlit("F4");
    reveal_strlit("F5");
    reveal_strlit("F6");
    reveal_strlit("F7");
    reveal_strlit("F8");
    reveal_strlit("F9");
    reveal_strlit("F10");
    reveal_strlit("F11");
    reveal_strlit("F12");
    assert(place(fingerprint("Space"@)) == 56);
    assert(place(fingerprint("CapsLock"@)) == 57);
    assert(place(fingerprint("F1"@)) == 58);
    assert(place(fingerprint("F2"@)) == 59);
    assert(place(fingerprint("F3"@)) == 60);
    assert(place(fingerprint("F4"@)) == 61);
    assert(place(fingerprint("F5"@)) == 62);
    assert(place(fingerprint("F6"@)) == 63);
    assert(place(fingerprint("F7"@)) == 64);
    assert(place(fingerprint("F8"@)) == 65);
    assert(place(fingerprint("F9"@)) == 66);
    assert(place(fingerprint("F10"@)) == 67);
    assert(place(fingerprint("F11"@)) == 68);
    assert(place(fingerprint("F12"@)) == 69);
}

proof fn places_from_70()
    ensures
        forall|i: int| 70 <= i < 84 ==> place(fingerprint((#[trigger] key_table()[i]).0)) == i,
{
    reveal_strlit("NumLock");
    reveal_strlit("ScrollLock");
    reveal_strlit("Numpad7");
    reveal_strlit("Numpad8");
    reveal_strlit("Numpad9");
    reveal_strlit("NumpadSubtract");
    reveal_strlit("Numpad4");
    reveal_strlit("Numpad5");
    reveal_strlit("Numpad6");
    reveal_strlit("NumpadAdd");
    reveal_strlit("Numpad1");
    reveal_strlit("Numpad2");
    reveal_strlit("Numpad3");
    reveal_strlit("Numpad0");
    assert(place(fingerprint("NumLock"@)) == 70);
    assert(place(fingerprint("ScrollLock"@)) == 71);
    assert(place(fingerprint("Numpad7"@)) == 72);
    assert(place(fingerprint("Numpad8"@)) == 73);
    assert(place(fingerprint("Numpad9"@)) == 74);
    assert(place(fingerprint("NumpadSubtract"@)) == 75);
    assert(place(fingerprint("Numpad4"@)) == 76);
    assert(place(fingerprint("Numpad5"@)) == 77);
    assert(place(fingerprint("Numpad6"@)) == 78);
    assert(place(fingerprint("NumpadAdd"@)) == 79);
    assert(place(fingerprint("Numpad1"@)) == 80);
    assert(place(fingerprint("Numpad2"@)) == 81);
    assert(place(fingerprint("Numpad3"@)) == 82);
    assert(place(fingerprint("Numpad0"@)) == 83);
}

proof fn places_from_84()
    ensures
        forall|i: int| 84 <= i < 98 ==> place(fingerprint((#[trigger] key_table()[i]).0)) == i,
{
    reveal_strlit("NumpadDecimal");
    reveal_strlit("IntlBackslash");
    reveal_strlit("NumpadEnter");
    reveal_strlit("ControlRight");
    reveal_strlit("NumpadDivide");
    reveal_strlit("PrintScreen");
    reveal_strlit("AltRight");
    reveal_strlit("Home");
    reveal_strlit("ArrowUp");
    reveal_strlit("PageUp");
    reveal_strlit("ArrowLeft");
    reveal_strlit("ArrowRight");
    reveal_strlit("End");
    reveal_strlit("ArrowDown");
    assert(place(fingerprint("NumpadDecimal"@)) == 84);
    assert(place(fingerprint("IntlBackslash"@)) == 85);
    assert(place(fingerprint("NumpadEnter"@)) == 86);
    assert(place(fingerprint("ControlRight"@)) == 87);
    assert(place(fingerprint("NumpadDivide"@)) == 88);
    assert(place(fingerprint("PrintScreen"@)) == 89);
    assert(place(fingerprint("AltRight"@)) == 90);
    assert(place(fingerprint("Home"@)) == 91);
    assert(place(fingerprint("ArrowUp"@)) == 92);
    assert(place(fingerprint("PageUp"@)) == 93);
    assert(place(fingerprint("ArrowLeft"@)) == 94);
    assert(place(fingerprint("ArrowRight"@)) == 95);
    assert(place(fingerprint("End"@)) == 96);
    assert(place(fingerprint("ArrowDown"@)) == 97);
}

proof fn places_from_98()
    ensures
        forall|i: int| 98 <= i < 112 ==> place(fingerprint((#[trigger] key_table()[i]).0)) == i,
{
    reveal_strlit("PageDown");
    reveal_strlit("Insert");
    reveal_strlit("Delete");
    reveal_strlit("Pause");
    reveal_strlit("MetaLeft");
    reveal_strlit("MetaRight");
    reveal_strlit("ContextMenu");
    reveal_strlit("NumpadEqual");
    reveal_strlit("AudioVolumeMute");
    reveal_strlit("AudioVolumeDown");
    reveal_strlit("AudioVolumeUp");
    reveal_strlit("MediaPlayPause");
    reveal_strlit("MediaTrackNext");
    reveal_strlit("MediaTrackPrevious");
    assert(place(fingerprint("PageDown"@)) == 98);
    assert(place(fingerprint("Insert"@)) == 99);
    assert(place(fingerprint("Delete"@)) == 100);
    assert(place(fingerprint("Pause"@)) == 101);
    assert(place(fingerprint("MetaLeft"@)) == 102);
    assert(place(fingerprint("MetaRight"@)) == 103);
    assert(place(fingerprint("ContextMenu"@)) == 104);
    assert(place(fingerprint("NumpadEqual"@)) == 105);
    assert(place(fingerprint("AudioVolumeMute"@)) == 106);
    assert(place(fingerprint("AudioVolumeDown"@)) == 107);
    assert(place(fingerprint("AudioVolumeUp"@)) == 108);
    assert(place(fingerprint("MediaPlayPause"@)) == 109);
    assert(place(fingerprint("MediaTrackNext"@)) == 110);
    assert(place(fingerprint("MediaTrackPrevious"@)) == 111);
}

/// No name occurs twice: a name stands for one code.
pub proof fn key_names_are_unique(i: int, j: int)
    requires
        0 <= i < key_table().len(),
        0 <= j < key_table().len(),
        key_table()[i].0 == key_table()[j].0,
    ensures
        i == j,
{
    assert(key_table().len() == KEYS);
    places_from_0();
    places_from_14();
    places_from_28();
    places_from_42();
    places_from_56();
    places_from_70();
    places_from_84();
    places_from_98();
    assert(place(fingerprint(key_table()[i].0)) == i);
    assert(place(fingerprint(key_table()[j].0)) == j);
}

/// The place in the table of a code.
spec fn slot(code: int) -> int {
    if code <= 68 {
        code - 1
    } else if code <= 83 {
        code + 1
    } else if code == 86 {
        85
    } else if code <= 88 {
        code - 19
    } else if code <= 100 {
        code - 10
    } else if code <= 111 {
        code - 11
    } else if code <= 115 {
        code - 7
    } else if code == 117 {
        105
    } else if code == 119 {
        101
    } else if code <= 127 {
        code - 23
    } else if code == 163 {
        110
    } else if code == 164 {
        109
    } else {
        111
    }
}

/// No code occurs twice: no two keys are the same to the desktop.
pub proof fn key_codes_are_unique(i: int, j: int)
    requires
        0 <= i < key_table().len(),
        0 <= j < key_table().len(),
        key_table()[i].1 == key_table()[j].1,
    ensures
        i == j,
{
    assert(key_table().len() == KEYS);
    assert forall|k: int| 0 <= k < KEYS implies slot((#[trigger] key_table()[k]).1 as int) == k by {
    }
    assert(slot(key_table()[i].1 as int) == i);
    assert(slot(key_table()[j].1 as int) == j);
}

/// The keys of the digits have consecutive codes, as they stand side by side: one first, zero last.
pub proof fn digits_stand_in_a_row(k: int)
    requires
        0 <= k < "1234567890"@.len(),
    ensures
        key_has_code("Digit"@ + seq!["1234567890"@[k]], (2 + k) as u16),
        "1234567890"@.len() == 10,
{
    reveal_strlit("1234567890");
    reveal_strlit("Digit");
    let name = "Digit"@ + seq!["1234567890"@[k]];
    if k == 0 {
        reveal_strlit("Digit1");
        assert(name =~= "Digit1"@);
        assert(key_table()[1] == (name, (2 + k) as u16));
    }
    if k == 1 {
        reveal_strlit("Digit2");
        assert(name =~= "Digit2"@);
        assert(key_table()[2] == (name, (2 + k) as u16));
    }
    if k == 2 {
        reveal_strlit("Digit3");
        assert(name =~= "Digit3"@);
        assert(key_table()[3] == (name, (2 + k) as u16));
    }
    if k == 3 {
        reveal_strlit("Digit4");
        assert(name =~= "Digit4"@);
        assert(key_table()[4] == (name, (2 + k) as u16));
    }
    if k == 4 {
        reveal_strlit("Digit5");
        assert(name =~= "Digit5"@);
        assert(key_table()[5] == (name, (2 + k) as u16));
    }
    if k == 5 {
        reveal_strlit("Digit6");
        assert(name =~= "Digit6"@);
        assert(key_table()[6] == (name, (2 + k) as u16));
    }
    if k == 6 {
        reveal_strlit("Digit7");
        assert(name =~= "Digit7"@);
        assert(key_table()[7] == (name, (2 + k) as u16));
    }
    if k == 7 {
        reveal_strlit("Digit8");
        assert(name =~= "Digit8"@);
        assert(key_table()[8] == (name, (2 + k) as u16));
    }
    if k == 8 {
        reveal_strlit("Digit9");
        assert(name =~= "Digit9"@);
        assert(key_table()[9] == (name, (2 + k) as u16));
    }
    if k == 9 {
        reveal_strlit("Digit0");
        assert(name =~= "Digit0"@);
        assert(key_table()[10] == (name, (2 + k) as u16));
    }
}

/// The letters of the upper row have consecutive codes, as they stand side by side.
pub proof fn the_upper_row_counts_up(k: int)
    requires
        0 <= k < "QWERTYUIOP"@.len(),
    ensures
        key_has_code("Key"@ + seq!["QWERTYUIOP"@[k]], (16 + k) as u16),
        "QWERTYUIOP"@.len() == 10,
{
    reveal_strlit("QWERTYUIOP");
    reveal_strlit("Key");
    let name = "Key"@ + seq!["QWERTYUIOP"@[k]];
    if k == 0 {
        reveal_strlit("KeyQ");
        assert(name =~= "KeyQ"@);
        assert(key_table()[15] == (name, (16 + k) as u16));
    }
    if k == 1 {
        reveal_strlit("KeyW");
        assert(name =~= "KeyW"@);
        assert(key_table()[16] == (name, (16 + k) as u16));
    }
    if k == 2 {
        reveal_strlit("KeyE");
        assert(name =~= "KeyE"@);
        assert(key_table()[17] == (name, (16 + k) as u16));
    }
    if k == 3 {
        reveal_strlit("KeyR");
        assert(name =~= "KeyR"@);
        assert(key_table()[18] == (name, (16 + k) as u16));
    }
    if k == 4 {
        reveal_strlit("KeyT");
        assert(name =~= "KeyT"@);
        assert(key_table()[19] == (name, (16 + k) as u16));
    }
    if k == 5 {
        reveal_strlit("KeyY");
        assert(name =~= "KeyY"@);
        assert(key_table()[20] == (name, (16 + k) as u16));
    }
    if k == 6 {
        reveal_strlit("KeyU");
        assert(name =~= "KeyU"@);
        assert(key_table()[21] == (name, (16 + k) as u16));
    }
    if k == 7 {
        reveal_strlit("KeyI");
        assert(name =~= "KeyI"@);
        assert(key_table()[22] == (name, (16 + k) as u16));
    }
    if k == 8 {
        reveal_strlit("KeyO");
        assert(name =~= "KeyO"@);
        assert(key_table()[23] == (name, (16 + k) as u16));
    }
    if k == 9 {
        reveal_strlit("KeyP");
        assert(name =~= "KeyP"@);
        assert(key_table()[24] == (name, (16 + k) as u16));
    }
}

/// The letters of the middle row have consecutive codes, as they stand side by side.
pub proof fn the_middle_row_counts_up(k: int)
    requires
        0 <= k < "ASDFGHJKL"@.len(),
    ensures
        key_has_code("Key"@ + seq!["ASDFGHJKL"@[k]], (30 + k) as u16),
        "ASDFGHJKL"@.len() == 9,
{
    reveal_strlit("ASDFGHJKL");
    reveal_strlit("Key");
    let name = "Key"@ + seq!["ASDFGHJKL"@[k]];
    if k == 0 {
        reveal_strlit("KeyA");
        assert(name =~= "KeyA"@);
        assert(key_table()[29] == (name, (30 + k) as u16));
    }
    if k == 1 {
        reveal_strlit("KeyS");
        assert(name =~= "KeyS"@);
        assert(key_table()[30] == (name, (30 + k) as u16));
    }
    if k == 2 {
        reveal_strlit("KeyD");
        assert(name =~= "KeyD"@);
        assert(key_table()[31] == (name, (30 + k) as u16));
    }
    if k == 3 {
        reveal_strlit("KeyF");
        assert(name =~= "KeyF"@);
        assert(key_table()[32] == (name, (30 + k) as u16));
    }
    if k == 4 {
        reveal_strlit("KeyG");
        assert(name =~= "KeyG"@);
        assert(key_table()[33] == (name, (30 + k) as u16));
    }
    if k == 5 {
        reveal_strlit("KeyH");
        assert(name =~= "KeyH"@);
        assert(key_table()[34] == (name, (30 + k) as u16));
    }
    if k == 6 {
        reveal_strlit("KeyJ");
        assert(name =~= "KeyJ"@);
        assert(key_table()[35] == (name, (30 + k) as u16));
    }
    if k == 7 {
        reveal_strlit("KeyK");
        assert(name =~= "KeyK"@);
        assert(key_table()[36] == (name, (30 + k) as u16));
    }
    if k == 8 {
        reveal_strlit("KeyL");
        assert(name =~= "KeyL"@);
        assert(key_table()[37] == (name, (30 + k) as u16));
    }
}

/// The letters of the lower row have consecutive codes, as they stand side by side.
pub proof fn the_lower_row_counts_up(k: int)
    requires
        0 <= k < "ZXCVBNM"@.len(),
    ensures
        key_has_code("Key"@ + seq!["ZXCVBNM"@[k]], (44 + k) as u16),
        "ZXCVBNM"@.len() == 7,
{
    reveal_strlit("ZXCVBNM");
    reveal_strlit("Key");
    let name = "Key"@ + seq!["ZXCVBNM"@[k]];
    if k == 0 {
        reveal_strlit("KeyZ");
        assert(name =~= "KeyZ"@);
        assert(key_table()[43] == (name, (44 + k) as u16));
    }
    if k == 1 {
        reveal_strlit("KeyX");
        assert(name =~= "KeyX"@);
        assert(key_table()[44] == (name, (44 + k) as u16));
    }
    if k == 2 {
        reveal_strlit("KeyC");
        assert(name =~= "KeyC"@);
        assert(key_table()[45] == (name, (44 + k) as u16));
    }
    if k == 3 {
        reveal_strlit("KeyV");
        assert(name =~= "KeyV"@);
        assert(key_table()[46] == (name, (44 + k) as u16));
    }
    if k == 4 {
        reveal_strlit("KeyB");
        assert(name =~= "KeyB"@);
        assert(key_table()[47] == (name, (44 + k) as u16));
    }
    if k == 5 {
        reveal_strlit("KeyN");
        assert(name =~= "KeyN"@);
        assert(key_table()[48] == (name, (44 + k) as u16));
    }
    if k == 6 {
        reveal_strlit("KeyM");
        assert(name =~= "KeyM"@);
        assert(key_table()[49] == (name, (44 + k) as u16));
    }
}

/// The first nine function keys have consecutive codes.
pub proof fn function_keys_count_up(k: int)
    requires
        0 <= k < "123456789"@.len(),
    ensures
        key_has_code("F"@ + seq!["123456789"@[k]], (59 + k) as u16),
        "123456789"@.len() == 9,
{
    reveal_strlit("123456789");
    reveal_strlit("F");
    let name = "F"@ + seq!["123456789"@[k]];
    if k == 0 {
        reveal_strlit("F1");
        assert(name =~= "F1"@);
        assert(key_table()[58] == (name, (59 + k) as u16));
    }
    if k == 1 {
        reveal_strlit("F2");
        assert(name =~= "F2"@);
        assert(key_table()[59] == (name, (59 + k) as u16));
    }
    if k == 2 {
        reveal_strlit("F3");
        assert(name =~= "F3"@);
        assert(key_table()[60] == (name, (59 + k) as u16));
    }
    if k == 3 {
        reveal_strlit("F4");
        assert(name =~= "F4"@);
        assert(key_table()[61] == (name, (59 + k) as u16));
    }
    if k == 4 {
        reveal_strlit("F5");
        assert(name =~= "F5"@);
        assert(key_table()[62] == (name, (59 + k) as u16));
    }
    if k == 5 {
        reveal_strlit("F6");
        assert(name =~= "F6"@);
        assert(key_table()[63] == (name, (59 + k) as u16));
    }
    if k == 6 {
        reveal_strlit("F7");
        assert(name =~= "F7"@);
        assert(key_table()[64] == (name, (59 + k) as u16));
    }
    if k == 7 {
        reveal_strlit("F8");
        assert(name =~= "F8"@);
        assert(key_table()[65] == (name, (59 + k) as u16));
    }
    if k == 8 {
        reveal_strlit("F9");
        assert(name =~= "F9"@);
        assert(key_table()[66] == (name, (59 + k) as u16));
    }
}

/// A name has at most one code, and a code at most one name.
pub proof fn names_and_codes_pair_up(name: Seq<char>, code: u16, other: Seq<char>, other_code: u16)
    requires
        key_has_code(name, code),
        key_has_code(other, other_code),
    ensures
        name == other <==> code == other_code,
{
    let i = choose|i: int| 0 <= i < key_table().len() && #[trigger] key_table()[i] == (name, code);
    let j = choose|j: int|
        0 <= j < key_table().len() && #[trigger] key_table()[j] == (other, other_code);
    if name == other {
        key_names_are_unique(i, j);
    }
    if code == other_code {
        key_codes_are_unique(i, j);
    }
}

} // verus!
