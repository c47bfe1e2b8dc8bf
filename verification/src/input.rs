//! Remote input: one absolute pointer that spans the whole monitor layout, and one keyboard. Every
//! pressed key and button is kept track of, so that it can be released on disconnect.

use crate::keys::{
    key_has_code, key_names_are_unique, key_table, keycode, keymap, known_key,
};
use vstd::prelude::*;

verus! {

/// Geometry of a monitor inside the compositor layout (logical pixels).
#[derive(Clone, Copy, Debug, PartialEq, Eq, Structural)]
pub struct Rect {
    pub x: i32,
    pub y: i32,
    pub w: i32,
    pub h: i32,
}

/// Messages of the viewer, in whole pixels and whole wheel detents.
pub enum InputMsg {
    /// Pointer position: pixels from the left and the upper edge of the captured monitor.
    Move { dx: i32, dy: i32 },
    /// Mouse button (0 left, 1 middle, 2 right), down or up.
    Button { b: u8, d: bool },
    /// Wheel detents; positive `sy` scrolls down.
    Wheel { sx: i32, sy: i32 },
    /// Key by its name, down or up.
    Key { c: String, d: bool },
    /// Release everything (tab blurred, pointer left, etc.).
    ReleaseAll,
    /// A sign of life.
    Heartbeat,
}

/// The device that an event belongs to.
#[derive(Clone, Copy, Debug, PartialEq, Eq, Structural)]
pub enum Device {
    Pointer,
    Keyboard,
}

/// An event of the Linux input layer: its type, its code and its value.
#[derive(Clone, Copy, Debug, PartialEq, Eq, Structural)]
pub struct Event {
    pub kind: u16,
    pub code: u16,
    pub value: i32,
}

/// `EV_KEY`: keys and buttons.
pub const EV_KEY: u16 = 1;

/// `EV_REL`: relative axes.
pub const EV_REL: u16 = 2;

/// `EV_ABS`: absolute axes.
pub const EV_ABS: u16 = 3;

/// `REL_HWHEEL`: the horizontal wheel.
pub const REL_HWHEEL: u16 = 6;

/// `REL_WHEEL`: the vertical wheel.
pub const REL_WHEEL: u16 = 8;

/// `ABS_X`.
pub const ABS_X: u16 = 0;

/// `ABS_Y`.
pub const ABS_Y: u16 = 1;

/// `BTN_LEFT`.
pub const BTN_LEFT: u16 = 0x110;

/// `BTN_RIGHT`.
pub const BTN_RIGHT: u16 = 0x111;

/// `BTN_MIDDLE`.
pub const BTN_MIDDLE: u16 = 0x112;

/// What a message calls for.
pub enum Action {
    /// Nothing.
    Nothing,
    /// Send these events to the device; after that, take note of the key that changed, if any.
    Emit { device: Device, events: Vec<Event>, change: Option<(u16, bool)> },
    /// Release everything that is held.
    Release,
}

/// The code of a mouse button.
pub open spec fn button_code(b: u8) -> Option<u16> {
    if b == 0 {
        Some(BTN_LEFT)
    } else if b == 1 {
        Some(BTN_MIDDLE)
    } else if b == 2 {
        Some(BTN_RIGHT)
    } else {
        None
    }
}

/// Whether a code belongs to the pointer.
pub open spec fn pointer_button(code: u16) -> bool {
    code == BTN_LEFT || code == BTN_MIDDLE || code == BTN_RIGHT
}

/// The device that a key or button code is sent to.
pub open spec fn device_of(code: u16) -> Device {
    if pointer_button(code) {
        Device::Pointer
    } else {
        Device::Keyboard
    }
}

/// A key or button going down or up.
pub open spec fn key_event(code: u16, down: bool) -> Event {
    Event {
        kind: EV_KEY,
        code,
        value: if down {
            1
        } else {
            0
        },
    }
}

/// `v` brought into `0..=hi`.
pub open spec fn clamp(v: int, hi: int) -> int {
    if v < 0 {
        0
    } else if v > hi {
        hi
    } else {
        v
    }
}

/// Where a point of the captured monitor lies on the axes that span the layout.
pub open spec fn placed(layout: Rect, monitor: Rect, dx: i32, dy: i32) -> (int, int) {
    (
        clamp(monitor.x - layout.x + dx, layout.w - 1),
        clamp(monitor.y - layout.y + dy, layout.h - 1),
    )
}

/// Whether the layout has pixels and a point of the monitor can be counted from its corner.
pub open spec fn in_range(layout: Rect, monitor: Rect, dx: i32, dy: i32) -> bool {
    &&& layout.w >= 1
    &&& layout.h >= 1
    &&& i32::MIN <= monitor.x - layout.x <= i32::MAX
    &&& i32::MIN <= monitor.y - layout.y <= i32::MAX
    &&& i32::MIN <= monitor.x - layout.x + dx <= i32::MAX
    &&& i32::MIN <= monitor.y - layout.y + dy <= i32::MAX
}

/// Whether a monitor lies inside the layout.
pub open spec fn within(layout: Rect, monitor: Rect) -> bool {
    &&& layout.x <= monitor.x
    &&& layout.y <= monitor.y
    &&& monitor.x + monitor.w <= layout.x + layout.w
    &&& monitor.y + monitor.h <= layout.y + layout.h
}

fn clamped(v: i32, hi: i32) -> (r: i32)
    requires
        hi >= 0,
    ensures
        r == clamp(v as int, hi as int),
{
    if v < 0 {
        0
    } else if v > hi {
        hi
    } else {
        v
    }
}

/// Where a point of the captured monitor, in pixels from its corner, lies on the absolute axes.
pub fn place_point(layout: Rect, monitor: Rect, dx: i32, dy: i32) -> (p: (i32, i32))
    requires
        in_range(layout, monitor, dx, dy),
    ensures
        (p.0 as int, p.1 as int) == placed(layout, monitor, dx, dy),
{
    (
        clamped(monitor.x - layout.x + dx, layout.w - 1),
        clamped(monitor.y - layout.y + dy, layout.h - 1),
    )
}

/// Whether a point can be placed.
pub fn placeable(layout: Rect, monitor: Rect, dx: i32, dy: i32) -> (b: bool)
    ensures
        b == in_range(layout, monitor, dx, dy),
{
    let x: i64 = monitor.x as i64 - layout.x as i64;
    let y: i64 = monitor.y as i64 - layout.y as i64;
    let (lo, hi): (i64, i64) = (i32::MIN as i64, i32::MAX as i64);
    layout.w >= 1 && layout.h >= 1 && lo <= x && x <= hi && lo <= y && y <= hi && lo <= x + dx as i64
        && x + dx as i64 <= hi && lo <= y + dy as i64 && y + dy as i64 <= hi
}

/// What a device declares that it can send.
pub struct DeviceSpec {
    pub name: &'static str,
    /// Keys and buttons.
    pub keys: Vec<u16>,
    /// Relative axes.
    pub relative: Vec<u16>,
    /// Absolute axes, each with its greatest value; the least is zero.
    pub absolute: Vec<(u16, i32)>,
}

/// Whether a device with these declarations can send an event.
pub open spec fn can_send(
    keys: Seq<u16>,
    relative: Seq<u16>,
    absolute: Seq<(u16, i32)>,
    e: Event,
) -> bool {
    ||| e.kind == EV_KEY && keys.contains(e.code)
    ||| e.kind == EV_REL && relative.contains(e.code)
    ||| e.kind == EV_ABS && exists|i: int|
        0 <= i < absolute.len() && (#[trigger] absolute[i]).0 == e.code && 0 <= e.value
            <= absolute[i].1
}

/// The buttons of the pointer.
pub open spec fn pointer_keys() -> Seq<u16> {
    seq![BTN_LEFT, BTN_MIDDLE, BTN_RIGHT]
}

/// The relative axes of the pointer.
pub open spec fn pointer_relative() -> Seq<u16> {
    seq![REL_WHEEL, REL_HWHEEL]
}

/// The absolute axes of the pointer: they span exactly the layout.
pub open spec fn pointer_absolute(layout: Rect) -> Seq<(u16, i32)> {
    seq![(ABS_X, (layout.w - 1) as i32), (ABS_Y, (layout.h - 1) as i32)]
}

/// The keys of the keyboard.
pub open spec fn keyboard_keys() -> Seq<u16> {
    key_table().map_values(|k: (Seq<char>, u16)| k.1)
}

/// The pointer; its absolute axes span exactly the bounding box of all monitors.
pub fn pointer_device(layout: Rect) -> (d: DeviceSpec)
    requires
        layout.w > i32::MIN,
        layout.h > i32::MIN,
    ensures
        d.name@ == "desk-agent pointer"@,
        d.keys@ == pointer_keys(),
        d.relative@ == pointer_relative(),
        d.absolute@ == pointer_absolute(layout),
{
    let keys = vec![BTN_LEFT, BTN_MIDDLE, BTN_RIGHT];
    let relative = vec![REL_WHEEL, REL_HWHEEL];
    let absolute = vec![(ABS_X, layout.w - 1), (ABS_Y, layout.h - 1)];
    assert(keys@ =~= pointer_keys());
    assert(relative@ =~= pointer_relative());
    assert(absolute@ =~= pointer_absolute(layout));
    DeviceSpec { name: "desk-agent pointer", keys, relative, absolute }
}

/// The keyboard, with every key that has a name.
pub fn keyboard_device() -> (d: DeviceSpec)
    ensures
        d.name@ == "desk-agent keyboard"@,
        d.keys@ == keyboard_keys(),
        d.relative@.len() == 0,
        d.absolute@.len() == 0,
{
    let table = keymap();
    let mut keys: Vec<u16> = Vec::new();
    let mut i: usize = 0;
    while i < table.len()
        invariant
            i <= table@.len(),
            table@.len() == key_table().len(),
            forall|j: int| 0 <= j < table@.len() ==> (#[trigger] table@[j]).1 == key_table()[j].1,
            keys@ == keyboard_keys().take(i as int),
        decreases table@.len() - i,
    {
        assert(table@[i as int].1 == key_table()[i as int].1);
        keys.push(table[i].1);
        assert(keys@ =~= keyboard_keys().take(i + 1));
        i += 1;
    }
    assert(keyboard_keys().take(i as int) =~= keyboard_keys());
    DeviceSpec {
        name: "desk-agent keyboard",
        keys,
        relative: Vec::new(),
        absolute: Vec::new(),
    }
}

/// The device that a key or button code is sent to.
pub fn device_for(code: u16) -> (d: Device)
    ensures
        d == device_of(code),
{
    if code == BTN_LEFT || code == BTN_MIDDLE || code == BTN_RIGHT {
        Device::Pointer
    } else {
        Device::Keyboard
    }
}

fn key_change(code: u16, down: bool) -> (e: Event)
    ensures
        e == key_event(code, down),
{
    Event {
        kind: EV_KEY,
        code,
        value: if down {
            1
        } else {
            0
        },
    }
}

/// What the wheel reports for detents that scroll down: it counts upwards.
pub open spec fn wheel_value(sy: i32) -> i32 {
    if sy == i32::MIN {
        i32::MAX
    } else {
        (-sy) as i32
    }
}

/// What a message calls for.
pub open spec fn calls_for(
    layout: Rect,
    monitor: Rect,
    held: Set<u16>,
    msg: InputMsg,
    action: Action,
) -> bool {
    match msg {
        InputMsg::Move { dx, dy } => {
            let p = placed(layout, monitor, dx, dy);
            action matches Action::Emit { device, events, change } && device == Device::Pointer
                && change is None && events@ == seq![
                Event { kind: EV_ABS, code: ABS_X, value: p.0 as i32 },
                Event { kind: EV_ABS, code: ABS_Y, value: p.1 as i32 },
            ]
        },
        InputMsg::Button { b, d } => match button_code(b) {
            Some(code) => action matches Action::Emit { device, events, change } && device
                == Device::Pointer && change == Some((code, d)) && events@ == seq![
                key_event(code, d),
            ],
            None => action is Nothing,
        },
        InputMsg::Wheel { sx, sy } => {
            let down = Event { kind: EV_REL, code: REL_WHEEL, value: wheel_value(sy) };
            let across = Event { kind: EV_REL, code: REL_HWHEEL, value: sx };
            if sx == 0 && sy == 0 {
                action is Nothing
            } else {
                action matches Action::Emit { device, events, change } && device
                    == Device::Pointer && change is None && events@ == if sx == 0 {
                    seq![down]
                } else if sy == 0 {
                    seq![across]
                } else {
                    seq![down, across]
                }
            }
        },
        InputMsg::Key { c, d } => if known_key(c@) {
            exists|code: u16| #[trigger]
                key_has_code(c@, code) && device_of(code) == Device::Keyboard && if d
                    && held.contains(code) {
                    action is Nothing
                } else {
                    action matches Action::Emit { device, events, change } && device
                        == Device::Keyboard && change == Some((code, d)) && events@ == seq![
                        key_event(code, d),
                    ]
                }
        } else {
            action is Nothing
        },
        InputMsg::ReleaseAll => action is Release,
        InputMsg::Heartbeat => action is Nothing,
    }
}

/// The held keys and buttons after a key or button went down or up.
pub open spec fn noted(held: Set<u16>, code: u16, down: bool) -> Set<u16> {
    if down {
        held.insert(code)
    } else {
        held.remove(code)
    }
}

/// The same, in the order in which they went down.
pub open spec fn order_after(order: Seq<u16>, code: u16, down: bool) -> Seq<u16> {
    if !down {
        order.remove_value(code)
    } else if order.contains(code) {
        order
    } else {
        order.push(code)
    }
}

/// The held keys and buttons after a run of changes, nothing being held before.
pub open spec fn held_after(changes: Seq<(u16, bool)>) -> Set<u16>
    decreases changes.len(),
{
    if changes.len() == 0 {
        Set::empty()
    } else {
        noted(held_after(changes.drop_last()), changes.last().0, changes.last().1)
    }
}

/// Translates messages into input events, and knows what is held down.
pub struct Injector {
    layout: Rect,
    monitor: Rect,
    held: Vec<u16>,
}

impl Injector {
    /// The bounding box of all monitors.
    pub closed spec fn layout(&self) -> Rect {
        self.layout
    }

    /// The captured monitor.
    pub closed spec fn monitor(&self) -> Rect {
        self.monitor
    }

    /// The codes that are held, in the order in which they went down.
    pub closed spec fn order(&self) -> Seq<u16> {
        self.held@
    }

    /// The codes that are held.
    pub open spec fn held(&self) -> Set<u16> {
        self.order().to_set()
    }

    /// That nothing is held twice.
    pub open spec fn wf(&self) -> bool {
        self.order().no_duplicates()
    }

    /// Nothing is held at first.
    pub fn new(layout: Rect, monitor: Rect) -> (inj: Injector)
        ensures
            inj.wf(),
            inj.layout() == layout,
            inj.monitor() == monitor,
            inj.held() == Set::<u16>::empty(),
            inj.order() == Seq::<u16>::empty(),
    {
        let inj = Injector { layout, monitor, held: Vec::new() };
        assert(inj.held() =~= Set::empty());
        inj
    }

    /// The bounding box of all monitors, and the captured monitor.
    pub fn areas(&self) -> (r: (Rect, Rect))
        ensures
            r.0 == self.layout(),
            r.1 == self.monitor(),
    {
        (self.layout, self.monitor)
    }

    /// Whether a key or button is held.
    pub fn holds(&self, code: u16) -> (b: bool)
        ensures
            b == self.held().contains(code),
    {
        let mut i: usize = 0;
        while i < self.held.len()
            invariant
                i <= self.held@.len(),
                forall|j: int| 0 <= j < i ==> self.held@[j] != code,
            decreases self.held@.len() - i,
        {
            if self.held[i] == code {
                assert(self.order()[i as int] == code);
                return true;
            }
            i += 1;
        }
        false
    }

    /// What a message calls for. A repeated "down" of a held key calls for nothing: the desktop
    /// repeats keys itself.
    pub fn handle(&self, msg: InputMsg) -> (action: Action)
        requires
            msg matches InputMsg::Move { dx, dy } ==> in_range(
                self.layout(),
                self.monitor(),
                dx,
                dy,
            ),
        ensures
            calls_for(self.layout(), self.monitor(), self.held(), msg, action),
    {
        match msg {
            InputMsg::Move { dx, dy } => {
                let p = place_point(self.layout, self.monitor, dx, dy);
                let events = vec![
                    Event { kind: EV_ABS, code: ABS_X, value: p.0 },
                    Event { kind: EV_ABS, code: ABS_Y, value: p.1 },
                ];
                assert(events@ =~= seq![
                    Event { kind: EV_ABS, code: ABS_X, value: p.0 },
                    Event { kind: EV_ABS, code: ABS_Y, value: p.1 },
                ]);
                Action::Emit { device: Device::Pointer, events, change: None }
            },
            InputMsg::Button { b, d } => {
                let code: u16 = if b == 0 {
                    BTN_LEFT
                } else if b == 1 {
                    BTN_MIDDLE
                } else if b == 2 {
                    BTN_RIGHT
                } else {
                    return Action::Nothing;
                };
                let events = vec![key_change(code, d)];
                assert(events@ =~= seq![key_event(code, d)]);
                Action::Emit { device: Device::Pointer, events, change: Some((code, d)) }
            },
            InputMsg::Wheel { sx, sy } => {
                let mut events: Vec<Event> = Vec::new();
                if sy != 0 {
                    let value: i32 = if sy == i32::MIN {
                        i32::MAX
                    } else {
                        -sy
                    };
                    events.push(Event { kind: EV_REL, code: REL_WHEEL, value });
                }
                if sx != 0 {
                    events.push(Event { kind: EV_REL, code: REL_HWHEEL, value: sx });
                }
                if events.len() == 0 {
                    Action::Nothing
                } else {
                    assert(sx == 0 || sy == 0 ==> events@ =~= seq![events@[0]]);
                    assert(sx != 0 && sy != 0 ==> events@ =~= seq![events@[0], events@[1]]);
                    Action::Emit { device: Device::Pointer, events, change: None }
                }
            },
            InputMsg::Key { c, d } => {
                match keycode(&c) {
                    Some(code) => {
                        assert(key_has_code(c@, code));
                        proof {
                            code_means_known(c@, code);
                        }
                        if d && self.holds(code) {
                            Action::Nothing
                        } else {
                            let events = vec![key_change(code, d)];
                            assert(events@ =~= seq![key_event(code, d)]);
                            Action::Emit {
                                device: Device::Keyboard,
                                events,
                                change: Some((code, d)),
                            }
                        }
                    },
                    None => Action::Nothing,
                }
            },
            InputMsg::ReleaseAll => Action::Release,
            InputMsg::Heartbeat => Action::Nothing,
        }
    }

    /// Takes note of a key or button whose event has been sent.
    pub fn track(&mut self, code: u16, down: bool)
        requires
            old(self).wf(),
        ensures
            final(self).wf(),
            final(self).layout() == old(self).layout(),
            final(self).monitor() == old(self).monitor(),
            final(self).held() == noted(old(self).held(), code, down),
            final(self).order() == order_after(old(self).order(), code, down),
    {
        let mut i: usize = 0;
        while i < self.held.len() && self.held[i] != code
            invariant
                *self == *old(self),
                i <= self.held@.len(),
                forall|j: int| 0 <= j < i ==> self.held@[j] != code,
            decreases self.held@.len() - i,
        {
            i += 1;
        }
        let ghost before = self.held@;
        proof {
            before.index_of_first_ensures(code);
        }
        if i < self.held.len() {
            assert(before[i as int] == code);
            if !down {
                self.held.remove(i);
                proof {
                    removing_drops(before, i as int);
                    assert(self.held() =~= before.to_set().remove(code));
                }
            } else {
                assert(self.held() =~= before.to_set().insert(code));
            }
        } else {
            assert(!before.contains(code));
            if down {
                self.held.push(code);
                proof {
                    let after = self.held@;
                    assert(after == before.push(code));
                    assert forall|c: u16| after.to_set().contains(c) implies
                        before.to_set().insert(code).contains(c) by {
                        let k = choose|k: int| 0 <= k < after.len() && after[k] == c;
                        if k < before.len() {
                            assert(before[k] == c);
                        }
                    }
                    assert forall|c: u16| before.to_set().insert(code).contains(c) implies
                        after.to_set().contains(c) by {
                        if c == code {
                            assert(after[before.len() as int] == c);
                        } else {
                            let k = choose|k: int| 0 <= k < before.len() && before[k] == c;
                            assert(after[k] == c);
                        }
                    }
                    assert(self.held() =~= before.to_set().insert(code));
                }
            } else {
                assert(self.held() =~= before.to_set().remove(code));
            }
        }
    }

    /// Releases every held key and button: the events to send, each with its device. From then on
    /// nothing is held. Safe to call at any time.
    pub fn release_all(&mut self) -> (events: Vec<(Device, Event)>)
        requires
            old(self).wf(),
        ensures
            final(self).wf(),
            final(self).layout() == old(self).layout(),
            final(self).monitor() == old(self).monitor(),
            final(self).held() == Set::<u16>::empty(),
            final(self).order() == Seq::<u16>::empty(),
            events@ == released(old(self).order()),
    {
        let mut events: Vec<(Device, Event)> = Vec::new();
        let mut i: usize = 0;
        while i < self.held.len()
            invariant
                *self == *old(self),
                i <= self.held@.len(),
                events@ == released(self.held@.take(i as int)),
            decreases self.held@.len() - i,
        {
            let code: u16 = self.held[i];
            events.push((device_for(code), key_change(code, false)));
            assert(events@ =~= released(self.held@.take(i + 1)));
            i += 1;
        }
        assert(self.held@.take(i as int) =~= self.held@);
        self.held = Vec::new();
        assert(self.held() =~= Set::empty());
        events
    }

    /// Turns to another monitor, once everything that is held has been released.
    pub fn set_monitor(&mut self, monitor: Rect) -> (events: Vec<(Device, Event)>)
        requires
            old(self).wf(),
        ensures
            final(self).wf(),
            final(self).layout() == old(self).layout(),
            final(self).monitor() == monitor,
            final(self).held() == Set::<u16>::empty(),
            final(self).order() == Seq::<u16>::empty(),
            events@ == released(old(self).order()),
    {
        let events = self.release_all();
        self.monitor = monitor;
        assert(self.held() =~= Set::empty());
        events
    }
}

/// The events that release keys and buttons, each with its device.
pub open spec fn released(codes: Seq<u16>) -> Seq<(Device, Event)> {
    codes.map_values(|code: u16| (device_of(code), key_event(code, false)))
}

proof fn code_means_known(name: Seq<char>, code: u16)
    requires
        key_has_code(name, code),
    ensures
        known_key(name),
{
    let i = choose|i: int|
        0 <= i < key_table().len() && #[trigger] key_table()[i] == (
            name,
            code,
        );
    assert(key_table()[i].0 == name);
}

proof fn removing_drops(s: Seq<u16>, i: int)
    requires
        s.no_duplicates(),
        0 <= i < s.len(),
    ensures
        s.remove(i).no_duplicates(),
        s.remove(i).to_set() == s.to_set().remove(s[i]),
{
    let r = s.remove(i);
    assert forall|c: u16| r.to_set().contains(c) implies s.to_set().remove(s[i]).contains(c) by {
        let k = choose|k: int| 0 <= k < r.len() && r[k] == c;
        if k < i {
            assert(s[k] == c);
        } else {
            assert(s[k + 1] == c);
        }
    }
    assert forall|c: u16| s.to_set().remove(s[i]).contains(c) implies r.to_set().contains(c) by {
        let k = choose|k: int| 0 <= k < s.len() && s[k] == c;
        if k < i {
            assert(r[k] == c);
        } else {
            assert(r[k - 1] == c);
        }
    }
    assert(r.to_set() =~= s.to_set().remove(s[i]));
}

/// A key is held exactly if it went down and has not come up since.
pub proof fn held_until_released(changes: Seq<(u16, bool)>, code: u16)
    ensures
        held_after(changes).contains(code) <==> exists|i: int|
            0 <= i < changes.len() && #[trigger] changes[i] == (code, true) && forall|j: int|
                i < j < changes.len() ==> #[trigger] changes[j] != (code, false),
    decreases changes.len(),
{
    if changes.len() > 0 {
        let before = changes.drop_last();
        let n = changes.len() - 1;
        held_until_released(before, code);
        if held_after(changes).contains(code) {
            if changes.last() == (code, true) {
                assert(changes[n] == (code, true));
            } else {
                let i = choose|i: int|
                    0 <= i < before.len() && #[trigger] before[i] == (code, true) && forall|j: int|
                        i < j < before.len() ==> #[trigger] before[j] != (code, false);
                assert(changes[i] == (code, true));
                assert forall|j: int| i < j < changes.len() implies #[trigger] changes[j] != (
                    code,
                    false,
                ) by {
                    if j < n {
                        assert(before[j] == changes[j]);
                    }
                }
            }
        }
        if exists|i: int|
            0 <= i < changes.len() && #[trigger] changes[i] == (code, true) && forall|j: int|
                i < j < changes.len() ==> #[trigger] changes[j] != (code, false) {
            let i = choose|i: int|
                0 <= i < changes.len() && #[trigger] changes[i] == (code, true) && forall|j: int|
                    i < j < changes.len() ==> #[trigger] changes[j] != (code, false);
            if i < n {
                assert(before[i] == (code, true));
                assert forall|j: int| i < j < before.len() implies #[trigger] before[j] != (
                    code,
                    false,
                ) by {
                    assert(changes[j] == before[j]);
                }
                assert(changes[n] != (code, false));
            }
        }
    }
}

/// Releasing everything sends one "up" for each held key or button and nothing else, on the device
/// that the key or button went down on.
pub proof fn release_covers_what_is_held(order: Seq<u16>, code: u16)
    ensures
        order.to_set().contains(code) <==> released(order).contains(
            (device_of(code), key_event(code, false)),
        ),
        forall|i: int|
            0 <= i < released(order).len() ==> (#[trigger] released(order)[i]).1 == key_event(
                order[i],
                false,
            ) && released(order)[i].0 == device_of(order[i]),
        released(order).len() == order.len(),
{
    if order.to_set().contains(code) {
        let i = choose|i: int| 0 <= i < order.len() && order[i] == code;
        assert(released(order)[i] == (device_of(code), key_event(code, false)));
    }
    if released(order).contains((device_of(code), key_event(code, false))) {
        let i = choose|i: int|
            0 <= i < released(order).len() && released(order)[i] == (
                device_of(code),
                key_event(code, false),
            );
        assert(order[i] == code);
    }
}

/// Whatever an action presses, it presses on the device that releasing will address.
pub proof fn presses_and_releases_agree(
    layout: Rect,
    monitor: Rect,
    held: Set<u16>,
    msg: InputMsg,
    action: Action,
)
    requires
        calls_for(layout, monitor, held, msg, action),
    ensures
        action matches Action::Emit { device, events, change } ==> (change matches Some((code, down))
            ==> device == device_of(code)),
{
}

/// Whatever a message makes a device send, the device has declared.
pub proof fn devices_can_send_what_they_are_sent(
    layout: Rect,
    monitor: Rect,
    held: Set<u16>,
    msg: InputMsg,
    action: Action,
)
    requires
        calls_for(layout, monitor, held, msg, action),
        layout.w >= 1,
        layout.h >= 1,
    ensures
        action matches Action::Emit { device, events, change } ==> forall|i: int|
            0 <= i < events@.len() ==> match device {
                Device::Pointer => can_send(
                    pointer_keys(),
                    pointer_relative(),
                    pointer_absolute(layout),
                    #[trigger] events@[i],
                ),
                Device::Keyboard => can_send(
                    keyboard_keys(),
                    Seq::empty(),
                    Seq::empty(),
                    events@[i],
                ),
            },
{
    let keys = pointer_keys();
    assert(keys[0] == BTN_LEFT && keys[1] == BTN_MIDDLE && keys[2] == BTN_RIGHT);
    let relative = pointer_relative();
    assert(relative[0] == REL_WHEEL && relative[1] == REL_HWHEEL);
    let absolute = pointer_absolute(layout);
    assert(absolute[0].0 == ABS_X && absolute[1].0 == ABS_Y);
    if let InputMsg::Key { c, d } = msg {
        if known_key(c@) && action is Emit {
            let code = choose|code: u16| #[trigger]
                key_has_code(c@, code) && device_of(code) == Device::Keyboard && if d
                    && held.contains(code) {
                    action is Nothing
                } else {
                    action matches Action::Emit { device, events, change } && device
                        == Device::Keyboard && change == Some((code, d)) && events@ == seq![
                        key_event(code, d),
                    ]
                };
            let k = choose|k: int| 0 <= k < key_table().len() && key_table()[k] == (c@, code);
            assert(keyboard_keys()[k] == code);
        }
    }
}

/// A point of a monitor that lies inside the layout lands on that monitor, at its own pixel.
pub proof fn points_land_on_the_monitor(layout: Rect, monitor: Rect, dx: i32, dy: i32)
    requires
        within(layout, monitor),
        0 <= dx < monitor.w,
        0 <= dy < monitor.h,
    ensures
        placed(layout, monitor, dx, dy) == (monitor.x - layout.x + dx, monitor.y - layout.y + dy),
{
}

/// Wherever the monitor lies, a point stays on the axes.
pub proof fn points_stay_on_the_axes(layout: Rect, monitor: Rect, dx: i32, dy: i32)
    requires
        layout.w >= 1,
        layout.h >= 1,
    ensures
        0 <= placed(layout, monitor, dx, dy).0 < layout.w,
        0 <= placed(layout, monitor, dx, dy).1 < layout.h,
{
}

/// Where the desktop begins makes no difference: layout and monitor moved together place a point
/// alike.
pub proof fn moving_the_desktop_changes_nothing(
    layout: Rect,
    monitor: Rect,
    moved_layout: Rect,
    moved_monitor: Rect,
    by: (int, int),
    dx: i32,
    dy: i32,
)
    requires
        moved_layout.x == layout.x + by.0,
        moved_layout.y == layout.y + by.1,
        moved_layout.w == layout.w,
        moved_layout.h == layout.h,
        moved_monitor.x == monitor.x + by.0,
        moved_monitor.y == monitor.y + by.1,
    ensures
        placed(moved_layout, moved_monitor, dx, dy) == placed(layout, monitor, dx, dy),
        in_range(moved_layout, moved_monitor, dx, dy) == in_range(layout, monitor, dx, dy),
{
}

/// Further right on the monitor is never further left on the axis, nor further down further up, and
/// neither coordinate depends on the other.
pub proof fn points_keep_their_order(
    layout: Rect,
    monitor: Rect,
    dx: i32,
    dy: i32,
    further_x: i32,
    further_y: i32,
)
    requires
        dx <= further_x,
        dy <= further_y,
        layout.w >= 1,
        layout.h >= 1,
    ensures
        placed(layout, monitor, dx, dy).0 <= placed(layout, monitor, further_x, dy).0,
        placed(layout, monitor, dx, dy).1 <= placed(layout, monitor, dx, further_y).1,
        placed(layout, monitor, dx, further_y).0 == placed(layout, monitor, dx, dy).0,
        placed(layout, monitor, further_x, dy).1 == placed(layout, monitor, dx, dy).1,
{
}

/// Each mouse button is sent under its own code, by the pointer, as one event that says whether it
/// went down or up, and is noted under that code: left is 0x110, middle 0x112, right 0x111. Any other
/// number is no button and calls for nothing.
pub proof fn buttons_have_their_codes(
    layout: Rect,
    monitor: Rect,
    held: Set<u16>,
    b: u8,
    d: bool,
    action: Action,
)
    requires
        calls_for(layout, monitor, held, (InputMsg::Button { b, d }), action),
    ensures
        b > 2 <==> action is Nothing,
        b <= 2 ==> (action matches Action::Emit { device, events, change } && device is Pointer
            && events@.len() == 1 && events@[0].kind == 1 && events@[0].value == (if d {
            1int
        } else {
            0int
        }) && change == Some((events@[0].code, d)) && events@[0].code == (if b == 0 {
            0x110int
        } else if b == 1 {
            0x112int
        } else {
            0x111int
        })),
{
}

/// No two buttons are sent under one code.
pub proof fn buttons_are_told_apart(
    layout: Rect,
    monitor: Rect,
    held: Set<u16>,
    b: u8,
    other: u8,
    d: bool,
    first: Action,
    second: Action,
)
    requires
        calls_for(layout, monitor, held, (InputMsg::Button { b, d }), first),
        calls_for(layout, monitor, held, (InputMsg::Button { b: other, d }), second),
        first is Emit,
        second is Emit,
    ensures
        first->change == second->change <==> b == other,
{
}

/// A key that has a name is sent under its code, by the keyboard, as one event that says whether it
/// went down or up, and is noted under that code. One that is held already does not go down again. A
/// name of no key calls for nothing.
pub proof fn keys_are_sent_by_name(
    layout: Rect,
    monitor: Rect,
    held: Set<u16>,
    c: String,
    d: bool,
    action: Action,
    k: int,
)
    requires
        calls_for(layout, monitor, held, (InputMsg::Key { c, d }), action),
    ensures
        (forall|j: int| 0 <= j < key_table().len() ==> (#[trigger] key_table()[j]).0 != c@)
            ==> action is Nothing,
        0 <= k < key_table().len() && key_table()[k].0 == c@ ==> {
            let code = key_table()[k].1;
            if d && held.contains(code) {
                action is Nothing
            } else {
                action matches Action::Emit { device, events, change } && device is Keyboard
                    && change == Some((code, d)) && events@.len() == 1 && events@[0].kind == 1
                    && events@[0].code == code && events@[0].value == (if d {
                    1int
                } else {
                    0int
                })
            }
        },
{
    if 0 <= k < key_table().len() && key_table()[k].0 == c@ {
        assert(known_key(c@));
        assert forall|code: u16| #[trigger] key_has_code(c@, code) implies code
            == key_table()[k].1 by {
            let i = choose|i: int|
                0 <= i < key_table().len() && #[trigger] key_table()[i] == (c@, code);
            key_names_are_unique(i, k);
        }
    }
}

/// The wheel counts detents up and to the right: scrolling down is a negative count on axis 8,
/// scrolling to the right a positive one on axis 6. Both are sent by the pointer, the vertical one
/// first, and an axis that does not turn is not mentioned.
pub proof fn the_wheel_counts_detents(
    layout: Rect,
    monitor: Rect,
    held: Set<u16>,
    sx: i32,
    sy: i32,
    action: Action,
)
    requires
        calls_for(layout, monitor, held, (InputMsg::Wheel { sx, sy }), action),
    ensures
        sx == 0 && sy == 0 <==> action is Nothing,
        action is Nothing || action is Emit,
        action matches Action::Emit { device, events, change } ==> {
            &&& device is Pointer
            &&& change is None
            &&& events@.len() == (if sx == 0 || sy == 0 {
                1int
            } else {
                2int
            })
            &&& forall|i: int| 0 <= i < events@.len() ==> (#[trigger] events@[i]).kind == 2
            &&& sy != 0 ==> events@[0].code == 8
            &&& sy != 0 && sy > i32::MIN ==> events@[0].value == -sy
            &&& sy == i32::MIN ==> events@[0].value == i32::MAX
            &&& sx != 0 ==> events@.last().code == 6 && events@.last().value == sx
        },
{
}

/// A point is sent by the pointer as its two absolute axes, 0 across and 1 down. On a monitor inside
/// the layout it is its distance from the corner of the layout; beyond the edges of the layout it
/// stops at them.
pub proof fn points_are_sent_as_axes(
    layout: Rect,
    monitor: Rect,
    held: Set<u16>,
    dx: i32,
    dy: i32,
    action: Action,
)
    requires
        calls_for(layout, monitor, held, (InputMsg::Move { dx, dy }), action),
        layout.w >= 1,
        layout.h >= 1,
    ensures
        action matches Action::Emit { device, events, change } && device is Pointer && change is None
            && events@.len() == 2 && events@[0].kind == 3 && events@[1].kind == 3
            && events@[0].code == 0 && events@[1].code == 1 && {
            let x = monitor.x + dx - layout.x;
            let y = monitor.y + dy - layout.y;
            &&& 0 <= x < layout.w ==> events@[0].value == x
            &&& x < 0 ==> events@[0].value == 0
            &&& x >= layout.w ==> events@[0].value == layout.w - 1
            &&& 0 <= y < layout.h ==> events@[1].value == y
            &&& y < 0 ==> events@[1].value == 0
            &&& y >= layout.h ==> events@[1].value == layout.h - 1
        },
{
}

/// Only a request to release lets everything go, and a sign of life calls for nothing.
pub proof fn only_a_request_releases(
    layout: Rect,
    monitor: Rect,
    held: Set<u16>,
    msg: InputMsg,
    action: Action,
)
    requires
        calls_for(layout, monitor, held, msg, action),
    ensures
        action is Release <==> msg is ReleaseAll,
        msg is Heartbeat ==> action is Nothing,
{
}

/// What is released goes up, in the order in which it went down: each code by one event of value
/// zero, the three mouse buttons by the pointer and everything else by the keyboard.
pub proof fn released_keys_go_up(order: Seq<u16>, i: int)
    requires
        0 <= i < order.len(),
    ensures
        released(order).len() == order.len(),
        released(order)[i].1.kind == 1,
        released(order)[i].1.code == order[i],
        released(order)[i].1.value == 0,
        released(order)[i].0 is Pointer <==> 0x110 <= order[i] <= 0x112,
{
}

/// The held keys keep their order: one that goes down comes last, one that is down already stays where
/// it is, and one that comes up leaves the others as they were.
pub proof fn held_keys_keep_their_order(order: Seq<u16>, code: u16, i: int)
    requires
        order.no_duplicates(),
    ensures
        !order.contains(code) ==> order_after(order, code, true) == order + seq![code],
        order.contains(code) ==> order_after(order, code, true) == order,
        !order.contains(code) ==> order_after(order, code, false) == order,
        0 <= i < order.len() && order[i] == code ==> order_after(order, code, false) == order.take(i)
            + order.skip(i + 1),
        !order.contains(code) ==> order_after(order_after(order, code, true), code, false) == order,
{
    order.index_of_first_ensures(code);
    if 0 <= i < order.len() && order[i] == code {
        assert(order.index_of_first(code) == Some(i));
        assert(order.remove(i) =~= order.take(i) + order.skip(i + 1));
    }
    if !order.contains(code) {
        let pressed = order.push(code);
        pressed.index_of_first_ensures(code);
        assert(pressed[order.len() as int] == code);
        let k = pressed.index_of_first(code)->0;
        assert(k == order.len()) by {
            if k < order.len() {
                assert(order[k] == code);
            }
        }
        assert(pressed.remove(k) =~= order);
    }
}

/// A change concerns its own code alone: it is held afterwards exactly if it went down.
pub proof fn changes_concern_one_code(held: Set<u16>, code: u16, down: bool, other: u16)
    ensures
        noted(held, code, down).contains(code) == down,
        other != code ==> noted(held, code, down).contains(other) == held.contains(other),
{
}

/// The pointer declares its three buttons, both wheels, and axes that end at the last pixel of the
/// layout; the keyboard declares every key that has a name.
pub proof fn devices_declare_what_they_have(layout: Rect, i: int)
    requires
        layout.w >= 1,
        layout.h >= 1,
    ensures
        pointer_keys().to_set() == set![0x110u16, 0x111u16, 0x112u16],
        pointer_relative().to_set() == set![6u16, 8u16],
        pointer_absolute(layout) == seq![(0u16, (layout.w - 1) as i32), (1u16, (layout.h - 1) as i32)],
        keyboard_keys().len() == key_table().len(),
        0 <= i < key_table().len() ==> keyboard_keys()[i] == key_table()[i].1,
{
    let keys = pointer_keys();
    assert(keys[0] == 0x110 && keys[1] == 0x112 && keys[2] == 0x111);
    assert(keys.to_set() =~= set![0x110u16, 0x111u16, 0x112u16]);
    let relative = pointer_relative();
    assert(relative[0] == 8 && relative[1] == 6);
    assert(relative.to_set() =~= set![6u16, 8u16]);
}

/// On a layout of ordinary size that has pixels, every ordinary point can be placed; on one without
/// pixels none can. What stands in the way is only that 32 bits hold the distances.
pub proof fn ordinary_points_can_be_placed(layout: Rect, monitor: Rect, dx: i32, dy: i32)
    ensures
        layout.w >= 1 && layout.h >= 1 && -500_000_000 <= layout.x <= 500_000_000 && -500_000_000
            <= layout.y <= 500_000_000 && -500_000_000 <= monitor.x <= 500_000_000 && -500_000_000
            <= monitor.y <= 500_000_000 && -1_000_000_000 <= dx <= 1_000_000_000 && -1_000_000_000
            <= dy <= 1_000_000_000 ==> in_range(layout, monitor, dx, dy),
        layout.w < 1 || layout.h < 1 ==> !in_range(layout, monitor, dx, dy),
        layout.w >= 1 && layout.h >= 1 ==> (in_range(layout, monitor, dx, dy) <==> {
            let x = monitor.x - layout.x;
            let y = monitor.y - layout.y;
            &&& -0x8000_0000 <= x <= 0x7fff_ffff
            &&& -0x8000_0000 <= y <= 0x7fff_ffff
            &&& -0x8000_0000 <= x + dx <= 0x7fff_ffff
            &&& -0x8000_0000 <= y + dy <= 0x7fff_ffff
        }),
{
}

} // verus!
