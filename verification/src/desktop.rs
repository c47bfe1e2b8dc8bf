//! The desktop: its monitors and the space they span, what of the clipboard is passed on, and what
//! is shown on the PC itself, so that a remote session is never silent.

use crate::input::Rect;
use crate::text::{chars_of, join2};
use vstd::prelude::*;
use vstd::utf8::{encode_scalar, encode_utf8};

verus! {

broadcast use vstd::string::group_string_axioms;

/// The most of a clipboard that is passed on, in octets.
pub const CLIPBOARD_MAX: usize = 1_048_576;

/// How long an outside command may take, in milliseconds.
pub const CMD_TIMEOUT_MS: u64 = 2_000;

/// A monitor, in logical pixels of the compositor layout.
#[derive(Debug, Clone, PartialEq)]
pub struct Monitor {
    pub name: String,
    pub x: i32,
    pub y: i32,
    pub width: i32,
    pub height: i32,
}

impl Monitor {
    /// Where the monitor lies.
    pub open spec fn area(&self) -> Rect {
        Rect { x: self.x, y: self.y, w: self.width, h: self.height }
    }

    /// Where the monitor lies.
    pub fn rect(&self) -> (r: Rect)
        ensures
            r == self.area(),
    {
        Rect { x: self.x, y: self.y, w: self.width, h: self.height }
    }
}

/// A monitor's name and place.
pub open spec fn named(m: Monitor) -> (Seq<char>, Rect) {
    (m.name@, m.area())
}

/// The names and places of monitors.
pub open spec fn named_all(mons: Seq<Monitor>) -> Seq<(Seq<char>, Rect)> {
    mons.map_values(|m: Monitor| named(m))
}

/// What monitors are ordered by: from left to right, then from top to bottom.
pub open spec fn corner(m: Monitor) -> (i32, i32) {
    (m.x, m.y)
}

/// Whether one corner comes before another, or is the same.
pub open spec fn not_after(a: (i32, i32), b: (i32, i32)) -> bool {
    a.0 < b.0 || (a.0 == b.0 && a.1 <= b.1)
}

/// Whether monitors stand in order.
pub open spec fn in_order(mons: Seq<Monitor>) -> bool {
    forall|i: int, j: int|
        0 <= i < j < mons.len() ==> not_after(corner(#[trigger] mons[i]), corner(#[trigger] mons[j]))
}

/// The monitors with a given corner, as they follow each other.
pub open spec fn at_corner(mons: Seq<Monitor>, c: (i32, i32)) -> Seq<Monitor> {
    mons.filter(|m: Monitor| corner(m) == c)
}

/// Whether `after` is `before` put in order, monitors with the same corner keeping their order.
pub open spec fn ordered_from(after: Seq<Monitor>, before: Seq<Monitor>) -> bool {
    &&& in_order(after)
    &&& forall|c: (i32, i32)| #[trigger] at_corner(after, c) == at_corner(before, c)
}

proof fn inserting_in_order(done: Seq<Monitor>, m: Monitor, at: int, before: Seq<Monitor>)
    requires
        ordered_from(done, before),
        0 <= at <= done.len(),
        forall|j: int| 0 <= j < at ==> not_after(corner(#[trigger] done[j]), corner(m)),
        forall|j: int| at <= j < done.len() ==> !not_after(corner(#[trigger] done[j]), corner(m)),
    ensures
        ordered_from(done.insert(at, m), before.push(m)),
{
    let after = done.insert(at, m);
    let a = done.take(at);
    let b = done.skip(at);
    assert(after =~= (a + seq![m]) + b);
    assert(done =~= a + b);
    assert forall|i: int, j: int| 0 <= i < j < after.len() implies not_after(
        corner(#[trigger] after[i]),
        corner(#[trigger] after[j]),
    ) by {
        if i < at {
            assert(after[i] == done[i]);
        } else if i > at {
            assert(after[i] == done[i - 1]);
        }
        if j < at {
            assert(after[j] == done[j]);
        } else if j > at {
            assert(after[j] == done[j - 1]);
        }
    }
    assert forall|c: (i32, i32)| #[trigger] at_corner(after, c) == at_corner(
        before.push(m),
        c,
    ) by {
        let p = |x: Monitor| corner(x) == c;
        Seq::filter_distributes_over_add(a + seq![m], b, p);
        Seq::filter_distributes_over_add(a, seq![m], p);
        Seq::filter_distributes_over_add(a, b, p);
        Seq::filter_distributes_over_add(before, seq![m], p);
        assert(before.push(m) =~= before + seq![m]);
        assert(at_corner(done, c) == at_corner(before, c));
        if p(m) {
            assert forall|k: int| 0 <= k < b.len() implies !p(#[trigger] b[k]) by {
                assert(b[k] == done[at + k]);
            }
            b.lemma_all_neg_filter_empty(p);
            assert(b.filter(p) =~= Seq::empty());
        } else {
            assert(seq![m].all(|x: Monitor| !p(x)));
            seq![m].lemma_all_neg_filter_empty(p);
            assert(seq![m].filter(p) =~= Seq::empty());
        }
    }
}

/// Puts monitors in order, from left to right and from top to bottom; those with the same corner
/// keep their order.
pub fn sort_monitors(mons: Vec<Monitor>) -> (sorted: Vec<Monitor>)
    ensures
        ordered_from(sorted@, mons@),
{
    let ghost all = mons@;
    let mut rest = mons;
    let mut sorted: Vec<Monitor> = Vec::new();
    assert forall|c: (i32, i32)| #[trigger] at_corner(sorted@, c) == at_corner(all.take(0), c) by {
        assert(sorted@ =~= all.take(0));
    }
    while rest.len() > 0
        invariant
            sorted@.len() + rest@.len() == all.len(),
            rest@ == all.skip(sorted@.len() as int),
            ordered_from(sorted@, all.take(sorted@.len() as int)),
        decreases rest@.len(),
    {
        let ghost n = sorted@.len() as int;
        let m = rest.remove(0);
        assert(m == all[n]);
        assert(rest@ =~= all.skip(n + 1));
        let mut at: usize = sorted.len();
        while at > 0 && (m.x < sorted[at - 1].x || (m.x == sorted[at - 1].x && m.y < sorted[at
            - 1].y))
            invariant
                at <= sorted@.len(),
                in_order(sorted@),
                forall|j: int|
                    at <= j < sorted@.len() ==> !not_after(corner(#[trigger] sorted@[j]), corner(m)),
            decreases at,
        {
            at -= 1;
        }
        proof {
            if at > 0 {
                assert(not_after(corner(sorted@[at - 1]), corner(m)));
                assert forall|j: int| 0 <= j < at implies not_after(
                    corner(#[trigger] sorted@[j]),
                    corner(m),
                ) by {
                    if j < at - 1 {
                        assert(not_after(corner(sorted@[j]), corner(sorted@[at - 1])));
                    }
                }
            }
            inserting_in_order(sorted@, m, at as int, all.take(n));
            assert(all.take(n).push(m) =~= all.take(n + 1));
        }
        sorted.insert(at, m);
    }
    assert(all.take(all.len() as int) =~= all);
    sorted
}

/// Whether the edges of the monitors can be counted, and how far each lies behind the origin of each.
pub open spec fn countable(mons: Seq<Monitor>) -> bool {
    &&& forall|i: int|
        0 <= i < mons.len() ==> i32::MIN <= (#[trigger] mons[i]).x + mons[i].width <= i32::MAX
            && i32::MIN <= mons[i].y + mons[i].height <= i32::MAX
    &&& forall|i: int, j: int|
        0 <= i < mons.len() && 0 <= j < mons.len() ==> (#[trigger] mons[i]).x + mons[i].width - (
        #[trigger] mons[j]).x <= i32::MAX && mons[i].y + mons[i].height - mons[j].y <= i32::MAX
}

/// Whether the edges of the monitors can be counted, and how far each lies behind the origin of each.
pub fn can_count(mons: &[Monitor]) -> (b: bool)
    ensures
        b == countable(mons@),
{
    let (lo, hi): (i64, i64) = (i32::MIN as i64, i32::MAX as i64);
    let mut i: usize = 0;
    while i < mons.len()
        invariant
            i <= mons@.len(),
            lo == i32::MIN,
            hi == i32::MAX,
            forall|a: int|
                0 <= a < i ==> i32::MIN <= (#[trigger] mons@[a]).x + mons@[a].width <= i32::MAX
                    && i32::MIN <= mons@[a].y + mons@[a].height <= i32::MAX,
            forall|a: int, b: int|
                0 <= a < i && 0 <= b < mons@.len() ==> (#[trigger] mons@[a]).x + mons@[a].width - (
                #[trigger] mons@[b]).x <= i32::MAX && mons@[a].y + mons@[a].height - mons@[b].y
                    <= i32::MAX,
        decreases mons@.len() - i,
    {
        let right: i64 = mons[i].x as i64 + mons[i].width as i64;
        let bottom: i64 = mons[i].y as i64 + mons[i].height as i64;
        if right < lo || right > hi || bottom < lo || bottom > hi {
            assert(mons@[i as int].x + mons@[i as int].width == right);
            assert(mons@[i as int].y + mons@[i as int].height == bottom);
            return false;
        }
        let mut j: usize = 0;
        while j < mons.len()
            invariant
                i < mons@.len(),
                j <= mons@.len(),
                lo == i32::MIN,
                hi == i32::MAX,
                right == mons@[i as int].x + mons@[i as int].width,
                bottom == mons@[i as int].y + mons@[i as int].height,
                lo <= right <= hi,
                lo <= bottom <= hi,
                forall|b: int|
                    0 <= b < j ==> right - (#[trigger] mons@[b]).x <= i32::MAX && bottom
                        - mons@[b].y <= i32::MAX,
            decreases mons@.len() - j,
        {
            let across: i64 = right - mons[j].x as i64;
            let down: i64 = bottom - mons[j].y as i64;
            if across > hi || down > hi {
                assert(mons@[i as int].x + mons@[i as int].width - mons@[j as int].x == across);
                assert(mons@[i as int].y + mons@[i as int].height - mons@[j as int].y == down);
                return false;
            }
            j += 1;
        }
        i += 1;
    }
    true
}

/// Whether `v` is the least of the values of the monitors.
pub open spec fn least(mons: Seq<Monitor>, value: spec_fn(Monitor) -> int, v: int) -> bool {
    &&& exists|i: int| 0 <= i < mons.len() && value(#[trigger] mons[i]) == v
    &&& forall|i: int| 0 <= i < mons.len() ==> v <= value(#[trigger] mons[i])
}

/// Whether `v` is the greatest of the values of the monitors.
pub open spec fn greatest(mons: Seq<Monitor>, value: spec_fn(Monitor) -> int, v: int) -> bool {
    &&& exists|i: int| 0 <= i < mons.len() && value(#[trigger] mons[i]) == v
    &&& forall|i: int| 0 <= i < mons.len() ==> value(#[trigger] mons[i]) <= v
}

/// Whether `r` is the bounding box of the monitors; a desktop without any counts as one of
/// 1920 by 1080 pixels.
pub open spec fn bounding_box(mons: Seq<Monitor>, r: Rect) -> bool {
    if mons.len() == 0 {
        r == (Rect { x: 0, y: 0, w: 1920, h: 1080 })
    } else {
        &&& least(mons, |m: Monitor| m.x as int, r.x as int)
        &&& least(mons, |m: Monitor| m.y as int, r.y as int)
        &&& greatest(mons, |m: Monitor| m.x + m.width, r.x + r.w)
        &&& greatest(mons, |m: Monitor| m.y + m.height, r.y + r.h)
    }
}

/// Bounding box of all monitors (the space the absolute pointer spans).
pub fn layout(mons: &[Monitor]) -> (r: Rect)
    requires
        countable(mons@),
    ensures
        bounding_box(mons@, r),
{
    if mons.len() == 0 {
        return Rect { x: 0, y: 0, w: 1920, h: 1080 };
    }
    let ghost left = |m: Monitor| m.x as int;
    let ghost top = |m: Monitor| m.y as int;
    let ghost right = |m: Monitor| m.x + m.width;
    let ghost bottom = |m: Monitor| m.y + m.height;
    let mut x0: i32 = mons[0].x;
    let mut y0: i32 = mons[0].y;
    let mut x1: i32 = mons[0].x + mons[0].width;
    let mut y1: i32 = mons[0].y + mons[0].height;
    let mut i: usize = 1;
    assert(mons@.take(1)[0] == mons@[0]);
    while i < mons.len()
        invariant
            1 <= i <= mons@.len(),
            countable(mons@),
            left == (|m: Monitor| m.x as int),
            top == (|m: Monitor| m.y as int),
            right == (|m: Monitor| m.x + m.width),
            bottom == (|m: Monitor| m.y + m.height),
            least(mons@.take(i as int), left, x0 as int),
            least(mons@.take(i as int), top, y0 as int),
            greatest(mons@.take(i as int), right, x1 as int),
            greatest(mons@.take(i as int), bottom, y1 as int),
        decreases mons@.len() - i,
    {
        let m = &mons[i];
        proof {
            least_grows(mons@, left, i as int, x0 as int);
            least_grows(mons@, top, i as int, y0 as int);
            greatest_grows(mons@, right, i as int, x1 as int);
            greatest_grows(mons@, bottom, i as int, y1 as int);
        }
        if m.x < x0 {
            x0 = m.x;
        }
        if m.y < y0 {
            y0 = m.y;
        }
        if m.x + m.width > x1 {
            x1 = m.x + m.width;
        }
        if m.y + m.height > y1 {
            y1 = m.y + m.height;
        }
        i += 1;
    }
    assert(mons@.take(i as int) =~= mons@);
    proof {
        let a = choose|a: int| 0 <= a < mons@.len() && left(#[trigger] mons@[a]) == x0;
        let b = choose|b: int| 0 <= b < mons@.len() && right(#[trigger] mons@[b]) == x1;
        let c = choose|c: int| 0 <= c < mons@.len() && top(#[trigger] mons@[c]) == y0;
        let d = choose|d: int| 0 <= d < mons@.len() && bottom(#[trigger] mons@[d]) == y1;
        assert(mons@[b].x + mons@[b].width - mons@[a].x <= i32::MAX);
        assert(mons@[d].y + mons@[d].height - mons@[c].y <= i32::MAX);
        assert(right(mons@[a]) <= x1 && mons@[a].width >= i32::MIN);
        assert(bottom(mons@[c]) <= y1 && mons@[c].height >= i32::MIN);
    }
    Rect { x: x0, y: y0, w: x1 - x0, h: y1 - y0 }
}

proof fn least_grows(mons: Seq<Monitor>, value: spec_fn(Monitor) -> int, n: int, v: int)
    requires
        0 < n < mons.len(),
        least(mons.take(n), value, v),
    ensures
        least(
            mons.take(n + 1),
            value,
            if value(mons[n]) < v {
                value(mons[n])
            } else {
                v
            },
        ),
{
    let i = choose|i: int| 0 <= i < n && value(#[trigger] mons.take(n)[i]) == v;
    let longer = mons.take(n + 1);
    assert(longer[i] == mons.take(n)[i]);
    assert(longer[n] == mons[n]);
    assert forall|k: int| 0 <= k < n implies v <= value(#[trigger] longer[k]) by {
        assert(longer[k] == mons.take(n)[k]);
    }
}

proof fn greatest_grows(mons: Seq<Monitor>, value: spec_fn(Monitor) -> int, n: int, v: int)
    requires
        0 < n < mons.len(),
        greatest(mons.take(n), value, v),
    ensures
        greatest(
            mons.take(n + 1),
            value,
            if value(mons[n]) > v {
                value(mons[n])
            } else {
                v
            },
        ),
{
    let i = choose|i: int| 0 <= i < n && value(#[trigger] mons.take(n)[i]) == v;
    let longer = mons.take(n + 1);
    assert(longer[i] == mons.take(n)[i]);
    assert(longer[n] == mons[n]);
    assert forall|k: int| 0 <= k < n implies value(#[trigger] longer[k]) <= v by {
        assert(longer[k] == mons.take(n)[k]);
    }
}

/// Whether `r` is the longest beginning of `s` that has at most `max` octets.
pub open spec fn longest_beginning(s: Seq<char>, max: nat, r: Seq<char>) -> bool {
    &&& r.len() <= s.len()
    &&& r == s.take(r.len() as int)
    &&& encode_utf8(r).len() <= max
    &&& r.len() < s.len() ==> encode_utf8(s.take(r.len() as int + 1)).len() > max
}

proof fn encoding_grows(s: Seq<char>, c: char)
    ensures
        encode_utf8(s.push(c)) == encode_utf8(s) + encode_scalar(c as u32),
    decreases s.len(),
{
    let t = s.push(c);
    if s.len() == 0 {
        assert(t.drop_first() =~= Seq::empty());
        assert(encode_utf8(t.drop_first()) =~= Seq::empty());
        assert(encode_utf8(t) =~= encode_utf8(s) + encode_scalar(c as u32));
    } else {
        encoding_grows(s.drop_first(), c);
        assert(t.drop_first() =~= s.drop_first().push(c));
        assert(encode_utf8(t) =~= encode_utf8(s) + encode_scalar(c as u32));
    }
}

/// How many octets a character takes.
fn width(c: char) -> (n: usize)
    ensures
        n == encode_scalar(c as u32).len(),
        n <= 4,
{
    let v: u32 = c as u32;
    if v < 0x80 {
        1
    } else if v < 0x800 {
        2
    } else if v < 0x10000 {
        3
    } else {
        4
    }
}

/// The text, cut at the last character boundary within the clipboard's limit.
pub fn clipped(text: &str) -> (r: String)
    ensures
        longest_beginning(text@, CLIPBOARD_MAX as nat, r@),
{
    let chars = chars_of(text);
    let mut r = String::new();
    let mut used: usize = 0;
    let mut i: usize = 0;
    while i < chars.len()
        invariant
            chars@ == text@,
            i <= chars@.len(),
            r@ == text@.take(i as int),
            used == encode_utf8(r@).len(),
            used <= CLIPBOARD_MAX,
        decreases chars@.len() - i,
    {
        let n: usize = width(chars[i]);
        proof {
            encoding_grows(r@, chars@[i as int]);
            assert(text@.take(i + 1) =~= r@.push(chars@[i as int]));
        }
        if n > CLIPBOARD_MAX - used {
            return r;
        }
        r.push(chars[i]);
        used += n;
        i += 1;
    }
    r
}

/// The text that octets are meant to be, with U+FFFD in place of what is not UTF-8.
pub uninterp spec fn lossy_text(bytes: Seq<u8>) -> Seq<char>;

/// `String::from_utf8_lossy` turns octets into text, with U+FFFD in place of what is not UTF-8.
#[verifier::external_body]
fn lossy(bytes: &[u8]) -> (text: String)
    ensures
        text@ == lossy_text(bytes@),
{
    String::from_utf8_lossy(bytes).into_owned()
}

/// The clipboard, from what the command that reads it printed.
pub fn clipboard_text(output: &[u8]) -> (r: String)
    ensures
        longest_beginning(lossy_text(output@), CLIPBOARD_MAX as nat, r@),
{
    clipped(&lossy(output))
}

/// Whether a text may be put on the clipboard.
pub fn clipboard_fits(text: &str) -> (b: bool)
    ensures
        b == (encode_utf8(text@).len() <= CLIPBOARD_MAX),
{
    text.as_bytes().len() <= CLIPBOARD_MAX
}

/// What is shown when a session starts: a summary and a text.
pub fn started_notice(host: &str) -> (n: (&'static str, String))
    ensures
        n.0@ == "Remote session started"@,
        n.1@ == "Someone is viewing and controlling this PC via "@ + host@,
{
    ("Remote session started", join2("Someone is viewing and controlling this PC via ", host))
}

/// What is shown when a session has ended: a summary and a text.
pub fn ended_notice(host: &str) -> (n: (&'static str, String))
    ensures
        n.0@ == "Remote session ended"@,
        n.1@ == host@ + " viewer disconnected"@,
{
    ("Remote session ended", join2(host, " viewer disconnected"))
}

/// Every monitor of a desktop that has some lies inside the bounding box.
pub proof fn the_box_holds_every_monitor(mons: Seq<Monitor>, r: Rect, i: int)
    requires
        bounding_box(mons, r),
        0 <= i < mons.len(),
    ensures
        crate::input::within(r, mons[i].area()),
{
    let m = mons[i];
    assert((|m: Monitor| m.x as int)(m) >= r.x);
    assert((|m: Monitor| m.y as int)(m) >= r.y);
    assert((|m: Monitor| m.x + m.width)(m) <= r.x + r.w);
    assert((|m: Monitor| m.y + m.height)(m) <= r.y + r.h);
}

/// No smaller box holds every monitor: whatever holds them holds the bounding box.
pub proof fn the_box_is_the_smallest(mons: Seq<Monitor>, r: Rect, other: Rect)
    requires
        mons.len() > 0,
        bounding_box(mons, r),
        forall|i: int|
            0 <= i < mons.len() ==> crate::input::within(other, (#[trigger] mons[i]).area()),
    ensures
        crate::input::within(other, r),
{
    let left = |m: Monitor| m.x as int;
    let top = |m: Monitor| m.y as int;
    let right = |m: Monitor| m.x + m.width;
    let bottom = |m: Monitor| m.y + m.height;
    assert(least(mons, left, r.x as int));
    assert(least(mons, top, r.y as int));
    assert(greatest(mons, right, r.x + r.w));
    assert(greatest(mons, bottom, r.y + r.h));
    let a = choose|i: int| 0 <= i < mons.len() && left(#[trigger] mons[i]) == r.x;
    let b = choose|i: int| 0 <= i < mons.len() && top(#[trigger] mons[i]) == r.y;
    let c = choose|i: int| 0 <= i < mons.len() && right(#[trigger] mons[i]) == r.x + r.w;
    let d = choose|i: int| 0 <= i < mons.len() && bottom(#[trigger] mons[i]) == r.y + r.h;
    assert(crate::input::within(other, mons[a].area()));
    assert(crate::input::within(other, mons[b].area()));
    assert(crate::input::within(other, mons[c].area()));
    assert(crate::input::within(other, mons[d].area()));
}

/// Whether each monitor of `b` lies where one of `a` does.
pub open spec fn areas_among(b: Seq<Monitor>, a: Seq<Monitor>) -> bool {
    forall|j: int|
        0 <= j < b.len() ==> exists|i: int|
            0 <= i < a.len() && (#[trigger] a[i]).area() == (#[trigger] b[j]).area()
}

proof fn a_box_holds_what_it_holds_already(
    a: Seq<Monitor>,
    b: Seq<Monitor>,
    r: Rect,
    s: Rect,
)
    requires
        b.len() > 0,
        areas_among(b, a),
        bounding_box(a, r),
        bounding_box(b, s),
    ensures
        crate::input::within(r, s),
{
    assert forall|j: int| 0 <= j < b.len() implies crate::input::within(
        r,
        (#[trigger] b[j]).area(),
    ) by {
        let i = choose|i: int| 0 <= i < a.len() && (#[trigger] a[i]).area() == b[j].area();
        the_box_holds_every_monitor(a, r, i);
    }
    the_box_is_the_smallest(b, s, r);
}

/// The bounding box rests on nothing but where monitors lie: names, order and repetition make no
/// difference.
pub proof fn the_box_follows_the_areas(a: Seq<Monitor>, b: Seq<Monitor>, r: Rect, s: Rect)
    requires
        areas_among(a, b),
        areas_among(b, a),
        bounding_box(a, r),
        bounding_box(b, s),
    ensures
        r == s,
{
    if a.len() == 0 {
        if b.len() > 0 {
            assert(b[0].area() == b[0].area());
        }
    } else {
        assert(a[0].area() == a[0].area());
        a_box_holds_what_it_holds_already(a, b, r, s);
        a_box_holds_what_it_holds_already(b, a, s, r);
    }
}

/// One more monitor within the bounding box leaves it as it is.
pub proof fn inner_monitors_change_nothing(mons: Seq<Monitor>, r: Rect, m: Monitor)
    requires
        mons.len() > 0,
        bounding_box(mons, r),
        crate::input::within(r, m.area()),
    ensures
        bounding_box(mons.push(m), r),
{
    least_stays(mons, |m: Monitor| m.x as int, r.x as int, m);
    least_stays(mons, |m: Monitor| m.y as int, r.y as int, m);
    greatest_stays(mons, |m: Monitor| m.x + m.width, r.x + r.w, m);
    greatest_stays(mons, |m: Monitor| m.y + m.height, r.y + r.h, m);
}

proof fn least_stays(mons: Seq<Monitor>, value: spec_fn(Monitor) -> int, v: int, m: Monitor)
    requires
        least(mons, value, v),
        v <= value(m),
    ensures
        least(mons.push(m), value, v),
{
    let i = choose|i: int| 0 <= i < mons.len() && value(#[trigger] mons[i]) == v;
    assert(mons.push(m)[i] == mons[i]);
    assert forall|k: int| 0 <= k < mons.push(m).len() implies v <= value(
        #[trigger] mons.push(m)[k],
    ) by {
        if k < mons.len() {
            assert(mons.push(m)[k] == mons[k]);
        }
    }
}

proof fn greatest_stays(mons: Seq<Monitor>, value: spec_fn(Monitor) -> int, v: int, m: Monitor)
    requires
        greatest(mons, value, v),
        value(m) <= v,
    ensures
        greatest(mons.push(m), value, v),
{
    let i = choose|i: int| 0 <= i < mons.len() && value(#[trigger] mons[i]) == v;
    assert(mons.push(m)[i] == mons[i]);
    assert forall|k: int| 0 <= k < mons.push(m).len() implies value(
        #[trigger] mons.push(m)[k],
    ) <= v by {
        if k < mons.len() {
            assert(mons.push(m)[k] == mons[k]);
        }
    }
}

/// Putting monitors in order loses none and adds none.
pub proof fn ordering_keeps_the_monitors(after: Seq<Monitor>, before: Seq<Monitor>, m: Monitor)
    requires
        ordered_from(after, before),
    ensures
        after.contains(m) <==> before.contains(m),
{
    broadcast use vstd::seq_lib::group_filter_ensures;

    let c = corner(m);
    let p = |x: Monitor| corner(x) == c;
    assert(at_corner(after, c) == at_corner(before, c));
    if after.contains(m) {
        let i = choose|i: int| 0 <= i < after.len() && after[i] == m;
        assert(p(after[i]));
        assert(after.filter(p).contains(after[i]));
        before.lemma_filter_contains_rev(p, m);
    }
    if before.contains(m) {
        let i = choose|i: int| 0 <= i < before.len() && before[i] == m;
        assert(p(before[i]));
        assert(before.filter(p).contains(before[i]));
        after.lemma_filter_contains_rev(p, m);
    }
}

/// A clipboard within the limit is passed on whole.
pub proof fn small_clipboards_are_whole(s: Seq<char>, max: nat, r: Seq<char>)
    requires
        longest_beginning(s, max, r),
        encode_utf8(s).len() <= max,
    ensures
        r == s,
{
    if r.len() < s.len() {
        prefix_is_no_longer(s, r.len() as int + 1);
    } else {
        assert(s.take(s.len() as int) =~= s);
    }
}

proof fn prefix_is_no_longer(s: Seq<char>, n: int)
    requires
        0 <= n <= s.len(),
    ensures
        encode_utf8(s.take(n)).len() <= encode_utf8(s).len(),
    decreases s.len() - n,
{
    if n < s.len() {
        prefix_is_no_longer(s, n + 1);
        assert(s.take(n + 1) =~= s.take(n).push(s[n]));
        encoding_grows(s.take(n), s[n]);
    } else {
        assert(s.take(n) =~= s);
    }
}

/// Put in order, monitors go from left to right, and from top to bottom where they begin equally far
/// left. Each is there as often as before, and those with the same corner follow each other as before.
pub proof fn monitors_go_from_left_to_right(
    after: Seq<Monitor>,
    before: Seq<Monitor>,
    i: int,
    j: int,
    m: Monitor,
    x: i32,
    y: i32,
)
    requires
        ordered_from(after, before),
    ensures
        0 <= i < j < after.len() ==> after[i].x < after[j].x || (after[i].x == after[j].x
            && after[i].y <= after[j].y),
        after.filter(|n: Monitor| n == m) == before.filter(|n: Monitor| n == m),
        after.filter(|n: Monitor| n.x == x && n.y == y) == before.filter(
            |n: Monitor| n.x == x && n.y == y,
        ),
{
    if 0 <= i < j < after.len() {
        assert(not_after(corner(after[i]), corner(after[j])));
    }
    let c = (x, y);
    assert((|n: Monitor| n.x == x && n.y == y) =~= (|n: Monitor| corner(n) == c));
    assert(at_corner(after, c) == at_corner(before, c));
    let d = corner(m);
    assert(at_corner(after, d) == at_corner(before, d));
    filtered_twice(after, d, m);
    filtered_twice(before, d, m);
}

proof fn filtered_twice(mons: Seq<Monitor>, c: (i32, i32), m: Monitor)
    requires
        corner(m) == c,
    ensures
        at_corner(mons, c).filter(|n: Monitor| n == m) == mons.filter(|n: Monitor| n == m),
    decreases mons.len(),
{
    reveal(Seq::filter);
    let is_m = |n: Monitor| n == m;
    let here = |n: Monitor| corner(n) == c;
    if mons.len() > 0 {
        let rest = mons.drop_last();
        let last = mons.last();
        filtered_twice(rest, c, m);
        if here(last) {
            let kept = rest.filter(here);
            assert(mons.filter(here) == kept.push(last));
            assert(kept.push(last).drop_last() =~= kept);
            assert(kept.push(last).last() == last);
        }
    }
}

/// A monitor lies where it says, under its name.
pub proof fn monitors_lie_where_they_say(m: Monitor)
    ensures
        named(m).0 == m.name@,
        named(m).1.x == m.x,
        named(m).1.y == m.y,
        named(m).1.w == m.width,
        named(m).1.h == m.height,
        m.area() == named(m).1,
{
}

/// The bounding box has no room to spare: each of its four edges is that of some monitor, and no
/// monitor reaches beyond one. Without monitors it is 1920 by 1080 at the origin.
pub proof fn the_box_touches_monitors(mons: Seq<Monitor>, r: Rect, i: int)
    requires
        bounding_box(mons, r),
    ensures
        mons.len() == 0 ==> r.x == 0 && r.y == 0 && r.w == 1920 && r.h == 1080,
        mons.len() > 0 ==> (exists|k: int| 0 <= k < mons.len() && (#[trigger] mons[k]).x == r.x),
        mons.len() > 0 ==> (exists|k: int| 0 <= k < mons.len() && (#[trigger] mons[k]).y == r.y),
        mons.len() > 0 ==> (exists|k: int|
            0 <= k < mons.len() && (#[trigger] mons[k]).x + mons[k].width == r.x + r.w),
        mons.len() > 0 ==> (exists|k: int|
            0 <= k < mons.len() && (#[trigger] mons[k]).y + mons[k].height == r.y + r.h),
        0 <= i < mons.len() ==> r.x <= mons[i].x && r.y <= mons[i].y && mons[i].x + mons[i].width
            <= r.x + r.w && mons[i].y + mons[i].height <= r.y + r.h,
{
}

/// Only one beginning of a clipboard is the longest within the limit, which is one mebioctet.
pub proof fn one_beginning_is_the_longest(s: Seq<char>, max: nat, r: Seq<char>, other: Seq<char>)
    requires
        longest_beginning(s, max, r),
        other.len() <= s.len(),
        other == s.take(other.len() as int),
        encode_utf8(other).len() <= max,
    ensures
        other.len() <= r.len(),
        other == r.take(other.len() as int),
        r == s.take(r.len() as int),
        encode_utf8(r).len() <= max,
        CLIPBOARD_MAX == 1024 * 1024,
        CMD_TIMEOUT_MS == 2 * 1000,
{
    if other.len() > r.len() {
        let n = r.len() as int + 1;
        let longer = s.take(n);
        assert(other.take(n) =~= longer);
        prefix_is_no_longer(other, n);
    }
    assert(r.take(other.len() as int) =~= other);
}

/// Every desktop of ordinary size can be counted: where no corner lies, and no monitor measures, more
/// than half a thousand million pixels.
pub proof fn ordinary_desktops_can_be_counted(mons: Seq<Monitor>)
    requires
        forall|i: int|
            0 <= i < mons.len() ==> -500_000_000 <= (#[trigger] mons[i]).x <= 500_000_000
                && -500_000_000 <= mons[i].y <= 500_000_000 && -500_000_000 <= mons[i].width
                <= 500_000_000 && -500_000_000 <= mons[i].height <= 500_000_000,
    ensures
        countable(mons),
{
}

/// A desktop can be counted exactly if no edge lies beyond what 32 bits can hold, nor further than that
/// behind the corner of any of its monitors.
pub proof fn counted_desktops_fit(mons: Seq<Monitor>)
    ensures
        countable(mons) <==> forall|i: int, j: int|
            0 <= i < mons.len() && 0 <= j < mons.len() ==> {
                let right = (#[trigger] mons[i]).x + mons[i].width;
                let bottom = mons[i].y + mons[i].height;
                &&& -0x8000_0000 <= right <= 0x7fff_ffff
                &&& -0x8000_0000 <= bottom <= 0x7fff_ffff
                &&& right - (#[trigger] mons[j]).x <= 0x7fff_ffff
                &&& bottom - mons[j].y <= 0x7fff_ffff
            },
{
}

} // verus!
