//! The payload of a signed token: a JSON object in base64, whose members are the claims.

use crate::sessions::{base64_char, base64_url, octet_or_zero, sextet};
use crate::text::{chars_of, cutting_undoes_joining, opt_view, piece_end, pieces, same, text_of};
use base64::Engine;
use serde::de::IgnoredAny;
use vstd::prelude::*;
use vstd::slice::slice_subrange;

verus! {

broadcast use vstd::string::group_string_axioms;

/// How many octets the JSON value at the head of `json` takes, with the white space before it, if
/// there is one.
pub uninterp spec fn value_end(json: Seq<u8>) -> Option<nat>;

/// The text that a JSON value is, `Some(None)` standing for null, if it is one of the two.
pub uninterp spec fn text_or_null(json: Seq<u8>) -> Option<Option<Seq<char>>>;

/// `serde_json::StreamDeserializer` reads the value at the head of `json`, whatever it is, and tells
/// by its `byte_offset` where that ends.
#[verifier::external_body]
fn value_length(json: &[u8]) -> (r: Option<usize>)
    ensures
        match r {
            Some(n) => value_end(json@) == Some(n as nat) && 0 < n <= json@.len(),
            None => value_end(json@) is None,
        },
{
    let mut values = serde_json::Deserializer::from_slice(json).into_iter::<IgnoredAny>();
    values.next()?.ok()?;
    Some(values.byte_offset())
}

/// `serde_json::from_slice` reads a string or null.
#[verifier::external_body]
fn read_text(json: &[u8]) -> (r: Option<Option<String>>)
    ensures
        match r {
            Some(text) => text_or_null(json@) == Some(opt_view(text)),
            None => text_or_null(json@) is None,
        },
{
    serde_json::from_slice(json).ok()
}

/// `base64`'s `URL_SAFE_NO_PAD` engine: its `decode` undoes `encode`, and takes nothing else.
#[verifier::external_body]
fn base64_decode(text: &str) -> (r: Option<Vec<u8>>)
    ensures
        match r {
            Some(bytes) => base64_url(bytes@) == text@,
            None => forall|bytes: Seq<u8>| #[trigger] base64_url(bytes) != text@,
        },
{
    base64::engine::general_purpose::URL_SAFE_NO_PAD.decode(text).ok()
}

proof fn base64_chars_differ(m: int, n: int)
    requires
        0 <= m < 64,
        0 <= n < 64,
        base64_char(m) == base64_char(n),
    ensures
        m == n,
{
}

proof fn sextets_hold_the_octets(a: int, b: int, c: int)
    requires
        0 <= a < 256,
        0 <= b < 256,
        0 <= c < 256,
    ensures
        ({
            let triple = a * 65536 + b * 256 + c;
            let (s, t) = (triple / 262144 % 64, triple / 4096 % 64);
            let (u, v) = (triple / 64 % 64, triple % 64);
            &&& a == s * 4 + t / 16
            &&& b == t % 16 * 16 + u / 4
            &&& c == u % 4 * 64 + v
        }),
{
    let triple = a * 65536 + b * 256 + c;
    assert(triple / 262144 == a / 4);
    assert(triple / 4096 == a * 16 + b / 16);
    assert(triple / 64 == a * 1024 + b * 4 + c / 64);
    assert((a * 16 + b / 16) % 64 == a % 4 * 16 + b / 16);
    assert((a * 1024 + b * 4 + c / 64) % 64 == b % 16 * 4 + c / 64);
}

proof fn sextets_follow_the_text(a: Seq<u8>, b: Seq<u8>, p: int)
    requires
        base64_url(a) == base64_url(b),
        0 <= p < base64_url(a).len(),
    ensures
        sextet(a, p) == sextet(b, p),
{
    assert(base64_url(a)[p] == base64_char(sextet(a, p)));
    assert(base64_url(b)[p] == base64_char(sextet(b, p)));
    base64_chars_differ(sextet(a, p), sextet(b, p));
}

/// Different octets have different texts in base64.
pub proof fn base64_tells_octets_apart(a: Seq<u8>, b: Seq<u8>)
    requires
        base64_url(a) == base64_url(b),
    ensures
        a == b,
{
    let (m, n) = (a.len() as int, b.len() as int);
    assert(base64_url(a).len() == (m * 4 + 2) / 3);
    assert(base64_url(b).len() == (n * 4 + 2) / 3);
    assert(m == n);
    assert forall|i: int| 0 <= i < a.len() implies a[i] == b[i] by {
        let (g, k) = (i / 3, i % 3);
        let (at, p) = (g * 3, g * 4 + k);
        assert(p / 4 == g && p % 4 == k);
        assert((p + 1) / 4 == g && (p + 1) % 4 == k + 1);
        assert(p + 1 < (m * 4 + 2) / 3);
        sextets_follow_the_text(a, b, p);
        sextets_follow_the_text(a, b, p + 1);
        sextets_hold_the_octets(
            octet_or_zero(a, at),
            octet_or_zero(a, at + 1),
            octet_or_zero(a, at + 2),
        );
        sextets_hold_the_octets(
            octet_or_zero(b, at),
            octet_or_zero(b, at + 1),
            octet_or_zero(b, at + 2),
        );
        if k == 0 {
            assert(octet_or_zero(a, at) == octet_or_zero(b, at));
        } else if k == 1 {
            assert(octet_or_zero(a, at + 1) == octet_or_zero(b, at + 1));
        } else {
            assert(octet_or_zero(a, at + 2) == octet_or_zero(b, at + 2));
        }
    }
    assert(a =~= b);
}

/// The octets that a text in base64 stands for, if it is one.
pub open spec fn base64_read(text: Seq<char>) -> Option<Seq<u8>> {
    if exists|bytes: Seq<u8>| #[trigger] base64_url(bytes) == text {
        Some(choose|bytes: Seq<u8>| #[trigger] base64_url(bytes) == text)
    } else {
        None
    }
}

/// The payload of a token: the second of its three parts.
pub open spec fn payload_of(token: Seq<char>) -> Option<Seq<u8>> {
    let parts = pieces(token, '.');
    if parts.len() == 3 {
        base64_read(parts[1])
    } else {
        None
    }
}

fn payload(token: &str) -> (r: Option<Vec<u8>>)
    ensures
        match r {
            Some(bytes) => payload_of(token@) == Some(bytes@),
            None => payload_of(token@) is None,
        },
{
    let chars = chars_of(token);
    let first: usize = piece_end(&chars, 0, '.');
    assert(chars@.skip(0) =~= token@);
    proof {
        reveal_with_fuel(pieces, 5);
    }
    if first == chars.len() {
        return None;
    }
    let second: usize = piece_end(&chars, first + 1, '.');
    if second == chars.len() {
        return None;
    }
    let third: usize = piece_end(&chars, second + 1, '.');
    let ghost rest = token@.skip(first as int + 1);
    assert(rest =~= chars@.skip(first as int + 1));
    assert(rest.skip(second - first) =~= chars@.skip(second as int + 1));
    if third != chars.len() {
        return None;
    }
    let part = text_of(&chars, first + 1, second);
    assert(part@ =~= rest.take(second - first - 1));
    assert(pieces(token@, '.')[1] == part@);
    match base64_decode(&part) {
        Some(bytes) => {
            proof {
                let chosen = choose|b: Seq<u8>| #[trigger] base64_url(b) == part@;
                base64_tells_octets_apart(bytes@, chosen);
            }
            Some(bytes)
        },
        None => None,
    }
}

/// White space between the parts of a JSON object.
pub open spec fn json_space(b: u8) -> bool {
    b == 0x20 || b == 0x09 || b == 0x0a || b == 0x0d
}

/// `s` without the white space at its start.
pub open spec fn unspaced(s: Seq<u8>) -> Seq<u8>
    decreases s.len(),
{
    if s.len() > 0 && json_space(s[0]) {
        unspaced(s.skip(1))
    } else {
        s
    }
}

/// What follows `mark`, if that is the first of `s` but for white space.
pub open spec fn behind(s: Seq<u8>, mark: u8) -> Option<Seq<u8>> {
    let t = unspaced(s);
    if t.len() > 0 && t[0] == mark {
        Some(t.skip(1))
    } else {
        None
    }
}

/// `found` before what follows, if that can be read.
pub open spec fn before(found: Seq<Seq<u8>>, rest: Option<Seq<Seq<u8>>>) -> Option<Seq<Seq<u8>>> {
    match rest {
        Some(r) => Some(found + r),
        None => None,
    }
}

/// The values of the members that are called `name`, as JSON, in the order in which they stand. `s`
/// begins with a member of an object; there is no result where the object cannot be read.
pub open spec fn members_named(s: Seq<u8>, name: Seq<char>) -> Option<Seq<Seq<u8>>>
    decreases s.len(),
{
    match value_end(s) {
        Some(k) => match (text_or_null(s.take(k as int)), behind(s.skip(k as int), 0x3a)) {
            (Some(Some(key)), Some(value)) => match value_end(value) {
                Some(v) => {
                    let here = if key == name {
                        seq![value.take(v as int)]
                    } else {
                        Seq::empty()
                    };
                    let rest = value.skip(v as int);
                    match behind(rest, 0x2c) {
                        Some(next) => if next.len() < s.len() {
                            before(here, members_named(next, name))
                        } else {
                            None
                        },
                        None => if behind(rest, 0x7d) is Some {
                            Some(here)
                        } else {
                            None
                        },
                    }
                },
                None => None,
            },
            _ => None,
        },
        None => None,
    }
}

/// A claim of a payload, which is a text: `Some(None)` where there is none or it is null. A payload
/// that is no object is refused, and so is one that makes the claim twice.
pub open spec fn claim_in(payload: Seq<u8>, name: Seq<char>) -> Option<Option<Seq<char>>> {
    match behind(payload, 0x7b) {
        Some(inside) => if behind(inside, 0x7d) is Some {
            Some(None)
        } else {
            match members_named(inside, name) {
                Some(values) => if values.len() == 0 {
                    Some(None)
                } else if values.len() == 1 {
                    text_or_null(values[0])
                } else {
                    None
                },
                None => None,
            }
        },
        None => None,
    }
}

/// Where what follows `mark` begins, if that is the first from `from` on but for white space.
fn skip_mark(json: &[u8], from: usize, mark: u8) -> (r: Option<usize>)
    requires
        from <= json@.len(),
    ensures
        match r {
            Some(k) => from < k <= json@.len() && behind(json@.skip(from as int), mark) == Some(
                json@.skip(k as int),
            ),
            None => behind(json@.skip(from as int), mark) is None,
        },
{
    let mut k: usize = from;
    while k < json.len() && (json[k] == 0x20 || json[k] == 0x09 || json[k] == 0x0a || json[k]
        == 0x0d)
        invariant
            from <= k <= json@.len(),
            unspaced(json@.skip(k as int)) == unspaced(json@.skip(from as int)),
        decreases json@.len() - k,
    {
        assert(json@.skip(k as int).skip(1) =~= json@.skip(k + 1));
        k += 1;
    }
    let ghost t = json@.skip(k as int);
    assert(unspaced(t) == t);
    if k < json.len() && json[k] == mark {
        assert(t.skip(1) =~= json@.skip(k + 1));
        Some(k + 1)
    } else {
        None
    }
}

/// Where the value from `from` on ends.
fn skip_value(json: &[u8], from: usize) -> (r: Option<usize>)
    requires
        from <= json@.len(),
    ensures
        match r {
            Some(k) => from < k <= json@.len() && value_end(json@.skip(from as int)) == Some(
                (k - from) as nat,
            ),
            None => value_end(json@.skip(from as int)) is None,
        },
{
    let end: usize = json.len();
    let rest: &[u8] = slice_subrange(json, from, end);
    assert(rest@ =~= json@.skip(from as int));
    match value_length(rest) {
        Some(n) => Some(from + n),
        None => None,
    }
}

/// The pieces of `json` between pairs of positions.
spec fn cut(json: Seq<u8>, places: Seq<(usize, usize)>) -> Seq<Seq<u8>> {
    places.map_values(|p: (usize, usize)| json.subrange(p.0 as int, p.1 as int))
}

spec fn within(json: Seq<u8>, places: Seq<(usize, usize)>) -> bool {
    forall|i: int|
        0 <= i < places.len() ==> (#[trigger] places[i]).0 <= places[i].1 <= json.len()
}

/// The values of the members that are called `name`; `start` is where the first member stands.
fn find_members(json: &[u8], start: usize, name: &str) -> (r: Option<Vec<(usize, usize)>>)
    requires
        start <= json@.len(),
    ensures
        match r {
            Some(places) => within(json@, places@) && members_named(
                json@.skip(start as int),
                name@,
            ) == Some(cut(json@, places@)),
            None => members_named(json@.skip(start as int), name@) is None,
        },
{
    let mut places: Vec<(usize, usize)> = Vec::new();
    let mut at: usize = start;
    let ghost whole = members_named(json@.skip(start as int), name@);
    assert(before(cut(json@, places@), whole) == whole) by {
        if let Some(w) = whole {
            assert(cut(json@, places@) + w =~= w);
        }
    }
    loop
        invariant
            at <= json@.len(),
            within(json@, places@),
            whole == before(
                cut(json@, places@),
                members_named(json@.skip(at as int), name@),
            ),
            whole == members_named(json@.skip(start as int), name@),
        decreases json@.len() - at,
    {
        let ghost s = json@.skip(at as int);
        let ghost found = cut(json@, places@);
        let key_end: usize = match skip_value(json, at) {
            Some(k) => k,
            None => {
                return None;
            },
        };
        assert(s.take(key_end - at) =~= json@.subrange(at as int, key_end as int));
        assert(s.skip(key_end - at) =~= json@.skip(key_end as int));
        let key = match read_text(slice_subrange(json, at, key_end)) {
            Some(Some(k)) => k,
            _ => {
                return None;
            },
        };
        let value: usize = match skip_mark(json, key_end, 0x3a) {
            Some(k) => k,
            None => {
                return None;
            },
        };
        let end: usize = match skip_value(json, value) {
            Some(k) => k,
            None => {
                return None;
            },
        };
        let ghost at_value = json@.skip(value as int);
        assert(at_value.take(end - value) =~= json@.subrange(value as int, end as int));
        assert(at_value.skip(end - value) =~= json@.skip(end as int));
        let ghost here = if key@ == name@ {
            seq![at_value.take(end - value)]
        } else {
            Seq::empty()
        };
        if same(&key, name) {
            places.push((value, end));
        }
        assert(cut(json@, places@) =~= found + here);
        match skip_mark(json, end, 0x2c) {
            Some(next) => {
                proof {
                    let rest = members_named(json@.skip(next as int), name@);
                    assert(members_named(s, name@) == before(here, rest));
                    if let Some(m) = rest {
                        assert(found + (here + m) =~= (found + here) + m);
                    }
                }
                at = next;
            },
            None => {
                return match skip_mark(json, end, 0x7d) {
                    Some(_) => {
                        assert(members_named(s, name@) == Some(here));
                        Some(places)
                    },
                    None => None,
                };
            },
        }
    }
}

/// A claim of a payload.
pub fn claim(payload: &[u8], name: &str) -> (r: Option<Option<String>>)
    ensures
        match r {
            Some(text) => claim_in(payload@, name@) == Some(opt_view(text)),
            None => claim_in(payload@, name@) is None,
        },
{
    assert(payload@.skip(0) =~= payload@);
    let inside: usize = match skip_mark(payload, 0, 0x7b) {
        Some(k) => k,
        None => {
            return None;
        },
    };
    if skip_mark(payload, inside, 0x7d).is_some() {
        return Some(None);
    }
    match find_members(payload, inside, name) {
        Some(places) => if places.len() == 0 {
            Some(None)
        } else if places.len() == 1 {
            let (from, to) = places[0];
            assert(cut(payload@, places@)[0] == payload@.subrange(from as int, to as int));
            read_text(slice_subrange(payload, from, to))
        } else {
            None
        },
        None => None,
    }
}

/// A claim of a token, by its payload alone.
pub open spec fn claim_of(token: Seq<char>, name: Seq<char>) -> Option<Option<Seq<char>>> {
    match payload_of(token) {
        Some(bytes) => claim_in(bytes, name),
        None => None,
    }
}

/// A claim of a token, by its payload alone: nothing is checked.
pub fn token_claim(token: &str, name: &str) -> (r: Option<Option<String>>)
    ensures
        match r {
            Some(text) => claim_of(token@, name@) == Some(opt_view(text)),
            None => claim_of(token@, name@) is None,
        },
{
    match payload(token) {
        Some(bytes) => claim(&bytes, name),
        None => None,
    }
}

proof fn base64_holds_no_dot(bytes: Seq<u8>)
    ensures
        !base64_url(bytes).contains('.'),
{
    let text = base64_url(bytes);
    assert forall|i: int| 0 <= i < text.len() implies text[i] != '.' by {
        let n = sextet(bytes, i);
        assert(0 <= n < 64);
        assert(text[i] == base64_char(n));
    }
}

/// A token carries its payload in the second of three parts, between dots: what was written there
/// comes back, whatever the other two are. A token of any other number of parts has none.
pub proof fn tokens_carry_their_payload(
    header: Seq<char>,
    bytes: Seq<u8>,
    signature: Seq<char>,
    token: Seq<char>,
)
    requires
        !header.contains('.'),
        !signature.contains('.'),
    ensures
        payload_of(header + seq!['.'] + (base64_url(bytes) + seq!['.'] + signature)) == Some(bytes),
        pieces(token, '.').len() != 3 ==> payload_of(token) is None,
{
    let text = base64_url(bytes);
    let rest = text + seq!['.'] + signature;
    base64_holds_no_dot(bytes);
    cutting_undoes_joining(text, signature, '.');
    cutting_undoes_joining(signature, signature, '.');
    cutting_undoes_joining(header, rest, '.');
    let parts = pieces(header + seq!['.'] + rest, '.');
    assert(parts =~= seq![header, text, signature]);
    assert(parts[1] == text);
    let read = choose|b: Seq<u8>| #[trigger] base64_url(b) == text;
    assert(base64_url(bytes) == text);
    base64_tells_octets_apart(read, bytes);
}

proof fn json_space_goes(lead: Seq<u8>, rest: Seq<u8>)
    requires
        forall|i: int| 0 <= i < lead.len() ==> json_space(#[trigger] lead[i]),
    ensures
        unspaced(lead + rest) == unspaced(rest),
    decreases lead.len(),
{
    if lead.len() == 0 {
        assert(lead + rest =~= rest);
    } else {
        assert((lead + rest)[0] == lead[0]);
        assert((lead + rest).skip(1) =~= lead.skip(1) + rest);
        json_space_goes(lead.skip(1), rest);
    }
}

/// A mark is found behind any white space, and nothing but white space: what follows it is left. White
/// space is the space, the tab, the line feed and the carriage return.
pub proof fn marks_stand_behind_white_space(lead: Seq<u8>, first: u8, rest: Seq<u8>, mark: u8)
    requires
        forall|i: int| 0 <= i < lead.len() ==> json_space(#[trigger] lead[i]),
        !json_space(first),
    ensures
        behind(lead + seq![first] + rest, mark) == if first == mark {
            Some(rest)
        } else {
            None
        },
        behind(lead, mark) is None,
        json_space(mark) <==> mark == 32 || mark == 9 || mark == 10 || mark == 13,
{
    let tail = seq![first] + rest;
    assert(lead + seq![first] + rest =~= lead + tail);
    json_space_goes(lead, tail);
    assert(tail[0] == first);
    assert(tail.skip(1) =~= rest);
    json_space_goes(lead, Seq::empty());
    assert(lead + Seq::<u8>::empty() =~= lead);
}

/// Every member of an object counts. One that another follows, behind a comma, adds its value to what
/// the others give if it has the name that is looked for, and nothing otherwise; so it does if the
/// object ends with it.
pub proof fn every_member_counts(
    label: Seq<u8>,
    gap: Seq<u8>,
    value: Seq<u8>,
    space: Seq<u8>,
    rest: Seq<u8>,
    key: Seq<char>,
    name: Seq<char>,
)
    requires
        text_or_null(label) == Some(Some(key)),
        forall|i: int| 0 <= i < gap.len() ==> json_space(#[trigger] gap[i]),
        forall|i: int| 0 <= i < space.len() ==> json_space(#[trigger] space[i]),
    ensures
        ({
            let tail = value + space + seq![0x2cu8] + rest;
            let s = label + gap + seq![0x3au8] + tail;
            value_end(s) == Some(label.len()) && value_end(tail) == Some(value.len())
                ==> members_named(s, name) == match members_named(rest, name) {
                Some(others) => Some(
                    if key == name {
                        seq![value] + others
                    } else {
                        others
                    },
                ),
                None => None,
            }
        }),
        ({
            let tail = value + space + seq![0x7du8] + rest;
            let s = label + gap + seq![0x3au8] + tail;
            value_end(s) == Some(label.len()) && value_end(tail) == Some(value.len())
                ==> members_named(s, name) == Some(
                if key == name {
                    seq![value]
                } else {
                    Seq::<Seq<u8>>::empty()
                },
            )
        }),
{
    member_is_cut(label, gap, value, space, 0x2c, rest);
    marks_stand_behind_white_space(space, 0x2c, rest, 0x2c);
    member_is_cut(label, gap, value, space, 0x7d, rest);
    marks_stand_behind_white_space(space, 0x7d, rest, 0x7d);
    marks_stand_behind_white_space(space, 0x7d, rest, 0x2c);
    if let Some(others) = members_named(rest, name) {
        assert(Seq::<Seq<u8>>::empty() + others =~= others);
    }
}

proof fn member_is_cut(
    label: Seq<u8>,
    gap: Seq<u8>,
    value: Seq<u8>,
    space: Seq<u8>,
    mark: u8,
    rest: Seq<u8>,
)
    requires
        forall|i: int| 0 <= i < gap.len() ==> json_space(#[trigger] gap[i]),
    ensures
        ({
            let tail = value + space + seq![mark] + rest;
            let s = label + gap + seq![0x3au8] + tail;
            &&& s.take(label.len() as int) == label
            &&& behind(s.skip(label.len() as int), 0x3a) == Some(tail)
            &&& tail.take(value.len() as int) == value
            &&& tail.skip(value.len() as int) == space + seq![mark] + rest
            &&& rest.len() < s.len()
        }),
{
    let tail = value + space + seq![mark] + rest;
    let s = label + gap + seq![0x3au8] + tail;
    assert(s.take(label.len() as int) =~= label);
    assert(s.skip(label.len() as int) =~= gap + seq![0x3au8] + tail);
    marks_stand_behind_white_space(gap, 0x3a, tail, 0x3a);
    assert(tail.take(value.len() as int) =~= value);
    assert(tail.skip(value.len() as int) =~= space + seq![mark] + rest);
}

/// A claim is made once or not at all: an object without the member makes none, one that has it once
/// makes what its value says, and one that has it twice, or cannot be read, is refused, as is anything
/// that is not an object.
pub proof fn claims_are_made_once(lead: Seq<u8>, inside: Seq<u8>, first: u8, name: Seq<char>)
    requires
        forall|i: int| 0 <= i < lead.len() ==> json_space(#[trigger] lead[i]),
        !json_space(first),
    ensures
        first != 0x7b ==> claim_in(lead + seq![first] + inside, name) is None,
        first == 0x7b && behind(inside, 0x7d) is Some ==> claim_in(
            lead + seq![first] + inside,
            name,
        ) == Some(None::<Seq<char>>),
        first == 0x7b && behind(inside, 0x7d) is None ==> {
            let claimed = claim_in(lead + seq![first] + inside, name);
            match members_named(inside, name) {
                Some(values) => {
                    &&& values.len() == 0 ==> claimed == Some(None::<Seq<char>>)
                    &&& values.len() == 1 ==> claimed == text_or_null(values[0])
                    &&& values.len() > 1 ==> claimed is None
                },
                None => claimed is None,
            }
        },
{
    marks_stand_behind_white_space(lead, first, inside, 0x7b);
}

} // verus!
