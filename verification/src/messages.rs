//! The JSON messages that go to and from the browser: signaling, and the data channel.

use crate::desktop::{named, named_all, Monitor};
use crate::input::Rect;
use crate::text::{
    decimal, decimal_text, decimals_stand_for_their_number, join2, join3, number, opt_view, same,
};
use vstd::prelude::*;

verus! {

broadcast use vstd::string::group_string_axioms;

/// How long relay credentials are asked to last, in seconds.
pub const TURN_TTL: u64 = 86_400;

/// A hexadecimal digit.
pub open spec fn hex_digit(n: int) -> char {
    if n < 10 {
        (48 + n) as char
    } else {
        (87 + n) as char
    }
}

/// How a character stands in a JSON string.
pub open spec fn escaped(c: char) -> Seq<char> {
    if c == '"' || c == '\\' {
        seq!['\\', c]
    } else if c == '\u{8}' {
        seq!['\\', 'b']
    } else if c == '\t' {
        seq!['\\', 't']
    } else if c == '\n' {
        seq!['\\', 'n']
    } else if c == '\u{c}' {
        seq!['\\', 'f']
    } else if c == '\r' {
        seq!['\\', 'r']
    } else if (c as int) <= 31 {
        seq!['\\', 'u', '0', '0', hex_digit(c as int / 16), hex_digit(c as int % 16)]
    } else {
        seq![c]
    }
}

/// A text as a JSON string, in quotation marks.
pub open spec fn json_string(text: Seq<char>) -> Seq<char> {
    seq!['"'] + text.map_values(|c: char| escaped(c)).flatten() + seq!['"']
}

/// The member of a JSON object that has the given name, if the text is one and the member is a
/// string.
pub uninterp spec fn json_text_member(json: Seq<char>, name: Seq<char>) -> Option<Seq<char>>;

/// The member of a JSON object that has the given name, as JSON, if the octets are one.
pub uninterp spec fn json_member(json: Seq<u8>, name: Seq<char>) -> Option<Seq<char>>;

/// `serde_json::Value::to_string` writes a string value as JSON, in quotation marks. Quotation marks,
/// backslashes and control characters are escaped, and nothing else.
#[verifier::external_body]
fn quoted(text: &str) -> (json: String)
    ensures
        json@ == json_string(text@),
{
    serde_json::Value::from(text).to_string()
}

/// `serde_json::from_str` reads a `Value`; the member of the given name is handed out if it is a
/// string.
#[verifier::external_body]
fn text_member(json: &str, name: &str) -> (r: Option<String>)
    ensures
        opt_view(r) == json_text_member(json@, name@),
{
    let v: serde_json::Value = serde_json::from_str(json).ok()?;
    v.get(name)?.as_str().map(str::to_string)
}

/// `serde_json::from_slice` reads a `Value`; the member of the given name is written out again as
/// JSON.
#[verifier::external_body]
fn member(json: &[u8], name: &str) -> (r: Option<String>)
    ensures
        opt_view(r) == json_member(json@, name@),
{
    let v: serde_json::Value = serde_json::from_slice(json).ok()?;
    v.get(name).map(|m| m.to_string())
}

/// The session description of an offer, given the type and the description of a message.
pub open spec fn offered(kind: Option<Seq<char>>, sdp: Option<Seq<char>>) -> Option<Seq<char>> {
    if kind == Some("offer"@) {
        sdp
    } else {
        None
    }
}

/// The session description of an offer, given the type and the description of a message.
pub fn pick_offer(kind: Option<String>, sdp: Option<String>) -> (r: Option<String>)
    ensures
        opt_view(r) == offered(opt_view(kind), opt_view(sdp)),
{
    match kind {
        Some(k) => if same(&k, "offer") {
            sdp
        } else {
            None
        },
        None => None,
    }
}

/// The session description that a signaling message offers; other messages are ignored.
pub fn parse_offer(message: &str) -> (r: Option<String>)
    ensures
        opt_view(r) == offered(
            json_text_member(message@, "type"@),
            json_text_member(message@, "sdp"@),
        ),
{
    pick_offer(text_member(message, "type"), text_member(message, "sdp"))
}

/// The signaling message that answers an offer.
pub fn answer_message(sdp: &str) -> (m: String)
    ensures
        m@ == "{\"sdp\":"@ + json_string(sdp@) + ",\"type\":\"answer\"}"@,
{
    join3("{\"sdp\":", &quoted(sdp), ",\"type\":\"answer\"}")
}

/// The signaling message for an offer that could not be taken up.
pub fn failure_message() -> (m: &'static str)
    ensures
        m@ == "{\"message\":\"could not start session\",\"type\":\"error\"}"@,
{
    "{\"message\":\"could not start session\",\"type\":\"error\"}"
}

/// The server that addresses are found out with where there is no relay.
pub open spec fn default_servers() -> Seq<char> {
    "[{\"urls\":[\"stun:stun.cloudflare.com:3478\"]}]"@
}

/// Where the credentials of a relay are asked for.
pub fn turn_url(key_id: &str) -> (url: String)
    ensures
        url@ == "https://rtc.live.cloudflare.com/v1/turn/keys/"@ + key_id@
            + "/credentials/generate-ice-servers"@,
{
    join3(
        "https://rtc.live.cloudflare.com/v1/turn/keys/",
        key_id,
        "/credentials/generate-ice-servers",
    )
}

/// The request for the credentials of a relay.
pub fn turn_request() -> (body: String)
    ensures
        body@ == "{\"ttl\":"@ + decimal(TURN_TTL as nat) + "}"@,
{
    join3("{\"ttl\":", &decimal_text(TURN_TTL), "}")
}

/// The servers that the browser is told of, as JSON: those of the relay, if asking for them was
/// answered with some, and else the default.
pub fn ice_servers(answer: Option<&[u8]>) -> (servers: String)
    ensures
        servers@ == match answer {
            Some(body) => match json_member(body@, "iceServers"@) {
                Some(list) => list,
                None => default_servers(),
            },
            None => default_servers(),
        },
{
    let found = match answer {
        Some(body) => member(body, "iceServers"),
        None => None,
    };
    match found {
        Some(list) => list,
        None => "[{\"urls\":[\"stun:stun.cloudflare.com:3478\"]}]".to_owned(),
    }
}

/// The first signaling message.
pub fn greeting(servers: &str) -> (m: String)
    ensures
        m@ == "{\"iceServers\":"@ + servers@ + ",\"type\":\"hello\"}"@,
{
    join3("{\"iceServers\":", servers, ",\"type\":\"hello\"}")
}

/// A number in decimal, with a sign if it is negative.
pub open spec fn signed(n: int) -> Seq<char> {
    if n < 0 {
        "-"@ + decimal((-n) as nat)
    } else {
        decimal(n as nat)
    }
}

/// A number in decimal, with a sign if it is negative.
pub fn signed_text(n: i32) -> (s: String)
    ensures
        s@ == signed(n as int),
{
    if n < 0 {
        let m: i64 = -(n as i64);
        join2("-", &decimal_text(m as u64))
    } else {
        decimal_text(n as u64)
    }
}

/// A monitor, by its name and its place, as JSON.
pub open spec fn monitor_json(m: (Seq<char>, Rect)) -> Seq<char> {
    "{\"height\":"@ + signed(m.1.h as int) + ",\"name\":"@ + json_string(m.0) + ",\"width\":"@
        + signed(m.1.w as int) + ",\"x\":"@ + signed(m.1.x as int) + ",\"y\":"@ + signed(
        m.1.y as int,
    ) + "}"@
}

/// Monitors as JSON, separated by commas.
pub open spec fn monitors_json(mons: Seq<(Seq<char>, Rect)>) -> Seq<char>
    decreases mons.len(),
{
    if mons.len() == 0 {
        Seq::empty()
    } else if mons.len() == 1 {
        monitor_json(mons[0])
    } else {
        monitors_json(mons.drop_last()) + ","@ + monitor_json(mons.last())
    }
}

fn monitor_text(m: &Monitor) -> (s: String)
    ensures
        s@ == monitor_json(named(*m)),
{
    let mut s = join3("{\"height\":", &signed_text(m.height), ",\"name\":");
    s.append(&quoted(&m.name));
    s.append(",\"width\":");
    s.append(&signed_text(m.width));
    s.append(",\"x\":");
    s.append(&signed_text(m.x));
    s.append(",\"y\":");
    s.append(&signed_text(m.y));
    s.append("}");
    s
}

/// What the viewer is told first on the data channel, and after each switch: the monitors, and
/// which of them is captured.
pub fn hello_message(mons: &Vec<Monitor>, current: &str) -> (m: String)
    ensures
        m@ == "{\"current\":"@ + json_string(current@) + ",\"monitors\":["@ + monitors_json(named_all(mons@))
            + "],\"t\":\"hello\"}"@,
{
    let mut list = String::new();
    let mut i: usize = 0;
    assert(list@ =~= monitors_json(named_all(mons@).take(0)));
    while i < mons.len()
        invariant
            i <= mons@.len(),
            list@ == monitors_json(named_all(mons@).take(i as int)),
        decreases mons@.len() - i,
    {
        let ghost longer = named_all(mons@).take(i + 1);
        assert(longer.drop_last() =~= named_all(mons@).take(i as int));
        assert(longer.last() == named(mons@[i as int]));
        let one = monitor_text(&mons[i]);
        if i == 0 {
            list = one;
        } else {
            list = join3(&list, ",", &one);
        }
        i += 1;
    }
    assert(named_all(mons@).take(i as int) =~= named_all(mons@));
    let mut m = join3("{\"current\":", &quoted(current), ",\"monitors\":[");
    m.append(&list);
    m.append("],\"t\":\"hello\"}");
    m
}

/// What the viewer is told when a monitor cannot be captured.
pub fn error_message(message: &str) -> (m: String)
    ensures
        m@ == "{\"message\":"@ + json_string(message@) + ",\"t\":\"err\"}"@,
{
    join3("{\"message\":", &quoted(message), ",\"t\":\"err\"}")
}

/// The clipboard, for the viewer.
pub fn clipboard_message(text: &str) -> (m: String)
    ensures
        m@ == "{\"t\":\"clip\",\"text\":"@ + json_string(text@) + "}"@,
{
    join3("{\"t\":\"clip\",\"text\":", &quoted(text), "}")
}

/// A message offers its description exactly if it says that it is an offer.
pub proof fn only_offers_offer(kind: Option<Seq<char>>, sdp: Option<Seq<char>>)
    ensures
        kind is Some && kind->0 == "offer"@ ==> offered(kind, sdp) == sdp,
        kind is None || kind->0 != "offer"@ ==> offered(kind, sdp) is None,
{
}

/// A number is written as its digits, behind a minus sign if it is negative.
pub proof fn signs_tell_negative_numbers(n: int)
    ensures
        n >= 0 ==> number(signed(n)) == n && 48 <= signed(n)[0] as int <= 57,
        n < 0 ==> signed(n)[0] == '-' && number(signed(n).skip(1)) == -n,
{
    reveal_strlit("-");
    if n >= 0 {
        decimals_stand_for_their_number(n as nat);
    } else {
        decimals_stand_for_their_number((-n) as nat);
        assert(signed(n).skip(1) =~= decimal((-n) as nat));
    }
}

/// In a JSON string a character stands for itself unless it is a quotation mark, a backslash or a
/// control character: those are escaped by a backslash.
pub proof fn what_is_escaped(c: char)
    ensures
        c == '"' || c == '\\' ==> escaped(c) == seq!['\\', c],
        (c as int) < 32 ==> escaped(c).len() > 1 && escaped(c)[0] == '\\' && escaped(c)[1] != '"'
            && escaped(c)[1] != '\\',
        c != '"' && c != '\\' && (c as int) >= 32 ==> escaped(c) == seq![c],
        (c as int) < 32 && escaped(c).len() > 2 ==> escaped(c).len() == 6 && escaped(c)[1] == 'u'
            && escaped(c)[2] == '0' && escaped(c)[3] == '0' && escaped(c)[4]
            == "0123456789abcdef"@[c as int / 16] && escaped(c)[5] == "0123456789abcdef"@[c as int
            % 16],
        (c as int) < 32 ==> (escaped(c).len() == 2 <==> 8 <= c as int <= 13 && c as int != 11),
        c as int == 8 ==> escaped(c)[1] == 'b',
        c as int == 9 ==> escaped(c)[1] == 't',
        c as int == 10 ==> escaped(c)[1] == 'n',
        c as int == 12 ==> escaped(c)[1] == 'f',
        c as int == 13 ==> escaped(c)[1] == 'r',
{
    reveal_strlit("0123456789abcdef");
}

/// Whether a JSON object has a member: its name in quotation marks, a colon and its value, with a
/// comma or the end of the object behind it.
pub open spec fn has_member(json: Seq<char>, name: Seq<char>, value: Seq<char>) -> bool {
    exists|before: Seq<char>, after: Seq<char>|
        json == #[trigger] around(before, "\""@ + name + "\":"@ + value, after) && after.len() > 0 && (
        after[0] == ',' || after[0] == '}')
}

/// A text between two others.
pub open spec fn around(before: Seq<char>, middle: Seq<char>, after: Seq<char>) -> Seq<char> {
    before + middle + after
}

/// A monitor is told by its name, by the place of its corner and by its size, each under its own name.
pub proof fn monitors_tell_their_place(m: (Seq<char>, Rect))
    ensures
        has_member(monitor_json(m), "name"@, json_string(m.0)),
        has_member(monitor_json(m), "x"@, signed(m.1.x as int)),
        has_member(monitor_json(m), "y"@, signed(m.1.y as int)),
        has_member(monitor_json(m), "width"@, signed(m.1.w as int)),
        has_member(monitor_json(m), "height"@, signed(m.1.h as int)),
        monitor_json(m)[0] == '{',
        monitor_json(m).last() == '}',
{
    reveal_strlit("\"");
    reveal_strlit("\":");
    reveal_strlit("name");
    reveal_strlit("x");
    reveal_strlit("y");
    reveal_strlit("width");
    reveal_strlit("height");
    reveal_strlit("{\"height\":");
    reveal_strlit(",\"name\":");
    reveal_strlit(",\"width\":");
    reveal_strlit(",\"x\":");
    reveal_strlit(",\"y\":");
    reveal_strlit("}");
    let json = monitor_json(m);
    let height = "{\"height\":"@ + signed(m.1.h as int);
    let name = ",\"name\":"@ + json_string(m.0);
    let width = ",\"width\":"@ + signed(m.1.w as int);
    let x = ",\"x\":"@ + signed(m.1.x as int);
    let y = ",\"y\":"@ + signed(m.1.y as int);
    let end = "}"@;
    assert(json =~= height + name + width + x + y + end);
    assert("{\"height\":"@.skip(1) =~= "\""@ + "height"@ + "\":"@);
    assert(",\"name\":"@.skip(1) =~= "\""@ + "name"@ + "\":"@);
    assert(",\"width\":"@.skip(1) =~= "\""@ + "width"@ + "\":"@);
    assert(",\"x\":"@.skip(1) =~= "\""@ + "x"@ + "\":"@);
    assert(",\"y\":"@.skip(1) =~= "\""@ + "y"@ + "\":"@);
    one_member(Seq::empty(), "{\"height\":"@, "height"@, signed(m.1.h as int), name + width + x + y + end);
    assert(json =~= Seq::<char>::empty() + height + (name + width + x + y + end));
    one_member(height, ",\"name\":"@, "name"@, json_string(m.0), width + x + y + end);
    assert(json =~= height + name + (width + x + y + end));
    one_member(height + name, ",\"width\":"@, "width"@, signed(m.1.w as int), x + y + end);
    assert(json =~= height + name + width + (x + y + end));
    one_member(height + name + width, ",\"x\":"@, "x"@, signed(m.1.x as int), y + end);
    assert(json =~= height + name + width + x + (y + end));
    one_member(height + name + width + x, ",\"y\":"@, "y"@, signed(m.1.y as int), end);
    assert(json[0] == height[0]);
}

proof fn one_member(
    before: Seq<char>,
    label: Seq<char>,
    name: Seq<char>,
    value: Seq<char>,
    after: Seq<char>,
)
    requires
        label.len() > 0,
        label.skip(1) == "\""@ + name + "\":"@,
        after.len() > 0,
        after[0] == ',' || after[0] == '}',
    ensures
        has_member(before + (label + value) + after, name, value),
{
    let front = before + label.take(1);
    let middle = "\""@ + name + "\":"@ + value;
    assert(label =~= label.take(1) + label.skip(1));
    assert(before + (label + value) + after =~= around(front, middle, after));
}

/// Monitors are listed one after the other, with a comma between two and nowhere else.
pub proof fn monitors_are_listed(
    first: Seq<(Seq<char>, Rect)>,
    second: Seq<(Seq<char>, Rect)>,
    m: (Seq<char>, Rect),
)
    requires
        first.len() > 0,
    ensures
        second.len() > 0 ==> monitors_json(first + second) == monitors_json(first) + ","@
            + monitors_json(second),
        monitors_json(seq![m]) == monitor_json(m),
        monitors_json(Seq::<(Seq<char>, Rect)>::empty()).len() == 0,
    decreases second.len(),
{
    if second.len() == 1 {
        let all = first + second;
        assert(all.drop_last() =~= first);
        assert(all.last() == second[0]);
    } else if second.len() > 1 {
        let rest = second.drop_last();
        monitors_are_listed(first, rest, m);
        assert((first + second).drop_last() =~= first + rest);
        assert((first + second).last() == second.last());
        assert(monitors_json(first + second) =~= monitors_json(first) + ","@ + monitors_json(
            second,
        ));
    }
}

/// Relay credentials are asked for a day, and without a relay addresses are found out with
/// Cloudflare's server.
pub proof fn relays_and_their_stand_in()
    ensures
        TURN_TTL == 24 * 60 * 60,
        default_servers() == "[{\"urls\":[\"stun:stun.cloudflare.com:3478\"]}]"@,
{
}

} // verus!
