//! The HTTP surface: who is let in, what is answered, and who is watching.
//!
//! Every API and WebSocket request must pass Cloudflare Access and, unless it only reads, an exact
//! origin check; the WebSocket additionally requires a logged-in session.

use crate::config::AuthState;
use crate::password::{check_password, compares, lets_in, phc_accepts, PasswordCheck};
use crate::random::random_bytes;
use crate::sessions::{
    base64_char, base64_url, open_at, opened, sextet, sha256, token_key, Lockout, Sessions,
    LOCKOUT, SESSION_TTL,
};
use crate::text::{
    beginnings_can_be_taken_off, begins_with, chars_of, cutting_undoes_joining, decimal,
    decimal_text, index_of, index_of_is_first, index_of_unique, is_space, join2, join3, opt_view,
    piece_end, pieces, same, slice_begins_with, text_of, texts_of, trim_bounds, trim_end, trim_start,
    trimmed, trimming_takes_off_white_space,
};
use crate::totp::{accepted_step, check_totp, TOTP_STEP};
use vstd::prelude::*;
use vstd::utf8::encode_utf8;

verus! {

broadcast use vstd::string::group_string_axioms;

/// The longest message that is read from the signaling socket.
pub const MAX_WS_MESSAGE: usize = 262_144;

/// How long a failed login is held back, in milliseconds.
pub const FAILURE_DELAY_MS: u64 = 500;

/// The longest password that is looked at, in octets.
pub const MAX_PASSWORD: usize = 1024;

/// The longest code that is looked at, in octets.
pub const MAX_CODE: usize = 16;

/// The body of a reply.
pub enum Body {
    /// An error message.
    Error(String),
    /// All went well.
    Done,
    /// Whether the request came with an open session.
    Authenticated(bool),
}

/// A reply: its status code, its body, and a cookie to set.
pub struct Reply {
    pub status: u16,
    pub body: Body,
    pub cookie: Option<String>,
}

/// What a body says.
pub enum BodyView {
    Error(Seq<char>),
    Done,
    Authenticated(bool),
}

/// What a reply says.
pub struct ReplyView {
    pub status: u16,
    pub body: BodyView,
    pub cookie: Option<Seq<char>>,
}

impl View for Reply {
    type V = ReplyView;

    open spec fn view(&self) -> ReplyView {
        ReplyView {
            status: self.status,
            body: match self.body {
                Body::Error(m) => BodyView::Error(m@),
                Body::Done => BodyView::Done,
                Body::Authenticated(b) => BodyView::Authenticated(b),
            },
            cookie: match self.cookie {
                Some(c) => Some(c@),
                None => None,
            },
        }
    }
}

/// A refusal.
pub open spec fn refusal(status: u16, message: Seq<char>) -> ReplyView {
    ReplyView { status, body: BodyView::Error(message), cookie: None }
}

/// Refuses a request.
pub fn deny(status: u16, message: &str) -> (r: Reply)
    ensures
        r@ == refusal(status, message@),
{
    Reply { status, body: Body::Error(message.to_owned()), cookie: None }
}

/// The headers that every response carries.
pub open spec fn protective_headers() -> Seq<(Seq<char>, Seq<char>)> {
    seq![
        (
            "content-security-policy"@,
            "default-src 'none'; script-src 'self'; style-src 'self'; font-src 'self'; img-src 'self' data:; connect-src 'self'; media-src 'self' blob:; base-uri 'none'; form-action 'self'; frame-ancestors 'none'"@,
        ),
        ("x-content-type-options"@, "nosniff"@),
        ("referrer-policy"@, "no-referrer"@),
        ("cross-origin-opener-policy"@, "same-origin"@),
        ("permissions-policy"@, "camera=(), microphone=(), geolocation=()"@),
        ("strict-transport-security"@, "max-age=31536000"@),
        ("cache-control"@, "no-store"@),
    ]
}

/// The headers that every response carries.
pub fn security_headers() -> (h: Vec<(&'static str, &'static str)>)
    ensures
        h@.map_values(|p: (&'static str, &'static str)| (p.0@, p.1@)) == protective_headers(),
{
    let h = vec![
        (
            "content-security-policy",
            "default-src 'none'; script-src 'self'; style-src 'self'; font-src 'self'; img-src 'self' data:; connect-src 'self'; media-src 'self' blob:; base-uri 'none'; form-action 'self'; frame-ancestors 'none'",
        ),
        ("x-content-type-options", "nosniff"),
        ("referrer-policy", "no-referrer"),
        ("cross-origin-opener-policy", "same-origin"),
        ("permissions-policy", "camera=(), microphone=(), geolocation=()"),
        ("strict-transport-security", "max-age=31536000"),
        ("cache-control", "no-store"),
    ];
    assert(h@.map_values(|p: (&'static str, &'static str)| (p.0@, p.1@)) =~= protective_headers());
    h
}

/// What is known of the Access token of a request.
#[derive(Clone, Copy, Debug, PartialEq, Eq, Structural)]
pub enum TokenCheck {
    /// Access is not used.
    NotNeeded,
    /// There is none.
    Missing,
    /// It was refused.
    Failed,
    /// It is in order.
    Passed,
}

/// Whether a request has to name the origin it comes from.
pub open spec fn needs_origin(method: Seq<char>, path: Seq<char>) -> bool {
    method != "GET"@ || path == "/ws"@
}

/// What a request to the API is refused with, if it is.
pub open spec fn gate(
    token: TokenCheck,
    method: Seq<char>,
    path: Seq<char>,
    origin: Option<Seq<char>>,
    expected: Seq<char>,
) -> Option<ReplyView> {
    if token == TokenCheck::Missing {
        Some(refusal(403, "missing Access token"@))
    } else if token == TokenCheck::Failed {
        Some(refusal(403, "Access verification failed"@))
    } else if needs_origin(method, path) && origin != Some(expected) {
        Some(refusal(403, "bad origin"@))
    } else {
        None
    }
}

/// A reply, if there is one.
pub open spec fn opt_reply(r: Option<Reply>) -> Option<ReplyView> {
    match r {
        Some(reply) => Some(reply@),
        None => None,
    }
}

/// The first gate: the Access token, and the exact origin on anything that changes state.
pub fn require_access(
    token: TokenCheck,
    method: &str,
    path: &str,
    origin: Option<&str>,
    expected: &str,
) -> (r: Option<Reply>)
    ensures
        opt_reply(r) == gate(
            token,
            method@,
            path@,
            match origin {
                Some(o) => Some(o@),
                None => None,
            },
            expected@,
        ),
{
    match token {
        TokenCheck::Missing => {
            return Some(deny(403, "missing Access token"));
        },
        TokenCheck::Failed => {
            return Some(deny(403, "Access verification failed"));
        },
        _ => {},
    }
    if !same(method, "GET") || same(path, "/ws") {
        let exact = match origin {
            Some(o) => same(o, expected),
            None => false,
        };
        if !exact {
            return Some(deny(403, "bad origin"));
        }
    }
    None
}

/// What stands before the token in the session cookie.
pub open spec fn cookie_prefix() -> Seq<char> {
    "__Host-desk="@
}

/// The token of the first session cookie among the parts of a header.
pub open spec fn cookie_in(parts: Seq<Seq<char>>) -> Option<Seq<char>>
    decreases parts.len(),
{
    if parts.len() == 0 {
        None
    } else if begins_with(trimmed(parts[0]), cookie_prefix()) {
        Some(trimmed(parts[0]).skip(cookie_prefix().len() as int))
    } else {
        cookie_in(parts.drop_first())
    }
}

/// The token of the first session cookie among `Cookie` headers.
pub open spec fn cookie_of(values: Seq<Seq<char>>) -> Option<Seq<char>>
    decreases values.len(),
{
    if values.len() == 0 {
        None
    } else {
        match cookie_in(pieces(values[0], ';')) {
            Some(token) => Some(token),
            None => cookie_of(values.drop_first()),
        }
    }
}

fn find_cookie(value: &str) -> (r: Option<String>)
    ensures
        opt_view(r) == cookie_in(pieces(value@, ';')),
{
    let chars = chars_of(value);
    let prefix = chars_of("__Host-desk=");
    let mut from: usize = 0;
    assert(value@.skip(0) =~= value@);
    loop
        invariant
            chars@ == value@,
            prefix@ == cookie_prefix(),
            from <= chars@.len(),
            cookie_in(pieces(value@.skip(from as int), ';')) == cookie_in(pieces(value@, ';')),
        decreases chars@.len() - from,
    {
        let end: usize = piece_end(&chars, from, ';');
        let ghost rest = value@.skip(from as int);
        let ghost k = index_of(rest, ';') as int;
        let ghost part = chars@.subrange(from as int, end as int);
        proof {
            index_of_is_first(rest, ';');
            assert(part =~= rest.take(k));
            assert(end == chars@.len() ==> rest =~= part);
        }
        let (a, b): (usize, usize) = trim_bounds(&chars, from, end);
        if slice_begins_with(&chars, a, b, &prefix) {
            let token = text_of(&chars, a + prefix.len(), b);
            proof {
                assert(chars@.subrange(a as int, b as int) == trimmed(part));
                assert(token@ =~= trimmed(part).skip(cookie_prefix().len() as int));
                assert(pieces(rest, ';')[0] == part);
            }
            return Some(token);
        }
        proof {
            assert(pieces(rest, ';')[0] == part);
            assert(!begins_with(trimmed(part), cookie_prefix()));
        }
        if end == chars.len() {
            proof {
                assert(pieces(rest, ';').drop_first() =~= Seq::empty());
                assert(cookie_in(pieces(rest, ';').drop_first()) is None);
            }
            return None;
        }
        proof {
            let tail = value@.skip(end + 1);
            assert(rest.skip(k + 1) =~= tail);
            assert(pieces(rest, ';').drop_first() =~= pieces(tail, ';'));
        }
        from = end + 1;
    }
}

/// The token of the session cookie, from the values of the `Cookie` headers.
pub fn session_cookie(values: &Vec<String>) -> (r: Option<String>)
    ensures
        opt_view(r) == cookie_of(texts_of(values@)),
{
    let ghost all = texts_of(values@);
    let mut i: usize = 0;
    assert(all.skip(0) =~= all);
    while i < values.len()
        invariant
            i <= values@.len(),
            all == texts_of(values@),
            cookie_of(all.skip(i as int)) == cookie_of(all),
        decreases values@.len() - i,
    {
        assert(all.skip(i as int)[0] == values@[i as int]@);
        assert(all.skip(i as int).drop_first() =~= all.skip(i + 1));
        let found = find_cookie(&values[i]);
        if found.is_some() {
            return found;
        }
        i += 1;
    }
    None
}

/// Whether a request comes with an open session.
pub open spec fn has_session(
    sessions: Map<Seq<u8>, u64>,
    cookies: Seq<Seq<char>>,
    now: u64,
) -> bool {
    cookie_of(cookies) matches Some(token) && open_at(sessions, token_key(token), now)
}

/// Whether a request comes with an open session.
pub fn logged_in(sessions: &Sessions, cookies: &Vec<String>, now: u64) -> (b: bool)
    requires
        sessions.wf(),
    ensures
        b == has_session(sessions.sessions(), texts_of(cookies@), now),
{
    match session_cookie(cookies) {
        Some(token) => sessions.is_valid(&token, now),
        None => false,
    }
}

/// Says whether a request comes with an open session.
pub fn me(sessions: &Sessions, cookies: &Vec<String>, now: u64) -> (r: Reply)
    requires
        sessions.wf(),
    ensures
        r@ == (ReplyView {
            status: 200,
            body: BodyView::Authenticated(
                has_session(sessions.sessions(), texts_of(cookies@), now),
            ),
            cookie: None,
        }),
{
    Reply { status: 200, body: Body::Authenticated(logged_in(sessions, cookies, now)), cookie: None }
}

/// What a request for the signaling socket is refused with, if it is: it takes a session.
pub fn ws(sessions: &Sessions, cookies: &Vec<String>, now: u64) -> (r: Option<Reply>)
    requires
        sessions.wf(),
    ensures
        opt_reply(r) == if has_session(sessions.sessions(), texts_of(cookies@), now) {
            None
        } else {
            Some(refusal(401, "login required"@))
        },
{
    if logged_in(sessions, cookies, now) {
        None
    } else {
        Some(deny(401, "login required"))
    }
}

/// What a login is refused with before its password and code are looked at.
pub open spec fn turned_away(
    lock: Lockout,
    password: Seq<char>,
    code: Seq<char>,
    now: u64,
) -> Option<ReplyView> {
    match lock.remaining(now) {
        Some(left) => Some(
            refusal(
                429,
                "locked, try again in "@ + decimal((left / 1_000_000_000 / 60 + 1) as nat)
                    + " min"@,
            ),
        ),
        None => if encode_utf8(password).len() > MAX_PASSWORD || encode_utf8(code).len()
            > MAX_CODE {
            Some(refusal(400, "invalid input"@))
        } else {
            None
        },
    }
}

/// Turns a login away while logins are locked, or if its input is too long.
pub fn precheck(sessions: &Sessions, password: &str, code: &str, now: u64) -> (r: Option<Reply>)
    ensures
        opt_reply(r) == turned_away(sessions.lock(), password@, code@, now),
{
    match sessions.locked_for(now) {
        Some(left) => {
            let minutes: u64 = left / 1_000_000_000 / 60 + 1;
            Some(deny(429, &join3("locked, try again in ", &decimal_text(minutes), " min")))
        },
        None => if password.as_bytes().len() > MAX_PASSWORD || code.as_bytes().len() > MAX_CODE {
            Some(deny(400, "invalid input"))
        } else {
            None
        },
    }
}

/// The cookie that opens a session in the browser.
pub open spec fn opening_cookie(token: Seq<char>) -> Seq<char> {
    cookie_prefix() + token + "; Path=/; Secure; HttpOnly; SameSite=Strict; Max-Age="@ + decimal(
        (SESSION_TTL / 1_000_000_000) as nat,
    )
}

/// The cookie that ends it.
pub open spec fn closing_cookie() -> Seq<char> {
    "__Host-desk=; Path=/; Secure; HttpOnly; SameSite=Strict; Max-Age=0"@
}

/// The answer to a login: it takes both the password and the code, and does not say which of them
/// was wrong.
pub open spec fn login_answer(password_ok: bool, step: Option<u64>, token: Seq<char>) -> ReplyView {
    if password_ok && step is Some {
        ReplyView { status: 200, body: BodyView::Done, cookie: Some(opening_cookie(token)) }
    } else {
        refusal(401, "invalid password or code"@)
    }
}

/// What a login does to the lockout and the sessions.
pub open spec fn login_effect(
    lock: Lockout,
    sessions: Map<Seq<u8>, u64>,
    password_ok: bool,
    step: Option<u64>,
    token: Seq<char>,
    now: u64,
) -> (Lockout, Map<Seq<u8>, u64>) {
    if password_ok && step is Some {
        (Lockout::clear(), opened(sessions, token_key(token), now))
    } else {
        (lock.failed(now), sessions)
    }
}

/// The last accepted time step after a login.
pub open spec fn step_after(last: u64, password_ok: bool, step: Option<u64>) -> u64 {
    match step {
        Some(s) => if password_ok {
            s
        } else {
            last
        },
        None => last,
    }
}

/// Completes a login, `bytes` being what the token of a new session is made of.
pub fn finish_login_with(
    sessions: &mut Sessions,
    auth: &mut AuthState,
    password_ok: bool,
    step: Option<u64>,
    bytes: &[u8; 32],
    now: u64,
) -> (r: Reply)
    requires
        old(sessions).wf(),
        password_ok && step is Some ==> now + SESSION_TTL <= u64::MAX,
        !(password_ok && step is Some) ==> now + LOCKOUT <= u64::MAX,
    ensures
        final(sessions).wf(),
        (final(sessions).lock(), final(sessions).sessions()) == login_effect(
            old(sessions).lock(),
            old(sessions).sessions(),
            password_ok,
            step,
            base64_url(bytes@),
            now,
        ),
        final(auth).last_totp_step == step_after(old(auth).last_totp_step, password_ok, step),
        final(auth).password_hash == old(auth).password_hash,
        final(auth).totp_secret == old(auth).totp_secret,
        r@ == login_answer(password_ok, step, base64_url(bytes@)),
{
    if !password_ok || step.is_none() {
        sessions.record_failure(now);
        return deny(401, "invalid password or code");
    }
    if let Some(s) = step {
        auth.last_totp_step = s;
    }
    sessions.record_success();
    let token = sessions.open_with(bytes, now);
    let seconds: u64 = SESSION_TTL / 1_000_000_000;
    let mut cookie = join3(
        "__Host-desk=",
        &token,
        "; Path=/; Secure; HttpOnly; SameSite=Strict; Max-Age=",
    );
    cookie.append(&decimal_text(seconds));
    Reply { status: 200, body: Body::Done, cookie: Some(cookie) }
}

/// Completes a login. Whatever token a new session gets, it is made of 32 random octets.
pub fn finish_login(
    sessions: &mut Sessions,
    auth: &mut AuthState,
    password_ok: bool,
    step: Option<u64>,
    now: u64,
) -> (r: Reply)
    requires
        old(sessions).wf(),
        password_ok && step is Some ==> now + SESSION_TTL <= u64::MAX,
        !(password_ok && step is Some) ==> now + LOCKOUT <= u64::MAX,
    ensures
        final(sessions).wf(),
        exists|bytes: Seq<u8>|
            bytes.len() == 32 && r@ == login_answer(password_ok, step, #[trigger] base64_url(bytes))
                && (final(sessions).lock(), final(sessions).sessions()) == login_effect(
                old(sessions).lock(),
                old(sessions).sessions(),
                password_ok,
                step,
                base64_url(bytes),
                now,
            ),
        final(auth).last_totp_step == step_after(old(auth).last_totp_step, password_ok, step),
        final(auth).password_hash == old(auth).password_hash,
        final(auth).totp_secret == old(auth).totp_secret,
{
    let bytes: [u8; 32] = random_bytes();
    let r = finish_login_with(sessions, auth, password_ok, step, &bytes, now);
    assert(bytes@.len() == 32);
    assert(r@ == login_answer(password_ok, step, base64_url(bytes@)));
    r
}

/// What is known of a user who tries to log in, and of all others: the lockout, the sessions, and
/// the user's secrets with the last time step that was used.
pub struct Standing {
    pub lock: Lockout,
    pub sessions: Map<Seq<u8>, u64>,
    pub hash: Seq<char>,
    pub secret: Seq<char>,
    pub last: u64,
}

/// How things stand.
pub open spec fn standing(sessions: Sessions, auth: AuthState) -> Standing {
    Standing {
        lock: sessions.lock(),
        sessions: sessions.sessions(),
        hash: auth.password_hash@,
        secret: auth.totp_secret@,
        last: auth.last_totp_step,
    }
}

/// How things stand after a login that was not turned away, and what it is answered: its password
/// compared as `check` says, and a session that it opens has a token made of `bytes`.
pub open spec fn tried(
    before: Standing,
    check: PasswordCheck,
    code: Seq<char>,
    bytes: Seq<u8>,
    now: u64,
    now_unix: u64,
) -> (Standing, ReplyView) {
    let step = accepted_step(before.secret, code, now_unix, before.last);
    let token = base64_url(bytes);
    let (lock, sessions) = login_effect(
        before.lock,
        before.sessions,
        check is Match,
        step,
        token,
        now,
    );
    let last = step_after(before.last, check is Match, step);
    (Standing { lock, sessions, last, ..before }, login_answer(check is Match, step, token))
}

/// Goes on with a login that was not turned away, whose password compared as `check` says.
pub fn try_login(
    sessions: &mut Sessions,
    auth: &mut AuthState,
    check: PasswordCheck,
    code: &str,
    bytes: &[u8; 32],
    now: u64,
    now_unix: u64,
) -> (r: Reply)
    requires
        old(sessions).wf(),
        now + SESSION_TTL <= u64::MAX,
        now_unix + TOTP_STEP <= u64::MAX,
    ensures
        final(sessions).wf(),
        (standing(*final(sessions), *final(auth)), r@) == tried(
            standing(*old(sessions), *old(auth)),
            check,
            code@,
            bytes@,
            now,
            now_unix,
        ),
{
    let step = check_totp(auth, code, now_unix);
    finish_login_with(sessions, auth, lets_in(check), step, bytes, now)
}

/// Logs in with a password and a code, if both are right; `now_unix` is the wall clock's time. How
/// the password compares rests on the memory that can be had, and a new token on chance.
pub fn login(
    sessions: &mut Sessions,
    auth: &mut AuthState,
    password: &str,
    code: &str,
    now: u64,
    now_unix: u64,
) -> (r: Reply)
    requires
        old(sessions).wf(),
        turned_away(old(sessions).lock(), password@, code@, now) is None ==> now + SESSION_TTL
            <= u64::MAX && now_unix + TOTP_STEP <= u64::MAX,
    ensures
        final(sessions).wf(),
        match turned_away(old(sessions).lock(), password@, code@, now) {
            Some(refused) => r@ == refused && *final(sessions) == *old(sessions) && *final(auth)
                == *old(auth),
            None => exists|check: PasswordCheck, bytes: Seq<u8>|
                bytes.len() == 32 && compares(
                    old(auth).password_hash@,
                    encode_utf8(password@),
                    check,
                ) && (standing(*final(sessions), *final(auth)), r@) == #[trigger] tried(
                    standing(*old(sessions), *old(auth)),
                    check,
                    code@,
                    bytes,
                    now,
                    now_unix,
                ),
        },
{
    match precheck(sessions, password, code, now) {
        Some(refused) => refused,
        None => {
            let check = check_password(&auth.password_hash, password);
            let bytes: [u8; 32] = random_bytes();
            let ghost before = standing(*sessions, *auth);
            let r = try_login(sessions, auth, check, code, &bytes, now, now_unix);
            assert(bytes@.len() == 32);
            assert((standing(*sessions, *auth), r@) == tried(
                before,
                check,
                code@,
                bytes@,
                now,
                now_unix,
            ));
            r
        },
    }
}

/// Ends the session of a request, if it comes with one.
pub fn logout(sessions: &mut Sessions, cookies: &Vec<String>) -> (r: Reply)
    requires
        old(sessions).wf(),
    ensures
        final(sessions).wf(),
        final(sessions).lock() == old(sessions).lock(),
        final(sessions).sessions() == match cookie_of(texts_of(cookies@)) {
            Some(token) => old(sessions).sessions().remove(token_key(token)),
            None => old(sessions).sessions(),
        },
        r@ == (ReplyView { status: 200, body: BodyView::Done, cookie: Some(closing_cookie()) }),
{
    if let Some(token) = session_cookie(cookies) {
        sessions.revoke(&token);
    }
    Reply {
        status: 200,
        body: Body::Done,
        cookie: Some(
            "__Host-desk=; Path=/; Secure; HttpOnly; SameSite=Strict; Max-Age=0".to_owned(),
        ),
    }
}

/// Who is watching: at most one viewer at a time.
pub struct Viewers {
    active: Option<u64>,
    next: u64,
}

impl Default for Viewers {
    fn default() -> (v: Viewers)
        ensures
            v.watching() is None,
            v.next_id() == 0,
    {
        Viewers { active: None, next: 0 }
    }
}

impl Viewers {
    /// The viewer that is connected.
    pub closed spec fn watching(&self) -> Option<u64> {
        self.active
    }

    /// The number that the next viewer gets.
    pub closed spec fn next_id(&self) -> u64 {
        self.next
    }

    /// Makes room: the viewer that is to be stopped, if there is one.
    pub fn take(&mut self) -> (stopped: Option<u64>)
        ensures
            stopped == old(self).watching(),
            final(self).watching() is None,
            final(self).next_id() == old(self).next_id(),
    {
        let stopped = self.active;
        self.active = None;
        stopped
    }

    /// A session has started: the number of its viewer. Whoever else was watching by now is
    /// watching no more.
    pub fn started(&mut self) -> (id: u64)
        ensures
            id == old(self).next_id(),
            final(self).watching() == Some(id),
            final(self).next_id() == following(id),
    {
        let id: u64 = self.next;
        self.next = if id == u64::MAX {
            0
        } else {
            id + 1
        };
        self.active = Some(id);
        id
    }

    /// A signaling socket has closed: whether the session that it started is to be stopped. One
    /// that has been replaced by a newer one is not.
    pub fn closed(&mut self, mine: Option<u64>) -> (stop: bool)
        ensures
            (stop, final(self).watching()) == closing(old(self).watching(), mine),
            final(self).next_id() == old(self).next_id(),
    {
        let stop = match (mine, self.active) {
            (Some(m), Some(a)) => m == a,
            _ => false,
        };
        if stop {
            self.active = None;
        }
        stop
    }
}

/// Whether the session of a closed socket is stopped, and who is watching after that.
pub open spec fn closing(watching: Option<u64>, mine: Option<u64>) -> (bool, Option<u64>) {
    if mine is Some && watching == mine {
        (true, None)
    } else {
        (false, watching)
    }
}

/// The number after a viewer's.
pub open spec fn following(id: u64) -> u64 {
    if id == u64::MAX {
        0
    } else {
        (id + 1) as u64
    }
}

/// The origin that requests must come from: with Access switched off, only the plain loopback one.
pub fn expected_origin(insecure_local: bool, port: u16, public_origin: &str) -> (o: String)
    ensures
        o@ == if insecure_local {
            "http://localhost:"@ + decimal(port as nat)
        } else {
            public_origin@
        },
{
    if insecure_local {
        join2("http://localhost:", &decimal_text(port as u64))
    } else {
        public_origin.to_owned()
    }
}

/// Nothing that changes state, and no signaling socket, is reached from another origin or without
/// a token that is in order, where Access is used.
pub proof fn the_gate_is_tight(
    token: TokenCheck,
    method: Seq<char>,
    path: Seq<char>,
    origin: Option<Seq<char>>,
    expected: Seq<char>,
)
    requires
        gate(token, method, path, origin, expected) is None,
    ensures
        token == TokenCheck::NotNeeded || token == TokenCheck::Passed,
        method != "GET"@ ==> origin == Some(expected),
        path == "/ws"@ ==> origin == Some(expected),
{
}

/// The answer to a failed login is the same whatever was wrong.
pub proof fn failures_look_alike(step: Option<u64>, token: Seq<char>, other: Seq<char>)
    ensures
        login_answer(false, step, token) == login_answer(true, None, other),
{
}

/// A login needs both the password and a code: with either of them wrong no session is opened, no
/// code is used up, and the failure counts towards the lockout.
pub proof fn both_are_needed(
    lock: Lockout,
    sessions: Map<Seq<u8>, u64>,
    password_ok: bool,
    step: Option<u64>,
    token: Seq<char>,
    last: u64,
    now: u64,
)
    requires
        !password_ok || step is None,
    ensures
        login_effect(lock, sessions, password_ok, step, token, now) == (lock.failed(now), sessions),
        step_after(last, password_ok, step) == last,
        login_answer(password_ok, step, token).cookie is None,
{
}

/// A login with a wrong password, or with a code that is not accepted, is answered alike, and
/// without a cookie, whichever of them was wrong. It counts as one failure, opens no session and uses
/// up no code.
pub proof fn wrong_credentials_are_refused(
    before: Standing,
    password: Seq<char>,
    check: PasswordCheck,
    code: Seq<char>,
    bytes: Seq<u8>,
    now: u64,
    now_unix: u64,
)
    requires
        compares(before.hash, encode_utf8(password), check),
        phc_accepts(before.hash, encode_utf8(password), true) != Some(true) || accepted_step(
            before.secret,
            code,
            now_unix,
            before.last,
        ) is None,
    ensures
        tried(before, check, code, bytes, now, now_unix) == (
            (Standing { lock: before.lock.failed(now), ..before }),
            refusal(401, "invalid password or code"@),
        ),
{
}

/// A login with the right password and an accepted code opens a session that lasts twelve hours,
/// clears the lockout and uses up the code, unless there was too little memory to compare the
/// password.
pub proof fn right_credentials_let_in(
    before: Standing,
    password: Seq<char>,
    check: PasswordCheck,
    code: Seq<char>,
    bytes: Seq<u8>,
    start: u64,
    now_unix: u64,
    now: u64,
)
    requires
        bytes.len() == 32,
        start + SESSION_TTL <= u64::MAX,
        compares(before.hash, encode_utf8(password), check),
        phc_accepts(before.hash, encode_utf8(password), true) == Some(true),
        accepted_step(before.secret, code, now_unix, before.last) is Some,
        !(check is OutOfMemory),
    ensures
        ({
            let (after, reply) = tried(before, check, code, bytes, start, now_unix);
            &&& reply.status == 200
            &&& reply.cookie == Some(opening_cookie(base64_url(bytes)))
            &&& after.lock == Lockout::clear()
            &&& Some(after.last) == accepted_step(before.secret, code, now_unix, before.last)
            &&& has_session(
                after.sessions,
                seq![cookie_prefix() + base64_url(bytes)],
                now,
            ) <==> now < start + SESSION_TTL
        }),
{
    cookies_give_the_token_back(bytes);
}

/// A code lets in once: the same login again, even at the same moment, is refused.
pub proof fn codes_let_in_once(
    before: Standing,
    check: PasswordCheck,
    again: PasswordCheck,
    code: Seq<char>,
    bytes: Seq<u8>,
    other: Seq<u8>,
    now: u64,
    now_unix: u64,
    later: u64,
)
    ensures
        ({
            let (after, reply) = tried(before, check, code, bytes, now, now_unix);
            let (_, second) = tried(after, again, code, other, later, now_unix);
            reply.status == 200 ==> second == refusal(401, "invalid password or code"@)
        }),
{
}

/// While logins are locked, every login is turned away, whatever its password and code.
pub proof fn locked_means_locked(
    lock: Lockout,
    password: Seq<char>,
    code: Seq<char>,
    now: u64,
)
    requires
        lock.remaining(now) is Some,
    ensures
        turned_away(lock, password, code, now) is Some,
        turned_away(lock, password, code, now)->0.status == 429,
{
}

proof fn nothing_to_trim(s: Seq<char>)
    requires
        s.len() == 0 || (!is_space(s[0]) && !is_space(s.last())),
    ensures
        trimmed(s) == s,
{
    assert(trim_start(s) == s);
    assert(trim_end(s) == s);
}

proof fn base64_is_plain(n: int)
    requires
        0 <= n < 64,
    ensures
        !is_space(base64_char(n)),
        base64_char(n) != ';',
{
}

/// The token of a session comes back out of the cookie that the browser sends for it.
pub proof fn cookies_give_the_token_back(bytes: Seq<u8>)
    requires
        bytes.len() == 32,
    ensures
        cookie_of(seq![cookie_prefix() + base64_url(bytes)]) == Some(base64_url(bytes)),
{
    let token = base64_url(bytes);
    let value = cookie_prefix() + token;
    reveal_strlit("__Host-desk=");
    assert forall|j: int| 0 <= j < value.len() implies value[j] != ';' && !is_space(value[j]) by {
        if j >= 12 {
            assert(value[j] == token[j - 12]);
            base64_is_plain(sextet(bytes, j - 12));
        }
    }
    index_of_unique(value, ';', value.len());
    assert(pieces(value, ';') =~= seq![value]);
    nothing_to_trim(value);
    assert(value.take(12) =~= cookie_prefix());
    assert(value.skip(12) =~= token);
    let values = seq![value];
    assert(values[0] == value);
}

/// A browser that logged in is let in with its cookie until its session has run out.
pub proof fn a_login_lasts(
    lock: Lockout,
    sessions: Map<Seq<u8>, u64>,
    step: u64,
    bytes: Seq<u8>,
    start: u64,
    now: u64,
)
    requires
        bytes.len() == 32,
        start + SESSION_TTL <= u64::MAX,
    ensures
        has_session(
            login_effect(lock, sessions, true, Some(step), base64_url(bytes), start).1,
            seq![cookie_prefix() + base64_url(bytes)],
            now,
        ) <==> now < start + SESSION_TTL,
{
    cookies_give_the_token_back(bytes);
}

/// Of two sessions started one after the other, the newer one goes on when the socket of the older
/// one closes, and ends when its own does.
pub proof fn newer_viewers_stay(older: u64)
    ensures
        closing(Some(following(older)), Some(older)) == (false, Some(following(older))),
        closing(Some(following(older)), Some(following(older))) == (true, None::<u64>),
{
}

/// A request passes exactly if its token is in order, or none is needed, and it either only reads
/// something other than the signaling socket or comes from the exact origin. So the exact origin is
/// never refused for its origin, whatever the method, and reading is never refused for the lack of one.
/// What is refused is forbidden, and told which of the three was amiss, the token first.
pub proof fn who_passes_the_gate(
    token: TokenCheck,
    method: Seq<char>,
    path: Seq<char>,
    origin: Option<Seq<char>>,
    expected: Seq<char>,
)
    ensures
        gate(token, method, path, origin, expected) is None <==> (token is Passed || token
            is NotNeeded) && ((method == "GET"@ && path != "/ws"@) || origin == Some(expected)),
        gate(token, method, path, origin, expected) matches Some(reply) ==> {
            &&& reply.status == 403
            &&& reply.cookie is None
            &&& reply.body == BodyView::Error(
                if token is Missing {
                    "missing Access token"@
                } else if token is Failed {
                    "Access verification failed"@
                } else {
                    "bad origin"@
                },
            )
        },
{
}

/// With the exact origin, how a request is made and what it asks for make no difference.
pub proof fn the_exact_origin_opens_every_path(
    token: TokenCheck,
    method: Seq<char>,
    path: Seq<char>,
    other_method: Seq<char>,
    other_path: Seq<char>,
    expected: Seq<char>,
)
    ensures
        gate(token, method, path, Some(expected), expected) == gate(
            token,
            other_method,
            other_path,
            Some(expected),
            expected,
        ),
        token is Passed ==> gate(token, method, path, Some(expected), expected) is None,
{
}

/// Of the parts of a header, the first that is a session cookie gives the token.
proof fn first_part_counts(parts: Seq<Seq<char>>, k: int)
    requires
        0 <= k < parts.len(),
        begins_with(trimmed(parts[k]), "__Host-desk="@),
        forall|l: int|
            0 <= l < k ==> !begins_with(trimmed(#[trigger] parts[l]), "__Host-desk="@),
    ensures
        cookie_in(parts) == Some(trimmed(parts[k]).skip("__Host-desk="@.len() as int)),
    decreases k,
{
    if k > 0 {
        assert(!begins_with(trimmed(parts[0]), "__Host-desk="@));
        let rest = parts.drop_first();
        assert(rest[k - 1] == parts[k]);
        assert forall|l: int| 0 <= l < k - 1 implies !begins_with(
            trimmed(#[trigger] rest[l]),
            "__Host-desk="@,
        ) by {
            assert(rest[l] == parts[l + 1]);
        }
        first_part_counts(rest, k - 1);
    }
}

proof fn no_part_no_token(parts: Seq<Seq<char>>)
    requires
        forall|l: int|
            0 <= l < parts.len() ==> !begins_with(trimmed(#[trigger] parts[l]), "__Host-desk="@),
    ensures
        cookie_in(parts) is None,
    decreases parts.len(),
{
    if parts.len() > 0 {
        assert(!begins_with(trimmed(parts[0]), "__Host-desk="@));
        let rest = parts.drop_first();
        assert forall|l: int| 0 <= l < rest.len() implies !begins_with(
            trimmed(#[trigger] rest[l]),
            "__Host-desk="@,
        ) by {
            assert(rest[l] == parts[l + 1]);
        }
        no_part_no_token(rest);
    }
}

/// The token is that of the first session cookie: of all `Cookie` headers in order, and in each of all
/// its parts in order, the first whose trimmed text begins with the cookie's name. What stands in the
/// parts and headers before it, and after it, makes no difference.
pub proof fn the_first_session_cookie_counts(values: Seq<Seq<char>>, i: int, k: int)
    requires
        0 <= i < values.len(),
        0 <= k < pieces(values[i], ';').len(),
        begins_with(trimmed(pieces(values[i], ';')[k]), "__Host-desk="@),
        forall|l: int|
            0 <= l < k ==> !begins_with(
                trimmed(#[trigger] pieces(values[i], ';')[l]),
                "__Host-desk="@,
            ),
        forall|j: int, l: int|
            0 <= j < i && 0 <= l < pieces(values[j], ';').len() ==> !begins_with(
                trimmed(#[trigger] pieces(values[j], ';')[l]),
                "__Host-desk="@,
            ),
    ensures
        cookie_of(values) == Some(
            trimmed(pieces(values[i], ';')[k]).skip("__Host-desk="@.len() as int),
        ),
    decreases i,
{
    if i == 0 {
        first_part_counts(pieces(values[0], ';'), k);
    } else {
        assert forall|l: int| 0 <= l < pieces(values[0], ';').len() implies !begins_with(
            trimmed(#[trigger] pieces(values[0], ';')[l]),
            "__Host-desk="@,
        ) by {}
        no_part_no_token(pieces(values[0], ';'));
        let rest = values.drop_first();
        assert(rest[i - 1] == values[i]);
        assert forall|j: int, l: int|
            0 <= j < i - 1 && 0 <= l < pieces(rest[j], ';').len() implies !begins_with(
            trimmed(#[trigger] pieces(rest[j], ';')[l]),
            "__Host-desk="@,
        ) by {
            assert(rest[j] == values[j + 1]);
        }
        the_first_session_cookie_counts(rest, i - 1, k);
    }
}

/// There is no token only if no part of any header is a session cookie.
pub proof fn without_a_session_cookie_there_is_no_token(values: Seq<Seq<char>>)
    requires
        forall|j: int, l: int|
            0 <= j < values.len() && 0 <= l < pieces(values[j], ';').len() ==> !begins_with(
                trimmed(#[trigger] pieces(values[j], ';')[l]),
                "__Host-desk="@,
            ),
    ensures
        cookie_of(values) is None,
    decreases values.len(),
{
    if values.len() > 0 {
        assert forall|l: int| 0 <= l < pieces(values[0], ';').len() implies !begins_with(
            trimmed(#[trigger] pieces(values[0], ';')[l]),
            "__Host-desk="@,
        ) by {}
        no_part_no_token(pieces(values[0], ';'));
        let rest = values.drop_first();
        assert forall|j: int, l: int|
            0 <= j < rest.len() && 0 <= l < pieces(rest[j], ';').len() implies !begins_with(
            trimmed(#[trigger] pieces(rest[j], ';')[l]),
            "__Host-desk="@,
        ) by {
            assert(rest[j] == values[j + 1]);
        }
        without_a_session_cookie_there_is_no_token(rest);
    }
}

/// The part of a header that is a session cookie, with white space before it, gives its token.
proof fn a_part_gives_its_token(gap: Seq<char>, token: Seq<char>)
    requires
        forall|i: int| 0 <= i < gap.len() ==> is_space(#[trigger] gap[i]),
        token.len() > 0 ==> !is_space(token.last()),
    ensures
        ({
            let part = gap + "__Host-desk="@ + token;
            &&& begins_with(trimmed(part), "__Host-desk="@)
            &&& trimmed(part).skip("__Host-desk="@.len() as int) == token
        }),
{
    reveal_strlit("__Host-desk=");
    let core = "__Host-desk="@ + token;
    assert(core[0] == '_');
    assert(core.last() == if token.len() > 0 {
        token.last()
    } else {
        '='
    });
    trimming_takes_off_white_space(gap, core, Seq::empty());
    assert(gap + "__Host-desk="@ + token =~= gap + core + Seq::<char>::empty());
    beginnings_can_be_taken_off("__Host-desk="@, token, core);
    assert(core.skip("__Host-desk="@.len() as int) =~= token);
}

/// Other cookies do not hide the session's. A browser sends its cookies in one header, in an order of
/// its own: whatever stands before the session cookie, as long as none of it is one, and whatever
/// follows it, the token comes back.
pub proof fn other_cookies_do_not_hide_it(
    before: Seq<char>,
    gap: Seq<char>,
    token: Seq<char>,
    after: Seq<char>,
    later: Seq<Seq<char>>,
)
    requires
        forall|l: int|
            0 <= l < pieces(before, ';').len() ==> !begins_with(
                trimmed(#[trigger] pieces(before, ';')[l]),
                "__Host-desk="@,
            ),
        forall|i: int| 0 <= i < gap.len() ==> is_space(#[trigger] gap[i]),
        !token.contains(';'),
        token.len() > 0 ==> !is_space(token.last()),
    ensures
        ({
            let cookie = gap + "__Host-desk="@ + token;
            &&& cookie_of(seq![cookie] + later) == Some(token)
            &&& cookie_of(seq![cookie + seq![';'] + after] + later) == Some(token)
            &&& cookie_of(seq![before + seq![';'] + cookie] + later) == Some(token)
            &&& cookie_of(seq![before + seq![';'] + (cookie + seq![';'] + after)] + later) == Some(
                token,
            )
        }),
{
    reveal_strlit("__Host-desk=");
    let cookie = gap + "__Host-desk="@ + token;
    a_part_gives_its_token(gap, token);
    assert(!cookie.contains(';')) by {
        if cookie.contains(';') {
            let j = choose|j: int| 0 <= j < cookie.len() && cookie[j] == ';';
            if j < gap.len() {
                assert(is_space(gap[j]));
            } else if j >= gap.len() + 12 {
                assert(token[j - gap.len() - 12] == ';');
            }
        }
    }
    let tailed = cookie + seq![';'] + after;
    cutting_undoes_joining(cookie, after, ';');
    cutting_undoes_joining(before, cookie, ';');
    cutting_undoes_joining(before, tailed, ';');
    let n = pieces(before, ';').len() as int;
    assert(pieces(cookie, ';')[0] == cookie);
    assert(pieces(tailed, ';')[0] == cookie);
    first_header_decides(cookie, 0, token, later);
    first_header_decides(tailed, 0, token, later);
    let headed = before + seq![';'] + cookie;
    assert(pieces(headed, ';')[n] == cookie);
    assert forall|l: int| 0 <= l < n implies !begins_with(
        trimmed(#[trigger] pieces(headed, ';')[l]),
        "__Host-desk="@,
    ) by {
        assert(pieces(headed, ';')[l] == pieces(before, ';')[l]);
    }
    first_header_decides(headed, n, token, later);
    let both = before + seq![';'] + tailed;
    assert(pieces(both, ';')[n] == pieces(tailed, ';')[0]);
    assert forall|l: int| 0 <= l < n implies !begins_with(
        trimmed(#[trigger] pieces(both, ';')[l]),
        "__Host-desk="@,
    ) by {
        assert(pieces(both, ';')[l] == pieces(before, ';')[l]);
    }
    first_header_decides(both, n, token, later);
}

proof fn first_header_decides(value: Seq<char>, k: int, token: Seq<char>, later: Seq<Seq<char>>)
    requires
        0 <= k < pieces(value, ';').len(),
        begins_with(trimmed(pieces(value, ';')[k]), "__Host-desk="@),
        trimmed(pieces(value, ';')[k]).skip("__Host-desk="@.len() as int) == token,
        forall|l: int|
            0 <= l < k ==> !begins_with(
                trimmed(#[trigger] pieces(value, ';')[l]),
                "__Host-desk="@,
            ),
    ensures
        cookie_of(seq![value] + later) == Some(token),
{
    let values = seq![value] + later;
    assert(values[0] == value);
    the_first_session_cookie_counts(values, 0, k);
}

/// What a browser is told to keep reads back as the token that was handed out, and what it is told when
/// the session ends as the empty token.
pub proof fn cookies_that_are_set_can_be_read(token: Seq<char>)
    requires
        !token.contains(';'),
        token.len() > 0 ==> !is_space(token.last()),
    ensures
        cookie_of(seq![opening_cookie(token)]) == Some(token),
        cookie_of(seq![closing_cookie()]) == Some(Seq::<char>::empty()),
        opening_cookie(token) == "__Host-desk="@ + token
            + "; Path=/; Secure; HttpOnly; SameSite=Strict; Max-Age="@ + decimal(12 * 60 * 60),
        closing_cookie() == "__Host-desk="@ + "; Path=/; Secure; HttpOnly; SameSite=Strict; Max-Age="@
            + "0"@,
{
    reveal_strlit("__Host-desk=");
    reveal_strlit("0");
    reveal_strlit("; Path=/; Secure; HttpOnly; SameSite=Strict; Max-Age=");
    reveal_strlit("__Host-desk=; Path=/; Secure; HttpOnly; SameSite=Strict; Max-Age=0");
    let none = Seq::<char>::empty();
    let tail = "; Path=/; Secure; HttpOnly; SameSite=Strict; Max-Age="@;
    assert(closing_cookie() =~= "__Host-desk="@ + tail + "0"@);
    let opening = opening_cookie(token);
    let after = tail.skip(1) + decimal(12 * 60 * 60);
    assert(opening =~= (none + "__Host-desk="@ + token) + seq![';'] + after);
    assert(trim_start(none) =~= none);
    assert(index_of(none, ';') == 0);
    assert(pieces(none, ';') =~= seq![none]);
    assert(trimmed(none) =~= none);
    other_cookies_do_not_hide_it(none, none, token, after, Seq::empty());
    assert(seq![opening] =~= seq![opening] + Seq::<Seq<char>>::empty());
    let closing = closing_cookie();
    let ended = tail.skip(1) + "0"@;
    assert(closing =~= (none + "__Host-desk="@ + none) + seq![';'] + ended);
    other_cookies_do_not_hide_it(none, none, none, ended, Seq::empty());
    assert(seq![closing] =~= seq![closing] + Seq::<Seq<char>>::empty());
}

/// A request comes with an open session exactly if its token is filed, under its digest, as one that
/// ends later.
pub proof fn sessions_are_found_by_their_token(
    sessions: Map<Seq<u8>, u64>,
    cookies: Seq<Seq<char>>,
    now: u64,
)
    ensures
        has_session(sessions, cookies, now) <==> {
            &&& cookie_of(cookies) is Some
            &&& sessions.contains_key(sha256(encode_utf8(cookie_of(cookies)->0)))
            &&& now < sessions[sha256(encode_utf8(cookie_of(cookies)->0))]
        },
{
}

/// A login is turned away while logins are locked, and told in how many minutes, rounded up, to try
/// again. Otherwise it is turned away exactly if its password is longer than 1024 octets or its code
/// longer than 16.
pub proof fn who_is_turned_away(
    lock: Lockout,
    password: Seq<char>,
    code: Seq<char>,
    now: u64,
    minutes: nat,
)
    ensures
        lock.locked_until matches Some(end) ==> (60_000_000_000 * (minutes - 1) <= end - now
            && end - now < 60_000_000_000 * minutes && now < end ==> turned_away(
            lock,
            password,
            code,
            now,
        ) == Some(
            (ReplyView {
                status: 429,
                body: BodyView::Error("locked, try again in "@ + decimal(minutes) + " min"@),
                cookie: None,
            }),
        )),
        (lock.locked_until is None || lock.locked_until->0 <= now) ==> turned_away(
            lock,
            password,
            code,
            now,
        ) == if encode_utf8(password).len() <= 1024 && encode_utf8(code).len() <= 16 {
            None
        } else {
            Some(
                (ReplyView {
                    status: 400,
                    body: BodyView::Error("invalid input"@),
                    cookie: None,
                }),
            )
        },
{
}

/// A login is answered with a cookie exactly if both the password and the code were right; then it is
/// 200, and otherwise 401 with one and the same message.
pub proof fn how_a_login_is_answered(password_ok: bool, step: Option<u64>, token: Seq<char>)
    ensures
        login_answer(password_ok, step, token) == if password_ok && step is Some {
            (ReplyView {
                status: 200,
                body: BodyView::Done,
                cookie: Some(opening_cookie(token)),
            })
        } else {
            (ReplyView {
                status: 401,
                body: BodyView::Error("invalid password or code"@),
                cookie: None,
            })
        },
{
}

/// A login that succeeds files its token for twelve hours, keeps every session that is still open,
/// forgets all failures, and uses up its code: no code of the same or an earlier step is good again.
pub proof fn what_a_login_leaves(
    lock: Lockout,
    sessions: Map<Seq<u8>, u64>,
    step: u64,
    last: u64,
    token: Seq<char>,
    now: u64,
    other: Seq<u8>,
)
    requires
        now + 43_200_000_000_000 <= u64::MAX,
        other != sha256(encode_utf8(token)),
    ensures
        ({
            let (left, after) = login_effect(lock, sessions, true, Some(step), token, now);
            let key = sha256(encode_utf8(token));
            &&& left.failures == 0
            &&& left.locked_until is None
            &&& after.contains_key(key)
            &&& after[key] == now + 43_200_000_000_000
            &&& after.contains_key(other) <==> sessions.contains_key(other) && sessions[other] > now
            &&& after.contains_key(other) ==> after[other] == sessions[other]
        }),
        step_after(last, true, Some(step)) == step,
        step_after(last, false, Some(step)) == last,
        step_after(last, true, None) == last,
{
}

/// A closing socket stops the session that it started if that is still the one being watched; then
/// nobody is watching, and otherwise whoever was watching goes on.
pub proof fn only_the_watched_session_stops(watching: Option<u64>, mine: Option<u64>)
    ensures
        closing(watching, mine).0 <==> mine is Some && watching is Some && mine->0 == watching->0,
        closing(watching, mine).1 == if closing(watching, mine).0 {
            None
        } else {
            watching
        },
{
}

/// Viewers are numbered one after the other, from zero again once the numbers are used up.
pub proof fn viewers_are_numbered(id: u64)
    ensures
        following(id) == (id + 1) % 0x1_0000_0000_0000_0000,
{
}

/// Every response forbids what a page of the portal has no use for.
pub proof fn responses_are_protected()
    ensures
        protective_headers().len() == 7,
        protective_headers()[0].0 == "content-security-policy"@,
        protective_headers()[0].1
            == "default-src 'none'; script-src 'self'; style-src 'self'; font-src 'self'; img-src 'self' data:; connect-src 'self'; media-src 'self' blob:; base-uri 'none'; form-action 'self'; frame-ancestors 'none'"@,
        protective_headers().contains(("x-content-type-options"@, "nosniff"@)),
        protective_headers().contains(("referrer-policy"@, "no-referrer"@)),
        protective_headers().contains(("cross-origin-opener-policy"@, "same-origin"@)),
        protective_headers().contains(
            ("permissions-policy"@, "camera=(), microphone=(), geolocation=()"@),
        ),
        protective_headers().contains(("strict-transport-security"@, "max-age=31536000"@)),
        protective_headers().contains(("cache-control"@, "no-store"@)),
{
    let h = protective_headers();
    assert(h[1] == ("x-content-type-options"@, "nosniff"@));
    assert(h[2] == ("referrer-policy"@, "no-referrer"@));
    assert(h[3] == ("cross-origin-opener-policy"@, "same-origin"@));
    assert(h[4] == ("permissions-policy"@, "camera=(), microphone=(), geolocation=()"@));
    assert(h[5] == ("strict-transport-security"@, "max-age=31536000"@));
    assert(h[6] == ("cache-control"@, "no-store"@));
}

/// What the portal reads at most, and how long it holds a failed login back.
pub proof fn the_portal_keeps_to_its_limits()
    ensures
        MAX_WS_MESSAGE == 256 * 1024,
        FAILURE_DELAY_MS == 500,
        MAX_PASSWORD == 1024,
        MAX_CODE == 16,
{
}

/// How things stand is what is kept, each thing under its own name.
pub proof fn what_is_known_of_the_user(sessions: Sessions, auth: AuthState)
    ensures
        standing(sessions, auth).lock == sessions.lock(),
        standing(sessions, auth).sessions == sessions.sessions(),
        standing(sessions, auth).hash == auth.password_hash@,
        standing(sessions, auth).secret == auth.totp_secret@,
        standing(sessions, auth).last == auth.last_totp_step,
{
}

/// A login changes neither the password nor the secret, and every session that was open stays open
/// until its end, whether the login succeeds or not.
pub proof fn logins_leave_the_rest_alone(
    before: Standing,
    check: PasswordCheck,
    code: Seq<char>,
    bytes: Seq<u8>,
    now: u64,
    now_unix: u64,
    key: Seq<u8>,
    later: u64,
)
    requires
        key != sha256(encode_utf8(base64_url(bytes))),
        now <= later,
    ensures
        ({
            let after = tried(before, check, code, bytes, now, now_unix).0;
            &&& after.hash == before.hash
            &&& after.secret == before.secret
            &&& after.last >= before.last
            &&& (after.sessions.contains_key(key) && after.sessions[key] > later) == (
            before.sessions.contains_key(key) && before.sessions[key] > later)
        }),
{
}

/// A login succeeds exactly if the password matched and the code was accepted for a step that had not
/// been used; then that step is used.
pub proof fn a_login_succeeds_by_both(
    before: Standing,
    check: PasswordCheck,
    code: Seq<char>,
    bytes: Seq<u8>,
    now: u64,
    now_unix: u64,
)
    ensures
        ({
            let (after, reply) = tried(before, check, code, bytes, now, now_unix);
            let step = accepted_step(before.secret, code, now_unix, before.last);
            &&& reply.status == 200 <==> check is Match && step is Some
            &&& reply.status != 200 ==> reply.status == 401 && after.last == before.last
                && after.sessions == before.sessions
            &&& reply.status == 200 ==> after.last == step->0
        }),
{
}

} // verus!
