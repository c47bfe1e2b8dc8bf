//! Who is let in, what is answered, who is watching.

use desk_agent::config::AuthState;
use desk_agent::http::{
    deny, expected_origin, finish_login, finish_login_with, logged_in, login, logout, me, precheck,
    require_access, security_headers, session_cookie, try_login, ws, Body, Reply, TokenCheck,
    Viewers,
};
use desk_agent::password::{hash_password, PasswordCheck};
use desk_agent::sessions::{Sessions, LOCKOUT, MAX_FAILURES, SESSION_TTL};
use desk_agent::totp::totp;

fn error(r: &Reply) -> (u16, &str) {
    match &r.body {
        Body::Error(m) => (r.status, m.as_str()),
        _ => panic!("no error"),
    }
}

fn cookies(list: &[&str]) -> Vec<String> {
    list.iter().map(|s| s.to_string()).collect()
}

fn state() -> AuthState {
    AuthState { password_hash: "h".into(), totp_secret: "s".into(), last_totp_step: 4 }
}

const O: &str = "https://desk.example.com";

#[test]
fn the_gate_asks_for_token_and_origin() {
    let gate = |t, m: &str, p: &str, o| {
        require_access(t, m, p, o, O).map(|r| {
            let (s, m) = error(&r);
            (s, m.to_string())
        })
    };
    let bad = |m: &str| Some((403, m.to_string()));
    assert_eq!(gate(TokenCheck::Missing, "GET", "/api/me", None), bad("missing Access token"));
    assert_eq!(
        gate(TokenCheck::Failed, "POST", "/api/login", Some(O)),
        bad("Access verification failed")
    );
    assert_eq!(gate(TokenCheck::Passed, "GET", "/api/me", None), None);
    assert_eq!(gate(TokenCheck::Passed, "GET", "/ws", None), bad("bad origin"));
    assert_eq!(gate(TokenCheck::Passed, "GET", "/ws", Some(O)), None);
    assert_eq!(gate(TokenCheck::NotNeeded, "POST", "/api/login", None), bad("bad origin"));
    assert_eq!(
        gate(TokenCheck::Passed, "POST", "/api/login", Some("https://desk.example.com/")),
        bad("bad origin")
    );
    assert_eq!(gate(TokenCheck::NotNeeded, "POST", "/api/login", Some(O)), None);
}

#[test]
fn the_session_cookie_is_found() {
    assert_eq!(session_cookie(&cookies(&["__Host-desk=abc"])), Some("abc".into()));
    assert_eq!(
        session_cookie(&cookies(&["a=b; c", " __Host-desk=x=y ;__Host-desk=z"])),
        Some("x=y".into())
    );
    assert_eq!(session_cookie(&cookies(&["x__Host-desk=abc; __host-desk=q"])), None);
    assert_eq!(session_cookie(&cookies(&["__Host-desk="])), Some("".into()));
    assert_eq!(session_cookie(&cookies(&[])), None);
}

#[test]
fn a_login_opens_a_session() {
    let mut s = Sessions::default();
    let mut a = state();
    let r = finish_login_with(&mut s, &mut a, true, Some(9), &[7; 32], 100);
    assert_eq!(r.status, 200);
    assert!(matches!(r.body, Body::Done));
    let token = "BwcHBwcHBwcHBwcHBwcHBwcHBwcHBwcHBwcHBwcHBwc";
    assert_eq!(
        r.cookie.unwrap(),
        format!(
            "__Host-desk={token}; Path=/; Secure; HttpOnly; SameSite=Strict; Max-Age=43200"
        )
    );
    assert_eq!(a.last_totp_step, 9);
    let sent = cookies(&[&format!("__Host-desk={token}")]);
    assert!(logged_in(&s, &sent, 100 + SESSION_TTL - 1));
    assert!(!logged_in(&s, &sent, 100 + SESSION_TTL));
    assert!(matches!(me(&s, &sent, 200).body, Body::Authenticated(true)));
    assert!(matches!(me(&s, &cookies(&["x"]), 200).body, Body::Authenticated(false)));
    assert!(ws(&s, &sent, 200).is_none());
    assert_eq!(error(&ws(&s, &cookies(&[]), 200).unwrap()), (401, "login required"));

    let r = logout(&mut s, &sent);
    assert_eq!(
        r.cookie.as_deref(),
        Some("__Host-desk=; Path=/; Secure; HttpOnly; SameSite=Strict; Max-Age=0")
    );
    assert!(!logged_in(&s, &sent, 200));
}

#[test]
fn random_tokens_differ() {
    let mut s = Sessions::default();
    let mut a = state();
    let x = finish_login(&mut s, &mut a, true, Some(9), 0).cookie.unwrap();
    let y = finish_login(&mut s, &mut a, true, Some(10), 0).cookie.unwrap();
    assert_ne!(x, y);
    let sent = cookies(&[x.split(';').next().unwrap()]);
    assert!(logged_in(&s, &sent, 1));
}

#[test]
fn failures_look_alike_and_lock() {
    let mut s = Sessions::default();
    let mut a = state();
    for (password_ok, step) in [(false, Some(9)), (true, None), (false, None)] {
        let r = finish_login_with(&mut s, &mut a, password_ok, step, &[1; 32], 50);
        assert_eq!(error(&r), (401, "invalid password or code"));
        assert!(r.cookie.is_none());
        assert_eq!(a.last_totp_step, 4);
    }
    assert!(precheck(&s, "p", "c", 50).is_none());
    for _ in 3..MAX_FAILURES {
        finish_login_with(&mut s, &mut a, false, None, &[1; 32], 50);
    }
    assert_eq!(
        error(&precheck(&s, "p", "c", 50).unwrap()),
        (429, "locked, try again in 16 min")
    );
    assert_eq!(
        error(&precheck(&s, "p", "c", 50 + LOCKOUT - 1).unwrap()),
        (429, "locked, try again in 1 min")
    );
    assert!(precheck(&s, "p", "c", 50 + LOCKOUT).is_none());
}

#[test]
fn overlong_input_is_refused() {
    let s = Sessions::default();
    assert!(precheck(&s, &"x".repeat(1024), &"1".repeat(16), 0).is_none());
    for (p, c) in [("x".repeat(1025), "1".into()), ("x".into(), "1".repeat(17))] {
        assert_eq!(error(&precheck(&s, &p, &c, 0).unwrap()), (400, "invalid input"));
    }
    assert_eq!(error(&precheck(&s, &"é".repeat(513), "1", 0).unwrap()).0, 400);
}

#[test]
fn one_viewer_at_a_time() {
    let mut v = Viewers::default();
    assert_eq!(v.take(), None);
    let a = v.started();
    assert_eq!(v.take(), Some(a));
    let b = v.started();
    assert_ne!(a, b);
    // The socket of the older viewer closes: the newer one stays.
    assert!(!v.closed(Some(a)));
    assert!(!v.closed(None));
    assert!(v.closed(Some(b)));
    assert!(!v.closed(Some(b)));
    assert_eq!(v.take(), None);
}

#[test]
fn responses_are_protected() {
    let h = security_headers();
    assert_eq!(h.len(), 7);
    assert!(h[0].1.ends_with("form-action 'self'; frame-ancestors 'none'"));
    assert!(h.contains(&("x-content-type-options", "nosniff")));
    assert!(h.contains(&("cache-control", "no-store")));
    assert_eq!(error(&deny(418, "short and stout")), (418, "short and stout"));
}

#[test]
fn the_expected_origin() {
    assert_eq!(expected_origin(true, 8750, O), "http://localhost:8750");
    assert_eq!(expected_origin(false, 8750, O), O);
}

/// A secret for one-time passwords, in base32.
const SECRET: &str = "GEZDGNBVGY3TQOJQGEZDGNBVGY3TQOJQ";

fn code(now_unix: u64) -> String {
    totp(SECRET, "desk", "owner").ok().unwrap().generate(now_unix)
}

#[test]
fn a_login_takes_password_and_code() {
    let (now, unix) = (7_000_000_000, 1_800_000_000);
    let mut s = Sessions::default();
    let mut auth = AuthState {
        password_hash: hash_password("correct horse").unwrap(),
        totp_secret: SECRET.into(),
        last_totp_step: 0,
    };
    let right = code(unix);
    let refused = (401, "invalid password or code");

    let r = login(&mut s, &mut auth, "wrong horse", &right, now, unix);
    assert_eq!((error(&r), r.cookie.is_some()), (refused, false));
    let r = login(&mut s, &mut auth, "correct horse", "000000", now, unix);
    assert_eq!((error(&r), r.cookie.is_some()), (refused, false));
    assert_eq!(auth.last_totp_step, 0);

    let r = login(&mut s, &mut auth, "correct horse", &right, now, unix);
    assert_eq!(r.status, 200);
    assert_eq!(auth.last_totp_step, unix / 30);
    let cookie = r.cookie.unwrap();
    let sent = cookies(&[cookie.split(';').next().unwrap()]);
    assert!(logged_in(&s, &sent, now + SESSION_TTL - 1));
    assert!(!logged_in(&s, &sent, now + SESSION_TTL));

    // The code is used up; the failures before the success are forgotten.
    for n in 1..=MAX_FAILURES {
        assert_eq!(s.locked_for(now), None, "{n}");
        let r = login(&mut s, &mut auth, "correct horse", &right, now, unix);
        assert_eq!(error(&r), refused);
    }
    let next = code(unix + 30);
    let r = login(&mut s, &mut auth, "correct horse", &next, now, unix + 30);
    assert_eq!(error(&r), (429, "locked, try again in 16 min"));
    assert_eq!(auth.last_totp_step, unix / 30);
    let r = login(&mut s, &mut auth, "correct horse", &next, now + LOCKOUT, unix + 30);
    assert_eq!(r.status, 200);
}

#[test]
fn overlong_logins_count_as_no_failure() {
    let mut s = Sessions::default();
    let mut auth = state();
    for _ in 0..MAX_FAILURES {
        let r = login(&mut s, &mut auth, &"x".repeat(1025), "1", 5, 5);
        assert_eq!(error(&r), (400, "invalid input"));
    }
    assert_eq!(s.locked_for(5), None);
}

#[test]
fn too_little_memory_is_a_failure() {
    let unix = 1_800_000_000;
    let auth = || AuthState {
        password_hash: "h".into(),
        totp_secret: SECRET.into(),
        last_totp_step: 0,
    };
    for (check, status) in [
        (PasswordCheck::Match, 200),
        (PasswordCheck::Mismatch, 401),
        (PasswordCheck::OutOfMemory, 401),
    ] {
        let (mut s, mut a) = (Sessions::default(), auth());
        let r = try_login(&mut s, &mut a, check, &code(unix), &[7; 32], 5, unix);
        assert_eq!(r.status, status, "{check:?}");
        assert_eq!(a.last_totp_step, if status == 200 { unix / 30 } else { 0 });
    }
}
