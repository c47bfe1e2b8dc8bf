//! The three gates: the Access token, the password and the one-time password; sessions and the
//! lockout.

use base64::Engine;
use desk_agent::access::{
    act_on, judge, verdict_on, AccessError, AccessVerifier, Attempt, BadKeySet, JWKS_MIN_REFRESH,
};
use desk_agent::claims::{claim, token_claim};
use desk_agent::clock::{seconds_or_zero, unix_now};
use desk_agent::config::{AccessConfig, AuthState};
use desk_agent::password::{
    check_password, hash_outcome, hash_password, lets_in, verify_password, HashError, PasswordCheck,
};
use desk_agent::sessions::{Sessions, LOCKOUT, MAX_FAILURES, SESSION_TTL};
use desk_agent::totp::{
    check_totp, new_totp_secret, newer_step, secret_text, strip_space, totp, ShowError, TotpError,
    TOTP_STEP,
};
use jsonwebtoken::{Algorithm, EncodingKey, Header};
use serde_json::Value;

const SECOND: u64 = 1_000_000_000;

/// A key made for these tests alone: PKCS#1, in base64.
const TEST_RSA: &str = "MIIEpAIBAAKCAQEAnf9M1Bm47XoI4xgPDxEe58jyF4JqNUVHNtus5Nxa0Un+YGsNQ3ot18Sw8+AhDDx6bkplZirm\
     FrXzhjys+Zk2QrUSZlTShWGYQ8jVCr723WA1ytkYjd31bed5nLyrKd5HuHJwKIXepy+SPdnpd43T8eoCMGpxDqtO\
     D/QooYU7T75fFjXRgqkONsr6a+/Xv+DrOUU9mi2+0sHhfO1ZFz1b+ynB1AyDe/Y1/dm41zwXdpRB1LhnmlpnMz9I\
     6dh3VnwbS+Jon7udHlS0wLJGZGzTL5j59JcHzAtM/EAIAu43tj1dAXmZ4R+O7JhEobZSS/WnzzrjLxFCoITx0HEl\
     U92cTQIDAQABAoIBAAIbGIGNNDdKFJs+Q1kej8xkE8H3dYXvPfM/u06zlyxJ8a+ETcFz++9vyjH970LT/YfByxcx\
     BC8STsQfw+hxv9Tkx/GAOOwZMGfa4egKQo0RzrW87gRaDH7iAm9x3lApC8isEc2gdybAThEv+dojlEsZpNzTVl1t\
     MBWrWe1JMtCtwgTWPy0SWTqtCq1pUQLHlvMzMqVgWhc9L+8yf8SNxjDer1QrOiaOVDLqFU9LPD1qwkrx9vdjdf+t\
     YCH0PkjJr/w9P2UMNaFvwZ5irob6NoCdIOrgxzBFZ5QCcW8CT8oIyCpWz4mj5KZpX7Gh4QNtqdQsQmvIhBKWEZr/\
     EJU4eeECgYEA1Vw4SN9bWnZgFTZBigdnnlrJDpBB/6hCKkKulDtoHQByOKuQsdfMYKufJP/pYjiHAdHPiMjcJj9K\
     7fLH4psl0UVhE0pfVIHlV9YO5t09tBtBP8RJz1Dh2UpRQNqi0GN1DaYSzNdWbd/LQZA8pqtOc9cjSsod7UIfNLDf\
     zQXK4d0CgYEAvZKj/vJHmyBR4WnZjgWrWT1lzwkK0ntzy6FHt80qwHnNBLtMGc0Nn54NYOHcS9ZzUyXbRLRaiCEf\
     7rloufFq3u2sFTXTEqSHFfN9JxCQuI3uEKS9vdC2UW4599JaHc6V179YxP46wbYwxdBkO7rU2N8CLGJU0qC8ubvf\
     bQeSVTECgYAj4tn4r9C+u3BXwQNvAuXTxbNRhsQDCzrtvr98YS2Wyy9rBrhUoVZX4CXpZD3N7nIOxUph2F7m8/hX\
     Y2FpZO0McN3uD7FPFnYLuw5QmF+7fmYQIqTDgPgrwws9nEiMQl46yHcbCxEXc+/M/ESnR+LvKv1do/c6o8d55lIO\
     Ou4v5QKBgQC7p68jLd3oF0Q2aLtstPv7KKXhHchSttXXWt1NepC5W1ixOF6Ko8q6mJARuUKC59PdGPpGtmlvm6qq\
     e2rJtcrexlKz5EX+jFMUTaUzyFgZ+JUScKFKhpITZZOIV/fQzbDSkp1i026CVsFM745o+fa8f3T9TpE8ttRa3zi6\
     Cua14QKBgQCdBbbjS/vRO72CyPN1QPA+d8lvqZouyyGINBr2kRv44YWcgH/c7eJMsJn1SFWNiiwWrk9eWQ7we+p3\
     2TvwyZvac6+fIMALnUgu0j242qTNlyD5yZqn3ldwS98lR53zlx5aed7rPdK+pxO5ud9kfQWAHRz3kuMUw6sHcZa3\
     D03wnQ==";

/// Its modulus.
const TEST_RSA_N: &str = "nf9M1Bm47XoI4xgPDxEe58jyF4JqNUVHNtus5Nxa0Un-YGsNQ3ot18Sw8-AhDDx6bkplZirmFrXzhjys-Zk2QrUS\
     ZlTShWGYQ8jVCr723WA1ytkYjd31bed5nLyrKd5HuHJwKIXepy-SPdnpd43T8eoCMGpxDqtOD_QooYU7T75fFjXR\
     gqkONsr6a-_Xv-DrOUU9mi2-0sHhfO1ZFz1b-ynB1AyDe_Y1_dm41zwXdpRB1LhnmlpnMz9I6dh3VnwbS-Jon7ud\
     HlS0wLJGZGzTL5j59JcHzAtM_EAIAu43tj1dAXmZ4R-O7JhEobZSS_WnzzrjLxFCoITx0HElU92cTQ";

fn cfg() -> AccessConfig {
    AccessConfig {
        team_domain: "example.cloudflareaccess.com".into(),
        aud: "aud-tag-123".into(),
        allowed_email: "owner@example.com".into(),
    }
}

fn jwks() -> String {
    format!(
        "{{\"keys\":[{{\"kty\":\"RSA\",\"use\":\"sig\",\"alg\":\"RS256\",\"kid\":\"test-kid\",\"n\":\"{TEST_RSA_N}\",\"e\":\"AQAB\"}}]}}"
    )
}

fn with_test_key() -> AccessVerifier {
    let mut v = AccessVerifier::new(cfg());
    v.install(jwks().as_bytes(), 0).unwrap();
    v
}

fn sign(header: &Header, claims: &Value) -> String {
    let der = base64::engine::general_purpose::STANDARD.decode(TEST_RSA).unwrap();
    jsonwebtoken::encode(header, claims, &EncodingKey::from_rsa_der(&der)).unwrap()
}

fn token(claims: Value, kid: &str) -> String {
    let mut header = Header::new(Algorithm::RS256);
    header.kid = Some(kid.into());
    sign(&header, &claims)
}

fn claims(email: &str, aud: &str, iss: &str, exp_offset: i64) -> Value {
    let mut m = serde_json::Map::new();
    m.insert("email".into(), Value::from(email));
    m.insert("aud".into(), Value::from(vec![aud]));
    m.insert("iss".into(), Value::from(iss));
    m.insert("exp".into(), Value::from(unix_now() as i64 + exp_offset));
    Value::Object(m)
}

const ISS: &str = "https://example.cloudflareaccess.com";

#[test]
fn access_accepts_valid_token() {
    let t = token(claims("Owner@Example.com", "aud-tag-123", ISS, 300), "test-kid");
    assert_eq!(with_test_key().verify(&t).unwrap(), "Owner@Example.com");
}

#[test]
fn access_rejects_bad_tokens() {
    let v = with_test_key();
    for (why, t) in [
        ("wrong email", token(claims("evil@gmail.com", "aud-tag-123", ISS, 300), "test-kid")),
        ("wrong aud", token(claims("owner@example.com", "other", ISS, 300), "test-kid")),
        (
            "wrong iss",
            token(
                claims(
                    "owner@example.com",
                    "aud-tag-123",
                    "https://evil.cloudflareaccess.com",
                    300,
                ),
                "test-kid",
            ),
        ),
        ("expired", token(claims("owner@example.com", "aud-tag-123", ISS, -600), "test-kid")),
    ] {
        assert!(v.verify(&t).is_err(), "{why} should be rejected");
    }
    // Tampered payload: signature no longer matches.
    let good = token(claims("owner@example.com", "aud-tag-123", ISS, 300), "test-kid");
    let mut parts: Vec<&str> = good.split('.').collect();
    let forged = base64::engine::general_purpose::URL_SAFE_NO_PAD
        .encode(claims("owner@example.com", "aud-tag-123", ISS, 99999).to_string());
    parts[1] = &forged;
    assert!(v.verify(&parts.join(".")).is_err(), "forged payload");
    assert!(v.verify("not-a-jwt").is_err());
}

#[test]
fn access_says_why_a_token_is_refused() {
    let v = with_test_key();
    assert!(matches!(v.verify("not-a-jwt"), Err(AccessError::Malformed)));

    let good = claims("owner@example.com", "aud-tag-123", ISS, 300);
    let mut hs = Header::new(Algorithm::HS256);
    hs.kid = Some("test-kid".into());
    let t = jsonwebtoken::encode(&hs, &good, &EncodingKey::from_secret(b"x")).unwrap();
    assert!(matches!(v.verify(&t), Err(AccessError::UnexpectedAlgorithm)));

    let t = sign(&Header::new(Algorithm::RS256), &good);
    assert!(matches!(v.verify(&t), Err(AccessError::NoKid)));

    let t = token(good.clone(), "other-kid");
    assert!(matches!(v.verify(&t), Err(AccessError::UnknownKey)));

    let t = token(claims("owner@example.com", "other", ISS, 300), "test-kid");
    assert!(matches!(v.verify(&t), Err(AccessError::Rejected)));

    let t = token(claims("evil@gmail.com", "aud-tag-123", ISS, 300), "test-kid");
    match v.verify(&t) {
        Err(AccessError::NotAllowed(who)) => assert_eq!(who, "evil@gmail.com"),
        _ => panic!("not refused"),
    }
}

#[test]
fn access_needs_the_required_claims() {
    let v = with_test_key();
    for gone in ["exp", "aud", "iss"] {
        let mut c = claims("owner@example.com", "aud-tag-123", ISS, 300);
        c.as_object_mut().unwrap().remove(gone);
        assert!(matches!(v.verify(&token(c, "test-kid")), Err(AccessError::Rejected)), "{gone}");
    }
}

#[test]
fn access_without_an_email_is_nobody() {
    let v = with_test_key();
    let mut c = claims("owner@example.com", "aud-tag-123", ISS, 300);
    c.as_object_mut().unwrap().remove("email");
    match v.verify(&token(c.clone(), "test-kid")) {
        Err(AccessError::NotAllowed(who)) => assert_eq!(who, ""),
        _ => panic!("not refused"),
    }
    c.as_object_mut().unwrap().insert("email".into(), Value::from(7));
    assert!(matches!(v.verify(&token(c, "test-kid")), Err(AccessError::Rejected)));
}

#[test]
fn access_looks_at_no_other_claim() {
    let rest = format!(
        "\"aud\":[\"aud-tag-123\"],\"iss\":\"{ISS}\",\"exp\":{}",
        unix_now() + 300
    );
    let der = base64::engine::general_purpose::STANDARD.decode(TEST_RSA).unwrap();
    let verdict = |payload: String| {
        let raw = serde_json::value::RawValue::from_string(payload).unwrap();
        let mut header = Header::new(Algorithm::RS256);
        header.kid = Some("test-kid".into());
        let key = EncodingKey::from_rsa_der(&der);
        with_test_key().verify(&jsonwebtoken::encode(&header, &raw, &key).unwrap())
    };
    let good = verdict(format!("{{\"email\":\"owner@example.com\",\"x\":1e400,{rest}}}"));
    assert_eq!(good.ok().unwrap(), "owner@example.com");
    let null = verdict(format!("{{\"email\":null,{rest}}}"));
    assert!(matches!(null, Err(AccessError::NotAllowed(who)) if who.is_empty()));
    let bad = verdict(format!("{{\"email\":1e400,{rest}}}"));
    assert!(matches!(bad, Err(AccessError::Rejected)));
    // The claim is made once, or not at all.
    let same = "\"email\":\"owner@example.com\"";
    let twice = verdict(format!("{{{same},{rest},{same}}}"));
    assert!(matches!(twice, Err(AccessError::Rejected)));
    let escaped = verdict(format!("{{\"\\u0065mail\":null,{rest},{same}}}"));
    assert!(matches!(escaped, Err(AccessError::Rejected)));
    let nested = verdict(format!("{{\"x\":{{{same}}},{rest} ,\n {same} }}"));
    assert_eq!(nested.ok().unwrap(), "owner@example.com");
    let other_twice = verdict(format!("{{\"x\":1,\"x\":[2,3],{rest},{same}}}"));
    assert_eq!(other_twice.ok().unwrap(), "owner@example.com");
}

#[test]
fn claims_are_read_from_the_payload() {
    let name = "email";
    let claim_of = |json: &str| claim(json.as_bytes(), name);
    assert_eq!(claim_of("{}"), Some(None));
    assert_eq!(claim_of(" {\t} "), Some(None));
    assert_eq!(claim_of("{\"a\":[{\"email\":1}],\"b\":\"}\"}"), Some(None));
    assert_eq!(claim_of("{ \"email\" : \"a\\nb\" }"), Some(Some("a\nb".into())));
    assert_eq!(claim_of("{\"email\":null}"), Some(None));
    assert_eq!(claim_of("{\"a\":-1.5e9,\"email\":\"x\",\"c\":true}"), Some(Some("x".into())));
    for bad in [
        "",
        "[]",
        "null",
        "{\"email\":7}",
        "{\"email\":\"a\",\"email\":\"a\"}",
        "{\"email\":\"a\",}",
        "{\"email\" \"a\"}",
        "{\"email\":\"a\"",
    ] {
        assert_eq!(claim_of(bad), None, "{bad}");
    }
    // Octets that are no text are passed over outside the claim.
    assert_eq!(claim(b"{\"x\":\"\xff\",\"email\":\"y\"}", name), Some(Some("y".into())));

    let part = |json: &str| {
        let b = base64::engine::general_purpose::URL_SAFE_NO_PAD.encode(json);
        token_claim(&format!("head.{b}.tail"), name)
    };
    for text in ["x", "xy", "xyz"] {
        assert_eq!(part(&format!("{{\"email\":\"{text}\"}}")), Some(Some(text.into())));
    }
    for bad in ["", "e30", "e30.e30", "a.e30.b.c", "a.e31.b", "a.e30=.b", "a.e3 .b"] {
        assert_eq!(token_claim(bad, name), None, "{bad}");
    }
    assert_eq!(token_claim("a.e30.b", name), Some(None));
}

#[test]
fn a_checked_token_speaks_for_itself() {
    let t = token(claims("Owner@Example.com", "any", "any", -600), "any");
    let who = "owner@example.com";
    assert_eq!(verdict_on(&t, Some(()), who).unwrap(), "Owner@Example.com");
    assert!(matches!(verdict_on(&t, None, who), Err(AccessError::Rejected)));
    assert!(matches!(verdict_on("a.b", Some(()), who), Err(AccessError::Rejected)));
    match verdict_on(&t, Some(()), "other@example.com") {
        Err(AccessError::NotAllowed(a)) => assert_eq!(a, "Owner@Example.com"),
        _ => panic!("not refused"),
    }
}

#[test]
fn only_an_unknown_key_is_fetched() {
    let unknown = || Err(AccessError::UnknownKey);
    assert!(matches!(act_on(unknown(), false, true), Attempt::Fetch));
    for (fetched, due) in [(true, true), (false, false), (true, false)] {
        let a = act_on(unknown(), fetched, due);
        assert!(matches!(a, Attempt::Done(Err(AccessError::UnknownKey))));
    }
    let a = act_on(Ok("a@b".into()), false, true);
    assert!(matches!(a, Attempt::Done(Ok(who)) if who == "a@b"));
    let a = act_on(Err(AccessError::Rejected), false, true);
    assert!(matches!(a, Attempt::Done(Err(AccessError::Rejected))));
}

#[test]
fn judge_compares_without_case() {
    assert_eq!(judge(Some(Some("A@b.C".into())), "a@B.c").unwrap(), "A@b.C");
    assert!(matches!(judge(Some(Some("a@b.d".into())), "a@b.c"), Err(AccessError::NotAllowed(_))));
    assert!(matches!(judge(None, "a@b.c"), Err(AccessError::Rejected)));
    assert_eq!(judge(Some(None), "").unwrap(), "");
}

#[test]
fn unknown_keys_are_fetched_at_most_once_a_minute() {
    let mut v = AccessVerifier::new(cfg());
    assert_eq!(v.certs_url(), "https://example.cloudflareaccess.com/cdn-cgi/access/certs");
    let t = token(claims("owner@example.com", "aud-tag-123", ISS, 300), "test-kid");
    assert!(matches!(v.attempt(&t, false, 5), Attempt::Fetch));
    assert!(matches!(v.attempt(&t, true, 5), Attempt::Done(Err(AccessError::UnknownKey))));

    assert_eq!(v.install(b"nonsense", 5), Err(BadKeySet));
    assert!(v.refresh_due(5));
    v.install(b"{\"keys\":[]}", 5).unwrap();
    assert!(!v.refresh_due(5 + JWKS_MIN_REFRESH - 1));
    assert!(v.refresh_due(5 + JWKS_MIN_REFRESH));
    assert!(matches!(v.attempt(&t, false, 6), Attempt::Done(Err(AccessError::UnknownKey))));
    assert!(matches!(v.attempt(&t, false, 5 + JWKS_MIN_REFRESH), Attempt::Fetch));

    v.install(jwks().as_bytes(), 5 + JWKS_MIN_REFRESH).unwrap();
    match v.attempt(&t, true, 5 + JWKS_MIN_REFRESH) {
        Attempt::Done(Ok(who)) => assert_eq!(who, "owner@example.com"),
        _ => panic!("refused"),
    }
}

#[test]
fn password_roundtrip() {
    let h = hash_password("correct horse").unwrap();
    assert!(h.starts_with("$argon2id$"));
    assert!(verify_password(&h, "correct horse"));
    assert!(!verify_password(&h, "correct hors"));
    assert!(!verify_password("garbage", "x"));
}

#[test]
fn only_a_match_lets_in() {
    let h = hash_password("correct horse").unwrap();
    assert_eq!(check_password(&h, "correct horse"), PasswordCheck::Match);
    assert_eq!(check_password(&h, "Correct horse"), PasswordCheck::Mismatch);
    // What does not name argon2 is a mismatch, whatever else it is.
    for text in ["", "garbage", "$", "$argon2id", "$scrypt$ln=16,r=8,p=1$aM15713r3Xsvxbi31lqr1Q"] {
        assert_eq!(check_password(text, "correct horse"), PasswordCheck::Mismatch, "{text}");
        assert!(!verify_password(text, "correct horse"));
    }
    assert_eq!(check_password(&h[1..], "correct horse"), PasswordCheck::Mismatch);
    assert_eq!(hash_outcome(Ok("h".into())), Ok("h".into()));
    assert_eq!(hash_outcome(Err("why".into())), Err(HashError { reason: "why".into() }));
    assert!(lets_in(PasswordCheck::Match));
    assert!(!lets_in(PasswordCheck::Mismatch));
    assert!(!lets_in(PasswordCheck::OutOfMemory));
}

#[test]
fn totp_window_and_replay() {
    let secret = new_totp_secret();
    let t = totp(&secret, "desk", "owner").unwrap();
    let now = 1_800_000_000u64;
    let mut state = AuthState {
        password_hash: String::new(),
        totp_secret: secret,
        last_totp_step: 0,
    };
    let code = t.generate(now).to_string();
    let step = check_totp(&state, &code, now).expect("current code accepted");
    assert_eq!(step, now / TOTP_STEP);
    // One step of skew is fine, three is not.
    assert!(check_totp(&state, &t.generate(now - 30).to_string(), now).is_some());
    assert!(check_totp(&state, &t.generate(now - 90).to_string(), now).is_none());
    // Replay of an accepted step is refused.
    state.last_totp_step = step;
    assert!(check_totp(&state, &code, now).is_none());
    assert!(check_totp(&state, "12345", now).is_none());
}

/// The shared secret of the test vectors of RFC 6238, in base32.
const RFC_SECRET: &str = "GEZDGNBVGY3TQOJQGEZDGNBVGY3TQOJQ";

fn rfc_state() -> AuthState {
    AuthState { password_hash: String::new(), totp_secret: RFC_SECRET.into(), last_totp_step: 0 }
}

#[test]
fn totp_matches_rfc6238() {
    let t = totp(RFC_SECRET, "desk", "owner").unwrap();
    assert_eq!(t.secret, b"12345678901234567890");
    assert_eq!(t.generate(59), "287082");
    assert_eq!(t.generate(1_111_111_109), "081804");
    assert_eq!(t.check("081804", 1_111_111_109), Some(37_037_036));
    assert_eq!(check_totp(&rfc_state(), "287082", 59), Some(1));
    assert_eq!(check_totp(&rfc_state(), " 287\u{a0}082\n", 59), Some(1));
    assert_eq!(check_totp(&rfc_state(), "287083", 59), None);
    assert_eq!(check_totp(&rfc_state(), "287082", 59 + 30), Some(1));
    assert_eq!(check_totp(&rfc_state(), "287082", 59 + 31), None);
}

#[test]
fn totp_steps_only_grow() {
    let mut state = rfc_state();
    let t = totp(RFC_SECRET, "desk", "owner").unwrap();
    let first = check_totp(&state, &t.generate(2_000_000_030), 2_000_000_000).unwrap();
    assert_eq!(first, 2_000_000_030 / TOTP_STEP);
    state.last_totp_step = first;
    assert_eq!(check_totp(&state, &t.generate(2_000_000_000), 2_000_000_000), None);
    assert_eq!(check_totp(&state, &t.generate(2_000_000_030), 2_000_000_030), None);
    let later = check_totp(&state, &t.generate(2_000_000_060), 2_000_000_060).unwrap();
    assert!(later > first);
    assert_eq!(newer_step(Some(5), 5), None);
    assert_eq!(newer_step(Some(6), 5), Some(6));
    assert_eq!(newer_step(None, 0), None);
}

#[test]
fn totp_setup_errors() {
    assert!(matches!(totp("not base32!", "desk", "owner"), Err(TotpError::BadSecret)));
    assert_eq!(
        totp(RFC_SECRET, "a:b", "c:d").err(),
        Some(TotpError::InvalidIssuer { issuer: "a:b".into() })
    );
    assert_eq!(
        totp(RFC_SECRET, "ab", "c:d").err(),
        Some(TotpError::InvalidAccountName { account_name: "c:d".into() })
    );
    assert_eq!(
        totp("GEZDGNBV", "ab", "cd").err(),
        Some(TotpError::SecretTooShort { bits: 40 })
    );
    let mut state = rfc_state();
    state.totp_secret = "GEZDGNBV".into();
    assert_eq!(check_totp(&state, "287082", 59), None);
}

#[test]
fn totp_url_and_picture() {
    let t = totp(RFC_SECRET, "desk.example.com", "o w@x").unwrap();
    assert_eq!(
        t.to_url().unwrap(),
        "otpauth://totp/desk.example.com:o%20w%40x?secret=GEZDGNBVGY3TQOJQGEZDGNBVGY3TQOJQ\
         &issuer=desk.example.com"
    );
    assert!(t.to_qr_png().unwrap().starts_with(&[0x89, b'P', b'N', b'G']));
    let nobody = totp(RFC_SECRET, "desk", "").unwrap();
    assert_eq!(nobody.to_url(), Err(ShowError::AccountNameNotSet));
    assert_eq!(nobody.to_qr_png(), Err(ShowError::AccountNameNotSet));
    let endless = totp(RFC_SECRET, "desk", &"x".repeat(5000)).unwrap();
    match endless.to_qr_png() {
        // What the encoder says, without the secret.
        Err(ShowError::UrlTooLong { url }) => {
            assert!(url.contains("capacity") && !url.contains(RFC_SECRET), "{url}");
        }
        _ => panic!("not refused"),
    }
}

#[test]
fn secrets_are_written_and_read() {
    assert_eq!(secret_text(b"12345678901234567890"), RFC_SECRET);
    let fresh = new_totp_secret();
    assert_eq!(fresh.len(), 32);
    // Three characters make up one octet; the seven bits behind it do not count.
    for (text, octets) in [("AAAAAAAAAAAAAAAAAAAAAAAAAAAAA7", 18), ("777777777777777777777777777", 16)] {
        assert_eq!(totp(text, "desk", "owner").unwrap().secret.len(), octets);
    }
    assert_eq!(totp("MFRGGZDFMZTWQ2LKNNWG23TPOA", "d", "o").unwrap().secret, b"abcdefghijklmnop");
    for bad in ["mfrggzdfmztwq2lknnwg23tpoa", "MFRGGZDFMZTWQ2LKNNWG23TPOA=", "MFRGG1", "MFRGG8"] {
        assert!(matches!(totp(bad, "d", "o"), Err(TotpError::BadSecret)), "{bad}");
    }
    assert_eq!(totp(&fresh, "desk", "owner").unwrap().secret.len(), 20);
    assert_ne!(fresh, new_totp_secret());
    assert_eq!(strip_space(" 1\t2 3\u{3000}"), "123");
}

#[test]
fn sessions_and_lockout() {
    let mut s = Sessions::default();
    let now = 7 * SECOND;
    let tok = s.create(now);
    assert!(s.is_valid(&tok, now));
    assert!(!s.is_valid(&tok, now + SESSION_TTL + SECOND));
    assert!(!s.is_valid("forged", now));
    s.revoke(&tok);
    assert!(!s.is_valid(&tok, now));

    for _ in 0..MAX_FAILURES - 1 {
        s.record_failure(now);
    }
    assert!(s.locked_for(now).is_none());
    s.record_failure(now);
    assert!(s.locked_for(now).is_some());
    assert!(s.locked_for(now + LOCKOUT + SECOND).is_none());
}

#[test]
fn sessions_are_kept_apart() {
    let mut s = Sessions::default();
    let a = s.create(0);
    let b = s.create(SECOND);
    assert_ne!(a, b);
    assert_eq!(a.len(), 43);
    assert!(s.is_valid(&a, SESSION_TTL - 1));
    assert!(!s.is_valid(&a, SESSION_TTL));
    assert!(s.is_valid(&b, SESSION_TTL));
    s.revoke(&a);
    assert!(s.is_valid(&b, 2));
    // Opening a session forgets those that have ended.
    let c = s.create(SESSION_TTL + SECOND);
    assert!(!s.is_valid(&b, 2));
    assert!(s.is_valid(&c, SESSION_TTL + SECOND));
}

#[test]
fn tokens_are_base64_of_their_octets() {
    let mut s = Sessions::default();
    let mut bytes = [0u8; 32];
    bytes[0] = 0xfb;
    bytes[1] = 0xff;
    bytes[31] = 0xff;
    let token = s.open_with(&bytes, 0);
    assert_eq!(token, base64::engine::general_purpose::URL_SAFE_NO_PAD.encode(bytes));
    assert!(token.starts_with("-_8A"));
    assert!(s.is_valid(&token, 1));
    assert!(!s.is_valid("__8A", 1));
}

#[test]
fn success_forgets_failures() {
    let mut s = Sessions::default();
    for _ in 0..MAX_FAILURES - 1 {
        s.record_failure(1);
    }
    s.record_success();
    s.record_failure(1);
    assert_eq!(s.locked_for(1), None);
    for _ in 0..MAX_FAILURES - 1 {
        s.record_failure(10);
    }
    assert_eq!(s.locked_for(10), Some(LOCKOUT));
    assert_eq!(s.locked_for(10 + LOCKOUT - 1), Some(1));
    assert_eq!(s.locked_for(10 + LOCKOUT), None);
}

#[test]
fn the_clock_runs() {
    assert!(unix_now() > 1_700_000_000);
    let std = std::time::SystemTime::now().duration_since(std::time::UNIX_EPOCH).unwrap();
    assert!(unix_now().abs_diff(std.as_secs()) <= 1);
    assert_eq!(seconds_or_zero(Some(5)), 5);
    assert_eq!(seconds_or_zero(None), 0);
}

#[test]
fn hashes_know_their_own_password() {
    let (a, b) = (hash_password("first password").unwrap(), hash_password("first password").unwrap());
    // Two hashes of one password differ by their salt, and both know it.
    assert_ne!(a, b);
    for h in [&a, &b] {
        assert_eq!(check_password(h, "first password"), PasswordCheck::Match);
        assert_eq!(check_password(h, "second password"), PasswordCheck::Mismatch);
    }
}

#[test]
fn sessions_outlive_other_calls() {
    let mut s = Sessions::default();
    let start = 10 * SECOND;
    let token = s.create(start);
    for i in 0..7 {
        s.record_failure(start + i);
    }
    let other = s.create(start + SECOND);
    s.revoke(&other);
    s.record_success();
    s.create(start + SESSION_TTL - 1);
    assert!(s.is_valid(&token, start + SESSION_TTL - 1));
    assert!(!s.is_valid(&token, start + SESSION_TTL));
    s.create(start + SESSION_TTL);
    assert!(!s.is_valid(&token, start + SESSION_TTL));
    assert!(!s.is_valid(&other, start + SECOND));
    assert!(!s.is_valid("never handed out", start));
}

#[test]
fn every_fifth_failure_locks() {
    let mut s = Sessions::default();
    let at = |n: u64| n * SECOND;
    for n in 1..=13 {
        s.record_failure(at(n));
        let lock = match n {
            1..=4 => None,
            5..=9 => Some(at(5) + LOCKOUT),
            _ => Some(at(10) + LOCKOUT),
        };
        assert_eq!(s.locked_for(at(n)), lock.map(|end| end - at(n)), "{n}");
    }
    assert_eq!(s.locked_for(at(10) + LOCKOUT), None);
    // Three of them are counted still.
    s.record_failure(at(2000));
    assert_eq!(s.locked_for(at(2000)), None);
    s.record_failure(at(2000));
    assert_eq!(s.locked_for(at(2000)), Some(LOCKOUT));
}
