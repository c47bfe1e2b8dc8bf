//! Time-based one-time passwords (RFC 6238): six digits, steps of thirty seconds, one step of
//! tolerance either way, and no step accepted twice.

use crate::config::AuthState;
use crate::random::random_bytes;
use crate::sessions::octet_or_zero;
use crate::text::{chars_of, decimal, is_space, space};
use vstd::prelude::*;
use vstd::utf8::encode_utf8;

verus! {

broadcast use vstd::string::group_string_axioms;

/// Length of a time step, in seconds.
pub const TOTP_STEP: u64 = 30;

/// How many steps a code may be early or late.
pub const TOTP_SKEW: u16 = 1;

/// The character that stands for `n` in the base32 alphabet of RFC 4648.
pub open spec fn base32_char(n: int) -> char {
    if n < 26 {
        (65 + n) as char
    } else {
        (24 + n) as char
    }
}

/// The `i`th group of five bits of `bytes`, from the most significant bit on.
pub open spec fn quintet(bytes: Seq<u8>, i: int) -> int {
    let at = i / 8 * 5;
    let (a, b, c) = (
        octet_or_zero(bytes, at),
        octet_or_zero(bytes, at + 1),
        octet_or_zero(bytes, at + 2),
    );
    let (d, e) = (octet_or_zero(bytes, at + 3), octet_or_zero(bytes, at + 4));
    if i % 8 == 0 {
        a / 8
    } else if i % 8 == 1 {
        a % 8 * 4 + b / 64
    } else if i % 8 == 2 {
        b / 2 % 32
    } else if i % 8 == 3 {
        b % 2 * 16 + c / 16
    } else if i % 8 == 4 {
        c % 16 * 2 + d / 128
    } else if i % 8 == 5 {
        d / 4 % 32
    } else if i % 8 == 6 {
        d % 4 * 8 + e / 32
    } else {
        e % 32
    }
}

/// Octets in base32, without padding.
pub open spec fn base32_encoded(bytes: Seq<u8>) -> Seq<char> {
    Seq::new((bytes.len() * 8 + 4) / 5, |i: int| base32_char(quintet(bytes, i)))
}

/// Whether a character belongs to the base32 alphabet.
pub open spec fn in_base32(c: char) -> bool {
    'A' <= c <= 'Z' || '2' <= c <= '7'
}

/// What the `i`th character of a base32 text stands for, or zero past the end.
pub open spec fn base32_value(text: Seq<char>, i: int) -> int {
    if i >= text.len() {
        0
    } else if text[i] >= 'A' {
        text[i] as int - 65
    } else {
        text[i] as int - 24
    }
}

/// The `i`th octet of a base32 text.
pub open spec fn base32_octet(text: Seq<char>, i: int) -> int {
    let at = i / 5 * 8;
    let (p, q) = (base32_value(text, at), base32_value(text, at + 1));
    let (r, s) = (base32_value(text, at + 2), base32_value(text, at + 3));
    let (t, u) = (base32_value(text, at + 4), base32_value(text, at + 5));
    let (v, w) = (base32_value(text, at + 6), base32_value(text, at + 7));
    if i % 5 == 0 {
        p * 8 + q / 4
    } else if i % 5 == 1 {
        q % 4 * 64 + r * 2 + s / 16
    } else if i % 5 == 2 {
        s % 16 * 16 + t / 2
    } else if i % 5 == 3 {
        t % 2 * 128 + u * 4 + v / 8
    } else {
        v % 8 * 32 + w
    }
}

/// The octets that a base32 text stands for, if it is one. Bits that make up no whole octet at its
/// end do not count.
pub open spec fn base32_decoded(text: Seq<char>) -> Option<Seq<u8>> {
    if forall|i: int| 0 <= i < text.len() ==> in_base32(#[trigger] text[i]) {
        Some(Seq::new(text.len() * 5 / 8, |i: int| base32_octet(text, i) as u8))
    } else {
        None
    }
}

/// The six-digit code of a time step under a secret.
pub uninterp spec fn totp_code(secret: Seq<u8>, step: u64) -> Seq<char>;

/// The PNG image of the QR code of the `otpauth` URL, or why there is none.
pub uninterp spec fn otpauth_png(
    secret: Seq<u8>,
    issuer: Seq<char>,
    account: Seq<char>,
    step: u64,
) -> Result<Seq<u8>, Seq<char>>;

/// Why a one-time password cannot be set up.
#[derive(Debug, PartialEq, Eq)]
pub enum TotpError {
    /// The secret is not base32.
    BadSecret,
    /// The issuer holds a colon.
    InvalidIssuer { issuer: String },
    /// The account name holds a colon.
    InvalidAccountName { account_name: String },
    /// The secret is shorter than 128 bits.
    SecretTooShort { bits: usize },
}

/// Why there is nothing to show to an authenticator.
#[derive(Debug, PartialEq, Eq)]
pub enum ShowError {
    /// The account name is empty.
    AccountNameNotSet,
    /// The URL does not fit into a QR code; what the encoder says of it.
    UrlTooLong { url: String },
}

/// A one-time password that has been set up.
pub struct Totp {
    pub secret: Vec<u8>,
    pub issuer: String,
    pub account: String,
}

/// Whether a secret, an issuer and an account may be set up together.
pub open spec fn valid_setup(secret: Seq<u8>, issuer: Seq<char>, account: Seq<char>) -> bool {
    secret.len() >= 16 && !issuer.contains(':') && !account.contains(':')
}

/// Whether a time step is within `skew` steps of that of `now`.
pub open spec fn in_window(counter: u64, now: u64, step: u64, skew: u16) -> bool {
    now / step - skew <= counter <= now / step + skew
}

/// The first time step, of those within one step of `now`, whose code is `code`.
pub open spec fn matching_step(secret: Seq<u8>, code: Seq<char>, now: u64) -> Option<u64> {
    let step = (now / TOTP_STEP) as u64;
    if step > 0 && totp_code(secret, (step - 1) as u64) == code {
        Some((step - 1) as u64)
    } else if totp_code(secret, step) == code {
        Some(step)
    } else if totp_code(secret, (step + 1) as u64) == code {
        Some((step + 1) as u64)
    } else {
        None
    }
}

/// An upper-case hexadecimal digit.
pub open spec fn hex_digit(n: int) -> char {
    if n < 10 {
        ('0' as u32 + n) as char
    } else {
        ('A' as u32 + n - 10) as char
    }
}

/// Percent-encoded octets: letters, digits, `-`, `_`, `.` and `~` stand for themselves.
pub open spec fn percent(bytes: Seq<u8>) -> Seq<char>
    decreases bytes.len(),
{
    if bytes.len() == 0 {
        Seq::empty()
    } else {
        let b = bytes.last();
        percent(bytes.drop_last()) + if 0x30 <= b <= 0x39 || 0x41 <= b <= 0x5a || 0x61 <= b <= 0x7a
            || b == 0x2d || b == 0x2e || b == 0x5f || b == 0x7e {
            seq![b as char]
        } else {
            seq!['%', hex_digit(b as int / 16), hex_digit(b as int % 16)]
        }
    }
}

/// The `otpauth` URL that hands a secret to an authenticator.
pub open spec fn otpauth_url(
    secret: Seq<u8>,
    issuer: Seq<char>,
    account: Seq<char>,
    step: u64,
) -> Seq<char> {
    "otpauth://totp/"@ + percent(encode_utf8(issuer)) + ":"@ + percent(encode_utf8(account))
        + "?secret="@ + base32_encoded(secret) + "&issuer="@ + percent(encode_utf8(issuer)) + if step
        == 30 {
        Seq::empty()
    } else {
        "&period="@ + decimal(step as nat)
    }
}

/// `s` without its white space.
pub open spec fn without_space(s: Seq<char>) -> Seq<char>
    decreases s.len(),
{
    if s.len() == 0 {
        s
    } else if is_space(s.last()) {
        without_space(s.drop_last())
    } else {
        without_space(s.drop_last()).push(s.last())
    }
}

proof fn nothing_to_strip(s: Seq<char>)
    requires
        forall|i: int| 0 <= i < s.len() ==> !is_space(#[trigger] s[i]),
    ensures
        without_space(s) == s,
    decreases s.len(),
{
    if s.len() > 0 {
        nothing_to_strip(s.drop_last());
        assert(s.drop_last().push(s.last()) =~= s);
    }
}

/// A step, if it is newer than the last accepted one.
pub open spec fn fresh(step: Option<u64>, last: u64) -> Option<u64> {
    match step {
        Some(s) => if s > last {
            Some(s)
        } else {
            None
        },
        None => None,
    }
}

/// The step that a code is accepted for, under a base32 secret and the last accepted step.
pub open spec fn accepted_step(
    secret_b32: Seq<char>,
    code: Seq<char>,
    now: u64,
    last: u64,
) -> Option<u64> {
    match base32_decoded(secret_b32) {
        Some(secret) => if secret.len() >= 16 {
            fresh(matching_step(secret, without_space(code), now), last)
        } else {
            None
        },
        None => None,
    }
}

/// `totp_rs::Secret::try_from_base32` reads a base32 text: capital letters and digits, and no
/// padding.
#[verifier::external_body]
fn read_base32(text: &str) -> (bytes: Option<Vec<u8>>)
    ensures
        match bytes {
            Some(b) => base32_decoded(text@) == Some(b@),
            None => base32_decoded(text@) is None,
        },
{
    totp_rs::Secret::try_from_base32(text).ok().map(|s| s.as_bytes().to_vec())
}

/// `totp_rs::Secret::to_base32` writes every group of five bits as one character, the last group
/// filled up with zero bits, and no padding.
#[verifier::external_body]
fn write_base32(bytes: &[u8]) -> (text: String)
    ensures
        text@ == base32_encoded(bytes@),
{
    totp_rs::Secret::from(bytes.to_vec()).to_base32()
}

/// `totp_rs::Builder::build`, with a secret, a skew, a step duration, an issuer and an account name,
/// and everything else as the builder has it: it refuses a colon in the issuer, then one in the
/// account name, then a secret of less than sixteen octets, and accepts the rest.
#[verifier::external_body]
fn try_build(secret: &[u8], skew: u16, step: u64, issuer: &str, account: &str) -> (r: Result<
    (),
    TotpError,
>)
    requires
        step > 0,
    ensures
        if issuer@.contains(':') {
            r matches Err(TotpError::InvalidIssuer { issuer: i }) && i@ == issuer@
        } else if account@.contains(':') {
            r matches Err(TotpError::InvalidAccountName { account_name: a }) && a@ == account@
        } else if secret@.len() < 16 {
            r matches Err(TotpError::SecretTooShort { bits }) && bits == secret@.len() * 8
        } else {
            r is Ok
        },
{
    let b = totp_rs::Builder::new().with_secret(secret).with_skew(skew).with_step_duration(step);
    match b.with_issuer(Some(issuer)).with_account_name(account).build() {
        Ok(_) => Ok(()),
        Err(totp_rs::TotpError::InvalidIssuer { issuer }) => Err(TotpError::InvalidIssuer { issuer }),
        Err(totp_rs::TotpError::InvalidAccountName { account_name }) => Err(
            TotpError::InvalidAccountName { account_name },
        ),
        Err(totp_rs::TotpError::SecretTooShort { bits }) => Err(TotpError::SecretTooShort { bits }),
        Err(_) => Err(TotpError::BadSecret),
    }
}

/// `totp_rs::Totp::generate`, on a one-time password built from a secret and a step duration: the
/// code of the step that holds `time`. It has six characters, all of them decimal digits.
#[verifier::external_body]
fn code_at(secret: &[u8], step: u64, time: u64) -> (code: String)
    requires
        step > 0,
    ensures
        code@ == totp_code(secret@, time / step),
        code@.len() == 6,
        forall|i: int| 0 <= i < 6 ==> '0' <= #[trigger] code@[i] <= '9',
{
    let b = totp_rs::Builder::new().with_secret(secret).with_step_duration(step);
    b.build_noncompliant().generate(time).to_string()
}

/// `totp_rs::Totp::check`, on a one-time password built from a secret, a skew and a step duration:
/// the first step, of those within `skew` steps of that of `now`, whose generated code is `code`.
/// The last moments that a `u64` can hold are left out: the search would run past them.
#[verifier::external_body]
fn find_step(secret: &[u8], skew: u16, step: u64, code: &str, now: u64) -> (found: Option<u64>)
    requires
        step > 0,
        (now / step + skew) * step <= u64::MAX,
    ensures
        match found {
            Some(s) => {
                &&& in_window(s, now, step, skew)
                &&& totp_code(secret@, s) == code@
                &&& forall|e: u64|
                    e < s && in_window(e, now, step, skew) ==> #[trigger] totp_code(secret@, e)
                        != code@
            },
            None => forall|e: u64|
                in_window(e, now, step, skew) ==> #[trigger] totp_code(secret@, e) != code@,
        },
{
    let b = totp_rs::Builder::new().with_secret(secret).with_skew(skew).with_step_duration(step);
    b.build_noncompliant().check(code, now)
}

/// `totp_rs::Totp::to_url`, on a one-time password built from a secret, a step duration, an issuer
/// and an account name: the URL, unless the account name is empty or holds a colon.
#[verifier::external_body]
fn show_url(secret: &[u8], step: u64, issuer: &str, account: &str) -> (url: Option<String>)
    requires
        step > 0,
    ensures
        match url {
            Some(u) => u@ == otpauth_url(secret@, issuer@, account@, step) && account@.len() > 0
                && !account@.contains(':'),
            None => account@.len() == 0 || account@.contains(':'),
        },
{
    let b = totp_rs::Builder::new().with_secret(secret).with_step_duration(step);
    b.with_issuer(Some(issuer)).with_account_name(account).build_noncompliant().to_url().ok()
}

/// `totp_rs::Totp::to_qr_png`, on a one-time password built as for `show_url`: the PNG image of the
/// QR code of its URL, or what the encoder says where that is too long. An account name that makes no
/// URL is left out.
#[verifier::external_body]
fn show_png(secret: &[u8], step: u64, issuer: &str, account: &str) -> (png: Result<Vec<u8>, String>)
    requires
        step > 0,
        account@.len() > 0,
        !account@.contains(':'),
    ensures
        match png {
            Ok(p) => otpauth_png(secret@, issuer@, account@, step) == Ok::<Seq<u8>, Seq<char>>(p@),
            Err(why) => otpauth_png(secret@, issuer@, account@, step) == Err::<Seq<u8>, Seq<char>>(
                why@,
            ),
        },
{
    let b = totp_rs::Builder::new().with_secret(secret).with_step_duration(step);
    match b.with_issuer(Some(issuer)).with_account_name(account).build_noncompliant().to_qr_png() {
        Ok(png) => Ok(png),
        Err(totp_rs::TotpError::UrlTooLong { url }) => Err(url),
        Err(e) => Err(e.to_string()),
    }
}

/// Sets up the one-time password of a base32 secret.
pub fn totp(secret_b32: &str, issuer: &str, account: &str) -> (r: Result<Totp, TotpError>)
    ensures
        match r {
            Ok(t) => base32_decoded(secret_b32@) == Some(t.secret@) && valid_setup(
                t.secret@,
                issuer@,
                account@,
            ) && t.issuer@ == issuer@ && t.account@ == account@,
            Err(TotpError::BadSecret) => base32_decoded(secret_b32@) is None,
            Err(TotpError::InvalidIssuer { issuer: i }) => base32_decoded(secret_b32@) is Some
                && issuer@.contains(':') && i@ == issuer@,
            Err(TotpError::InvalidAccountName { account_name: a }) => base32_decoded(
                secret_b32@,
            ) is Some && !issuer@.contains(':') && account@.contains(':') && a@ == account@,
            Err(TotpError::SecretTooShort { bits }) => !issuer@.contains(':') && !account@.contains(
                ':',
            ) && (base32_decoded(secret_b32@) matches Some(secret) && secret.len() < 16 && bits
                == secret.len() * 8),
        },
{
    let secret = match read_base32(secret_b32) {
        Some(s) => s,
        None => {
            return Err(TotpError::BadSecret);
        },
    };
    match try_build(&secret, TOTP_SKEW, TOTP_STEP, issuer, account) {
        Ok(()) => Ok(Totp { secret, issuer: issuer.to_owned(), account: account.to_owned() }),
        Err(e) => Err(e),
    }
}

impl Totp {
    /// Whether this could have been set up.
    pub open spec fn wf(&self) -> bool {
        valid_setup(self.secret@, self.issuer@, self.account@)
    }

    /// The time step that `code` belongs to, within one step of `now`.
    pub fn check(&self, code: &str, now: u64) -> (step: Option<u64>)
        requires
            self.wf(),
            now + TOTP_STEP <= u64::MAX,
        ensures
            step == matching_step(self.secret@, code@, now),
    {
        assert((now / TOTP_STEP + TOTP_SKEW) * TOTP_STEP <= now + TOTP_STEP);
        let found = find_step(&self.secret, TOTP_SKEW, TOTP_STEP, code, now);
        proof {
            let step = now / TOTP_STEP;
            if step > 0 {
                assert(in_window((step - 1) as u64, now, TOTP_STEP, TOTP_SKEW));
            }
            assert(in_window(step, now, TOTP_STEP, TOTP_SKEW));
            assert(in_window((step + 1) as u64, now, TOTP_STEP, TOTP_SKEW));
        }
        found
    }

    /// The code of the time step that holds `time`.
    pub fn generate(&self, time: u64) -> (code: String)
        requires
            self.wf(),
        ensures
            code@ == totp_code(self.secret@, time / TOTP_STEP),
            code@.len() == 6,
            without_space(code@) == code@,
    {
        let code = code_at(&self.secret, TOTP_STEP, time);
        proof {
            nothing_to_strip(code@);
        }
        code
    }

    /// The URL that hands the secret to an authenticator.
    pub fn to_url(&self) -> (r: Result<String, ShowError>)
        requires
            self.wf(),
        ensures
            match r {
                Ok(url) => self.account@.len() > 0 && url@ == otpauth_url(
                    self.secret@,
                    self.issuer@,
                    self.account@,
                    TOTP_STEP,
                ),
                Err(e) => self.account@.len() == 0 && e is AccountNameNotSet,
            },
    {
        match show_url(&self.secret, TOTP_STEP, &self.issuer, &self.account) {
            Some(url) => Ok(url),
            None => Err(ShowError::AccountNameNotSet),
        }
    }

    /// The QR code of that URL, as a PNG image.
    pub fn to_qr_png(&self) -> (r: Result<Vec<u8>, ShowError>)
        requires
            self.wf(),
        ensures
            match r {
                Ok(png) => self.account@.len() > 0 && otpauth_png(
                    self.secret@,
                    self.issuer@,
                    self.account@,
                    TOTP_STEP,
                ) == Ok::<Seq<u8>, Seq<char>>(png@),
                Err(ShowError::AccountNameNotSet) => self.account@.len() == 0,
                Err(ShowError::UrlTooLong { url }) => self.account@.len() > 0 && otpauth_png(
                    self.secret@,
                    self.issuer@,
                    self.account@,
                    TOTP_STEP,
                ) == Err::<Seq<u8>, Seq<char>>(url@),
            },
    {
        if self.account.as_str().is_empty() {
            return Err(ShowError::AccountNameNotSet);
        }
        match show_png(&self.secret, TOTP_STEP, &self.issuer, &self.account) {
            Ok(png) => Ok(png),
            Err(url) => Err(ShowError::UrlTooLong { url }),
        }
    }
}

proof fn quintets_hold_the_octets(a: int, b: int, c: int, d: int, e: int)
    requires
        0 <= a < 256,
        0 <= b < 256,
        0 <= c < 256,
        0 <= d < 256,
        0 <= e < 256,
    ensures
        ({
            let (p, q) = (a / 8, a % 8 * 4 + b / 64);
            let (r, s) = (b / 2 % 32, b % 2 * 16 + c / 16);
            let (t, u) = (c % 16 * 2 + d / 128, d / 4 % 32);
            let (v, w) = (d % 4 * 8 + e / 32, e % 32);
            &&& a == p * 8 + q / 4
            &&& b == q % 4 * 64 + r * 2 + s / 16
            &&& c == s % 16 * 16 + t / 2
            &&& d == t % 2 * 128 + u * 4 + v / 8
            &&& e == v % 8 * 32 + w
        }),
{
}

proof fn values_are_quintets(bytes: Seq<u8>, i: int)
    requires
        0 <= i,
        i / 8 * 5 < bytes.len(),
    ensures
        base32_value(base32_encoded(bytes), i) == quintet(bytes, i),
{
    let text = base32_encoded(bytes);
    if i < text.len() {
        assert(0 <= quintet(bytes, i) < 32);
        assert(text[i] == base32_char(quintet(bytes, i)));
    } else {
        let (at, k) = (i / 8 * 5, i % 8);
        assert(i >= (bytes.len() * 8 + 4) / 5);
        assert(k * 5 >= (bytes.len() - at) * 8);
    }
}

/// Reading octets that were written in base32 gives them back.
pub proof fn base32_gives_octets_back(bytes: Seq<u8>)
    ensures
        base32_decoded(base32_encoded(bytes)) == Some(bytes),
{
    let text = base32_encoded(bytes);
    assert forall|i: int| 0 <= i < text.len() implies in_base32(#[trigger] text[i]) by {
        assert(0 <= quintet(bytes, i) < 32);
        assert(text[i] == base32_char(quintet(bytes, i)));
    }
    let read = Seq::new(text.len() * 5 / 8, |i: int| base32_octet(text, i) as u8);
    assert(read.len() == bytes.len());
    assert forall|i: int| 0 <= i < bytes.len() implies read[i] == bytes[i] by {
        let (g, k) = (i / 5, i % 5);
        let (at, from) = (g * 8, g * 5);
        assert(at / 8 == g && (at + 1) / 8 == g && (at + 2) / 8 == g && (at + 3) / 8 == g);
        assert((at + 4) / 8 == g && (at + 5) / 8 == g && (at + 6) / 8 == g && (at + 7) / 8 == g);
        values_are_quintets(bytes, at);
        values_are_quintets(bytes, at + 1);
        values_are_quintets(bytes, at + 2);
        values_are_quintets(bytes, at + 3);
        values_are_quintets(bytes, at + 4);
        values_are_quintets(bytes, at + 5);
        values_are_quintets(bytes, at + 6);
        values_are_quintets(bytes, at + 7);
        quintets_hold_the_octets(
            octet_or_zero(bytes, from),
            octet_or_zero(bytes, from + 1),
            octet_or_zero(bytes, from + 2),
            octet_or_zero(bytes, from + 3),
            octet_or_zero(bytes, from + 4),
        );
        assert(base32_octet(text, i) == octet_or_zero(bytes, from + k));
    }
    assert(read =~= bytes);
}

/// The base32 text of a secret of twenty octets; reading it gives them back.
pub fn secret_text(bytes: &[u8; 20]) -> (text: String)
    ensures
        text@ == base32_encoded(bytes@),
        base32_decoded(text@) == Some(bytes@),
{
    proof {
        base32_gives_octets_back(bytes@);
    }
    write_base32(bytes.as_slice())
}

/// A new random secret of 160 bits, in base32.
pub fn new_totp_secret() -> (text: String)
    ensures
        exists|bytes: Seq<u8>|
            bytes.len() == 20 && text@ == base32_encoded(bytes) && base32_decoded(text@) == Some(
                bytes,
            ),
{
    let bytes: [u8; 20] = random_bytes();
    assert(bytes@.len() == 20);
    secret_text(&bytes)
}

/// `s` without its white space.
pub fn strip_space(s: &str) -> (r: String)
    ensures
        r@ == without_space(s@),
{
    let chars = chars_of(s);
    let mut r = String::new();
    let mut i: usize = 0;
    while i < chars.len()
        invariant
            i <= chars@.len(),
            chars@ == s@,
            r@ == without_space(s@.take(i as int)),
        decreases chars@.len() - i,
    {
        assert(s@.take(i + 1).drop_last() =~= s@.take(i as int));
        assert(s@.take(i + 1).last() == chars@[i as int]);
        if !space(chars[i]) {
            r.push(chars[i]);
        }
        i += 1;
    }
    assert(s@.take(s@.len() as int) =~= s@);
    r
}

/// A matched step, if it is newer than the last accepted one.
pub fn newer_step(step: Option<u64>, last: u64) -> (r: Option<u64>)
    ensures
        r == fresh(step, last),
{
    match step {
        Some(s) => if s > last {
            Some(s)
        } else {
            None
        },
        None => None,
    }
}

/// Returns the accepted time step, enforcing single use of each step.
pub fn check_totp(state: &AuthState, code: &str, now_unix: u64) -> (step: Option<u64>)
    requires
        now_unix + TOTP_STEP <= u64::MAX,
    ensures
        step == accepted_step(state.totp_secret@, code@, now_unix, state.last_totp_step),
{
    proof {
        reveal_strlit("desk");
        reveal_strlit("owner");
    }
    match totp(&state.totp_secret, "desk", "owner") {
        Ok(t) => {
            let code = strip_space(code);
            newer_step(t.check(&code, now_unix), state.last_totp_step)
        },
        Err(_) => None,
    }
}

/// A code is only ever accepted for a step within one step of the clock, and only if it is the
/// code of that step.
pub proof fn accepted_codes_are_current(secret_b32: Seq<char>, code: Seq<char>, now: u64, last: u64)
    requires
        now + TOTP_STEP <= u64::MAX,
    ensures
        accepted_step(secret_b32, code, now, last) matches Some(step) ==> {
            &&& now / TOTP_STEP - 1 <= step <= now / TOTP_STEP + 1
            &&& base32_decoded(secret_b32) is Some
            &&& totp_code(base32_decoded(secret_b32)->0, step) == without_space(code)
        },
{
}

/// A typed code, white space aside, is accepted for a step within one step of the clock if it is
/// that step's code and no step at least as new has been used. Where steps of the window share a
/// code, the earliest of them counts.
pub proof fn fresh_code_is_accepted(
    secret_b32: Seq<char>,
    secret: Seq<u8>,
    typed: Seq<char>,
    counter: u64,
    now: u64,
    last: u64,
)
    requires
        now + TOTP_STEP <= u64::MAX,
        base32_decoded(secret_b32) == Some(secret),
        secret.len() >= 16,
        in_window(counter, now, TOTP_STEP, TOTP_SKEW),
        without_space(typed) == totp_code(secret, counter),
        forall|e: u64|
            e < counter && in_window(e, now, TOTP_STEP, TOTP_SKEW) ==> totp_code(secret, e)
                != totp_code(secret, counter),
        last < counter,
    ensures
        accepted_step(secret_b32, typed, now, last) == Some(counter),
{
}

/// An accepted step is newer than the last one, so the steps of successive acceptances only grow
/// and no step, and with it no code, is accepted a second time once it has been recorded.
pub proof fn steps_are_single_use(
    secret_b32: Seq<char>,
    code: Seq<char>,
    now: u64,
    last: u64,
    later_code: Seq<char>,
    later: u64,
)
    ensures
        accepted_step(secret_b32, code, now, last) matches Some(step) ==> {
            &&& step > last
            &&& accepted_step(secret_b32, later_code, later, step) matches Some(next) ==> next
                > step
            &&& accepted_step(secret_b32, code, now, step) != Some(step)
        },
{
}

/// The later the last accepted step, the fewer steps are accepted, and no others: what is accepted
/// after a later one is what was accepted after the earlier one, if it is newer still.
pub proof fn later_steps_only_refuse_more(
    secret_b32: Seq<char>,
    code: Seq<char>,
    now: u64,
    earlier: u64,
    later: u64,
)
    requires
        earlier <= later,
    ensures
        accepted_step(secret_b32, code, now, later) == fresh(
            accepted_step(secret_b32, code, now, earlier),
            later,
        ),
{
}

/// Taking out white space takes out every white space and nothing else, wherever it stands.
pub proof fn white_space_is_taken_out(a: Seq<char>, b: Seq<char>, c: char)
    ensures
        without_space(a + b) == without_space(a) + without_space(b),
        is_space(c) ==> without_space(seq![c]).len() == 0,
        !is_space(c) ==> without_space(seq![c]) == seq![c],
        without_space(Seq::<char>::empty()).len() == 0,
    decreases b.len(),
{
    reveal_with_fuel(without_space, 2);
    assert(seq![c].drop_last() =~= Seq::empty());
    assert(without_space(seq![c]) =~= if is_space(c) {
        Seq::empty()
    } else {
        seq![c]
    });
    if b.len() == 0 {
        assert(a + b =~= a);
        assert(without_space(a) + without_space(b) =~= without_space(a));
    } else {
        white_space_is_taken_out(a, b.drop_last(), c);
        assert((a + b).drop_last() =~= a + b.drop_last());
        assert(without_space(a + b) =~= without_space(a) + without_space(b));
    }
}

/// A code matches the earliest of three steps of thirty seconds, the one before that of the clock, its
/// own and the one after it, whose code it is; it matches none only if it is the code of none of them.
pub proof fn codes_match_the_earliest_step(secret: Seq<u8>, code: Seq<char>, now: u64, step: u64)
    requires
        now + 30 <= u64::MAX,
    ensures
        match matching_step(secret, code, now) {
            Some(s) => {
                &&& now as int / 30 - 1 <= s <= now as int / 30 + 1
                &&& totp_code(secret, s) == code
                &&& now as int / 30 - 1 <= step < s ==> totp_code(secret, step) != code
            },
            None => now as int / 30 - 1 <= step <= now as int / 30 + 1 ==> totp_code(secret, step)
                != code,
        },
        TOTP_STEP == 30,
        TOTP_SKEW == 1,
{
}

/// A step counts if it is newer than the last that did.
pub proof fn only_newer_steps_count(step: u64, last: u64)
    ensures
        fresh(Some(step), last) == if step > last {
            Some(step)
        } else {
            None
        },
        fresh(None, last) is None,
{
}

/// A secret of base32 text is used as the octets that it stands for, if these are sixteen or more; a
/// shorter one, or what is not base32, accepts no code.
pub proof fn short_secrets_accept_nothing(
    secret_b32: Seq<char>,
    code: Seq<char>,
    now: u64,
    last: u64,
)
    ensures
        base32_decoded(secret_b32) is None ==> accepted_step(secret_b32, code, now, last) is None,
        base32_decoded(secret_b32) matches Some(secret) ==> accepted_step(
            secret_b32,
            code,
            now,
            last,
        ) == if secret.len() < 16 {
            None
        } else {
            fresh(matching_step(secret, without_space(code), now), last)
        },
{
}

/// Octets are percent-encoded one by one: letters, digits and four marks stand for themselves, every
/// other octet for a percent sign and its two hexadecimal digits.
pub proof fn octets_are_encoded_one_by_one(a: Seq<u8>, b: Seq<u8>, o: u8)
    ensures
        percent(a + b) == percent(a) + percent(b),
        percent(Seq::<u8>::empty()).len() == 0,
        ({
            let plain = ('0' as int) <= o <= '9' as int || ('A' as int) <= o <= 'Z' as int || (
            'a' as int) <= o <= 'z' as int || o == '-' as int || o == '.' as int || o == '_' as int
                || o == '~' as int;
            let text = percent(seq![o]);
            &&& plain ==> text == seq![o as char]
            &&& !plain ==> text.len() == 3 && text[0] == '%' && text[1] == "0123456789ABCDEF"@[o as int
                / 16] && text[2] == "0123456789ABCDEF"@[o as int % 16]
        }),
    decreases b.len(),
{
    reveal_with_fuel(percent, 2);
    reveal_strlit("0123456789ABCDEF");
    assert(seq![o].drop_last() =~= Seq::empty());
    assert(percent(Seq::<u8>::empty()) =~= Seq::empty());
    if b.len() == 0 {
        assert(a + b =~= a);
        assert(percent(a) + percent(b) =~= percent(a));
    } else {
        octets_are_encoded_one_by_one(a, b.drop_last(), o);
        assert((a + b).drop_last() =~= a + b.drop_last());
        assert(percent(a + b) =~= percent(a) + percent(b));
    }
}

/// Only sixteen octets or more make a secret, and no colon may stand in an issuer or an account.
pub proof fn what_can_be_set_up(secret: Seq<u8>, issuer: Seq<char>, account: Seq<char>)
    ensures
        valid_setup(secret, issuer, account) <==> secret.len() >= 16 && (forall|i: int|
            0 <= i < issuer.len() ==> #[trigger] issuer[i] != ':') && (forall|i: int|
            0 <= i < account.len() ==> #[trigger] account[i] != ':'),
{
    if valid_setup(secret, issuer, account) {
        assert forall|i: int| 0 <= i < issuer.len() implies #[trigger] issuer[i] != ':' by {
            assert(issuer.contains(issuer[i]));
        }
        assert forall|i: int| 0 <= i < account.len() implies #[trigger] account[i] != ':' by {
            assert(account.contains(account[i]));
        }
    }
}

} // verus!
