//! New credentials: a password of the owner's choice, and a fresh secret for one-time passwords.

use crate::config::AuthState;
use crate::password::{hash_password, made_of, HashError};
use crate::text::{
    chars_of, debug_text, decimal, decimal_text, join2, join3, same, show_debug, text_of,
};
use crate::totp::{
    base32_decoded, new_totp_secret, totp, valid_setup, Totp, TotpError,
};
use vstd::prelude::*;
use vstd::utf8::encode_utf8;

verus! {

broadcast use vstd::string::group_string_axioms;

/// The fewest characters of a password.
pub const MIN_PASSWORD: usize = 12;

/// Why there are no new credentials.
#[derive(Debug, PartialEq, Eq)]
pub enum SetupError {
    /// The two passwords differ.
    Mismatch,
    /// The password is too short.
    TooShort,
    /// The one-time password cannot be set up.
    Totp(TotpError),
    /// The password could not be hashed.
    Hashing(HashError),
}

/// What is said of an error.
pub open spec fn said(e: SetupError) -> Seq<char> {
    match e {
        SetupError::Mismatch => "passwords do not match"@,
        SetupError::TooShort => "use at least 12 characters"@,
        SetupError::Totp(TotpError::BadSecret) => "bad TOTP secret: ParseBase32"@,
        SetupError::Totp(TotpError::InvalidIssuer { issuer }) =>
            "TOTP setup failed: InvalidIssuer { issuer: "@ + debug_text(issuer@) + " }"@,
        SetupError::Totp(TotpError::InvalidAccountName { account_name }) =>
            "TOTP setup failed: InvalidAccountName { account_name: "@ + debug_text(account_name@)
                + " }"@,
        SetupError::Totp(TotpError::SecretTooShort { bits }) =>
            "TOTP setup failed: SecretTooShort { bits: "@ + decimal(bits as nat) + " }"@,
        SetupError::Hashing(e) => "hashing failed: "@ + e.reason@,
    }
}

impl SetupError {
    /// What is said of it.
    pub fn message(&self) -> (m: String)
        ensures
            m@ == said(*self),
    {
        match self {
            SetupError::Mismatch => "passwords do not match".to_owned(),
            SetupError::TooShort => "use at least 12 characters".to_owned(),
            SetupError::Totp(TotpError::BadSecret) => "bad TOTP secret: ParseBase32".to_owned(),
            SetupError::Totp(TotpError::InvalidIssuer { issuer }) => join3(
                "TOTP setup failed: InvalidIssuer { issuer: ",
                &show_debug(issuer),
                " }",
            ),
            SetupError::Totp(TotpError::InvalidAccountName { account_name }) => join3(
                "TOTP setup failed: InvalidAccountName { account_name: ",
                &show_debug(account_name),
                " }",
            ),
            SetupError::Totp(TotpError::SecretTooShort { bits }) => join3(
                "TOTP setup failed: SecretTooShort { bits: ",
                &decimal_text(*bits as u64),
                " }",
            ),
            SetupError::Hashing(e) => join2("hashing failed: ", &e.reason),
        }
    }
}

/// `s` without the line ends behind it.
pub open spec fn without_line_end(s: Seq<char>) -> Seq<char>
    decreases s.len(),
{
    if s.len() > 0 && (s.last() == '\r' || s.last() == '\n') {
        without_line_end(s.drop_last())
    } else {
        s
    }
}

/// The password on a line that was read.
pub fn password_of_line(line: &str) -> (password: String)
    ensures
        password@ == without_line_end(line@),
{
    let chars = chars_of(line);
    let mut end: usize = chars.len();
    assert(chars@.take(end as int) =~= chars@);
    while end > 0 && (chars[end - 1] == '\r' || chars[end - 1] == '\n')
        invariant
            end <= chars@.len(),
            without_line_end(chars@.take(end as int)) == without_line_end(chars@),
        decreases end,
    {
        assert(chars@.take(end as int).drop_last() =~= chars@.take(end - 1));
        end -= 1;
    }
    assert(chars@.subrange(0, end as int) =~= chars@.take(end as int));
    text_of(&chars, 0, end)
}

/// The password that was typed twice.
pub fn password_typed(first: String, second: String) -> (r: Result<String, SetupError>)
    ensures
        match r {
            Ok(password) => first@ == second@ && password@ == first@,
            Err(e) => first@ != second@ && e == SetupError::Mismatch,
        },
{
    if same(&first, &second) {
        Ok(first)
    } else {
        Err(SetupError::Mismatch)
    }
}

/// Credentials of a hash that could, or could not, be computed, for a secret that is set up as `t`.
pub fn credentials_of(hash: Result<String, HashError>, secret: String, t: Totp) -> (r: Result<
    (AuthState, Totp),
    SetupError,
>)
    ensures
        match hash {
            Ok(h) => r matches Ok((auth, u)) && auth.password_hash@ == h@ && auth.totp_secret@
                == secret@ && auth.last_totp_step == 0 && u == t,
            Err(why) => r matches Err(e) && e == SetupError::Hashing(why),
        },
{
    match hash {
        Ok(password_hash) => Ok(
            (AuthState { password_hash, totp_secret: secret, last_totp_step: 0 }, t),
        ),
        Err(why) => Err(SetupError::Hashing(why)),
    }
}

/// Credentials of a password and a secret; `host` and `account` are what an authenticator shows.
pub fn credentials(password: &str, secret: String, host: &str, account: &str) -> (r: Result<
    (AuthState, Totp),
    SetupError,
>)
    ensures
        match r {
            Ok((auth, t)) => {
                &&& password@.len() >= MIN_PASSWORD
                &&& made_of(auth.password_hash@, encode_utf8(password@))
                &&& auth.totp_secret@ == secret@
                &&& auth.last_totp_step == 0
                &&& base32_decoded(secret@) == Some(t.secret@)
                &&& t.wf()
                &&& t.issuer@ == host@
                &&& t.account@ == account@
            },
            Err(SetupError::Mismatch) => false,
            Err(SetupError::TooShort) => password@.len() < MIN_PASSWORD,
            Err(SetupError::Totp(e)) => password@.len() >= MIN_PASSWORD && match e {
                TotpError::BadSecret => base32_decoded(secret@) is None,
                TotpError::InvalidIssuer { issuer } => base32_decoded(secret@) is Some
                    && host@.contains(':') && issuer@ == host@,
                TotpError::InvalidAccountName { account_name } => base32_decoded(secret@) is Some
                    && !host@.contains(':') && account@.contains(':') && account_name@ == account@,
                TotpError::SecretTooShort { bits } => !host@.contains(':') && !account@.contains(
                    ':',
                ) && (base32_decoded(secret@) matches Some(bytes) && bytes.len() < 16 && bits
                    == bytes.len() * 8),
            },
            Err(SetupError::Hashing(_)) => password@.len() >= MIN_PASSWORD && (base32_decoded(
                secret@,
            ) matches Some(bytes) && valid_setup(bytes, host@, account@)),
        },
{
    if chars_of(password).len() < MIN_PASSWORD {
        return Err(SetupError::TooShort);
    }
    let t = match totp(&secret, host, account) {
        Ok(t) => t,
        Err(e) => {
            return Err(SetupError::Totp(e));
        },
    };
    credentials_of(hash_password(password), secret, t)
}

/// New credentials, with a fresh random secret, in place of any previous ones.
pub fn setup(password: &str, host: &str, account: &str) -> (r: Result<
    (AuthState, Totp),
    SetupError,
>)
    ensures
        match r {
            Ok((auth, t)) => {
                &&& password@.len() >= MIN_PASSWORD
                &&& made_of(auth.password_hash@, encode_utf8(password@))
                &&& base32_decoded(auth.totp_secret@) == Some(t.secret@)
                &&& t.secret@.len() == 20
                &&& auth.last_totp_step == 0
                &&& t.wf()
                &&& t.issuer@ == host@
                &&& t.account@ == account@
            },
            Err(e) => match e {
                SetupError::TooShort => password@.len() < MIN_PASSWORD,
                SetupError::Totp(e) => password@.len() >= MIN_PASSWORD && if host@.contains(':') {
                    e matches TotpError::InvalidIssuer { issuer } && issuer@ == host@
                } else {
                    account@.contains(':') && (e matches TotpError::InvalidAccountName {
                        account_name,
                    } && account_name@ == account@)
                },
                SetupError::Hashing(_) => password@.len() >= MIN_PASSWORD && !host@.contains(':')
                    && !account@.contains(':'),
                SetupError::Mismatch => false,
            },
        },
{
    let secret = new_totp_secret();
    credentials(password, secret, host, account)
}

/// The picture of a QR code in characters, two modules to a character, if the data fits into one.
pub uninterp spec fn qr_picture(data: Seq<u8>, quiet_zone: bool) -> Option<Seq<char>>;

/// `qrcode::QrCode::new` and its rendering as `unicode::Dense1x2`: the picture of a QR code, if the
/// data fits into one.
#[verifier::external_body]
fn draw_qr(data: &[u8], quiet_zone: bool) -> (picture: Option<String>)
    ensures
        match picture {
            Some(p) => qr_picture(data@, quiet_zone) == Some(p@),
            None => qr_picture(data@, quiet_zone) is None,
        },
{
    let code = qrcode::QrCode::new(data).ok()?;
    Some(code.render::<qrcode::render::unicode::Dense1x2>().quiet_zone(quiet_zone).build())
}

/// The QR code of a URL, to be shown in a terminal.
pub fn terminal_qr(url: &str) -> (picture: Option<String>)
    ensures
        match picture {
            Some(p) => qr_picture(encode_utf8(url@), true) == Some(p@),
            None => qr_picture(encode_utf8(url@), true) is None,
        },
{
    draw_qr(url.as_bytes(), true)
}

/// A password that is read from a line is the line without the ends of lines behind it, and nothing
/// else is taken off.
pub proof fn line_ends_go(password: Seq<char>, ends: Seq<char>)
    requires
        forall|i: int| 0 <= i < ends.len() ==> #[trigger] ends[i] == '\r' || ends[i] == '\n',
        password.len() > 0 ==> password.last() != '\r' && password.last() != '\n',
    ensures
        without_line_end(password + ends) == password,
    decreases ends.len(),
{
    if ends.len() == 0 {
        assert(password + ends =~= password);
    } else {
        assert((password + ends).last() == ends.last());
        assert((password + ends).drop_last() =~= password + ends.drop_last());
        line_ends_go(password, ends.drop_last());
    }
}

/// What was wrong is said: what is asked of a password, and what hashing and the setting up
/// of codes reported.
pub proof fn errors_are_told(e: SetupError)
    ensures
        MIN_PASSWORD == 12,
        e is Mismatch ==> said(e) == "passwords do not match"@,
        e is TooShort ==> said(e) == "use at least 12 characters"@,
        e matches SetupError::Hashing(why) ==> said(e) == "hashing failed: "@ + why.reason@,
        e matches SetupError::Totp(TotpError::BadSecret) ==> said(e)
            == "bad TOTP secret: ParseBase32"@,
        e matches SetupError::Totp(TotpError::InvalidIssuer { issuer }) ==> said(e)
            == "TOTP setup failed: InvalidIssuer { issuer: "@ + debug_text(issuer@) + " }"@,
        e matches SetupError::Totp(TotpError::InvalidAccountName { account_name }) ==> said(e)
            == "TOTP setup failed: InvalidAccountName { account_name: "@ + debug_text(account_name@)
            + " }"@,
        e matches SetupError::Totp(TotpError::SecretTooShort { bits }) ==> said(e)
            == "TOTP setup failed: SecretTooShort { bits: "@ + decimal(bits as nat) + " }"@,
{
}

} // verus!
