//! The login password, kept only as an argon2id hash in PHC form.

use crate::text::begins_with;
use argon2::password_hash::{PasswordHasher, PasswordVerifier};
use vstd::prelude::*;
use vstd::utf8::encode_utf8;

verus! {

broadcast use vstd::string::group_string_axioms;

/// Whether the PHC string `hash` is found to be a hash of `password`, if the memory that finding out
/// takes can be had, or if it cannot; `None` where it is not found out for want of memory.
pub uninterp spec fn phc_accepts(hash: Seq<char>, password: Seq<u8>, memory: bool) -> Option<bool>;

/// How a password compares with a hash.
#[derive(Clone, Copy, Debug, PartialEq, Eq, Structural)]
pub enum PasswordCheck {
    /// The hash is of this password.
    Match,
    /// The hash is of another password, or no hash at all.
    Mismatch,
    /// The memory that the hash's parameters ask for could not be had.
    OutOfMemory,
}

/// A password could not be hashed, and why.
#[derive(Debug, PartialEq, Eq)]
pub struct HashError {
    pub reason: String,
}

/// The longest password that argon2 takes, in octets.
pub open spec fn longest_password() -> nat {
    0xffff_ffff
}

/// Whether a PHC string names one of the argon2 algorithms, with more behind the name.
pub open spec fn names_argon2(hash: Seq<char>) -> bool {
    ||| begins_with(hash, "$argon2d$"@)
    ||| begins_with(hash, "$argon2i$"@)
    ||| begins_with(hash, "$argon2id$"@)
}

/// What comparing a password with a PHC string can come to. Only a string that names argon2 is
/// computed again: it alone can match, and it alone asks for memory. Any other text is a mismatch.
pub open spec fn compares(hash: Seq<char>, password: Seq<u8>, check: PasswordCheck) -> bool {
    match check {
        PasswordCheck::Match => phc_accepts(hash, password, true) == Some(true) && names_argon2(hash)
            && password.len() <= longest_password(),
        PasswordCheck::Mismatch => phc_accepts(hash, password, true) == Some(false),
        PasswordCheck::OutOfMemory => phc_accepts(hash, password, false) is None && names_argon2(
            hash,
        ),
    }
}

/// Whether a hash is one that hashing a password gives.
pub open spec fn made_of(hash: Seq<char>, password: Seq<u8>) -> bool {
    &&& phc_accepts(hash, password, true) == Some(true)
    &&& begins_with(hash, "$argon2id$"@)
    &&& password.len() <= longest_password()
}

/// What asking whether a password is the one of a hash can be answered.
pub open spec fn may_answer(hash: Seq<char>, password: Seq<u8>, ok: bool) -> bool {
    if ok {
        compares(hash, password, PasswordCheck::Match)
    } else {
        ||| compares(hash, password, PasswordCheck::Mismatch)
        ||| compares(hash, password, PasswordCheck::OutOfMemory)
    }
}

/// `argon2::Argon2::default().hash_password`: hashes a password under a fresh random salt. What it
/// gives is a PHC string for argon2id that the verifier accepts for the same password. A password
/// of 4 GiB or more is refused. It may also fail for lack of randomness or memory; when it does, and
/// the reason that it gives, is up to the machine.
#[verifier::external_body]
fn argon2_hash(password: &[u8]) -> (hash: Result<String, String>)
    ensures
        hash matches Ok(h) ==> phc_accepts(h@, password@, true) == Some(true),
        hash matches Ok(h) ==> begins_with(h@, "$argon2id$"@),
        password@.len() > longest_password() ==> hash is Err,
{
    let hash = argon2::Argon2::default().hash_password(password);
    hash.map(|h| h.to_string()).map_err(|e| e.to_string())
}

/// `PasswordVerifier::<str>::verify_password` of `argon2::Argon2::default()`: computes the hash
/// again, with the salt and the parameters that the PHC string itself names, and compares. A text
/// that does not name an argon2 algorithm is refused before anything is computed, and so before
/// memory is asked for; a password of 4 GiB or more never matches. It asks for memory once at most,
/// and its answer depends on the two arguments and on whether that memory can be had. Whether it can
/// is not said.
#[verifier::external_body]
fn argon2_verify(hash: &str, password: &[u8]) -> (check: PasswordCheck)
    ensures
        compares(hash@, password@, check),
{
    match PasswordVerifier::<str>::verify_password(&argon2::Argon2::default(), password, hash) {
        Ok(()) => PasswordCheck::Match,
        Err(argon2::password_hash::Error::OutOfMemory) => PasswordCheck::OutOfMemory,
        Err(_) => PasswordCheck::Mismatch,
    }
}

/// What is handed out for a hash that could, or could not, be computed.
pub fn hash_outcome(hash: Result<String, String>) -> (r: Result<String, HashError>)
    ensures
        match hash {
            Ok(h) => r matches Ok(given) && given == h,
            Err(why) => r matches Err(e) && e.reason == why,
        },
{
    match hash {
        Ok(h) => Ok(h),
        Err(reason) => Err(HashError { reason }),
    }
}

/// Hashes a new password. A password of 4 GiB or more is refused; for any other it is up to the
/// machine whether there is randomness and memory enough.
pub fn hash_password(password: &str) -> (r: Result<String, HashError>)
    ensures
        r matches Ok(h) ==> made_of(h@, encode_utf8(password@)),
{
    hash_outcome(argon2_hash(password.as_bytes()))
}

/// Compares `password` with a PHC string.
pub fn check_password(hash: &str, password: &str) -> (check: PasswordCheck)
    ensures
        compares(hash@, encode_utf8(password@), check),
{
    argon2_verify(hash, password.as_bytes())
}

/// Whether a comparison lets the user in: only a match does.
pub fn lets_in(check: PasswordCheck) -> (ok: bool)
    ensures
        ok == (check is Match),
{
    match check {
        PasswordCheck::Match => true,
        _ => false,
    }
}

/// Whether `password` is the one that `hash` was made of. Parameters come from the PHC string
/// itself; a hash too costly to compute again is refused. That is the only way in which the right
/// password is turned away, and it takes a hash that names argon2.
pub fn verify_password(hash: &str, password: &str) -> (ok: bool)
    ensures
        may_answer(hash@, encode_utf8(password@), ok),
{
    lets_in(check_password(hash, password))
}

/// A hash that was made of a password is never found to be of another: that password is turned away
/// only for want of memory.
pub proof fn hashes_know_their_password(
    hash: Seq<char>,
    password: Seq<u8>,
    check: PasswordCheck,
    ok: bool,
)
    requires
        made_of(hash, password),
    ensures
        compares(hash, password, check) ==> check is Match || check is OutOfMemory,
        may_answer(hash, password, ok) && !ok ==> !compares(
            hash,
            password,
            PasswordCheck::Mismatch,
        ) && compares(hash, password, PasswordCheck::OutOfMemory),
{
}

/// A text that does not name argon2 lets nobody in.
pub proof fn other_texts_let_nobody_in(
    text: Seq<char>,
    password: Seq<u8>,
    check: PasswordCheck,
    ok: bool,
)
    requires
        !names_argon2(text),
    ensures
        compares(text, password, check) ==> check is Mismatch,
        may_answer(text, password, ok) ==> !ok,
{
}

/// A password that lets in is one that the hash accepts; one that does not is one that it does not
/// accept, unless the hash is one of argon2's and there was too little memory to tell.
pub proof fn what_an_answer_tells(hash: Seq<char>, password: Seq<u8>, ok: bool)
    requires
        may_answer(hash, password, ok),
    ensures
        ok ==> phc_accepts(hash, password, true) == Some(true),
        !ok ==> phc_accepts(hash, password, true) == Some(false) || (phc_accepts(
            hash,
            password,
            false,
        ) is None && (begins_with(hash, "$argon2d$"@) || begins_with(hash, "$argon2i$"@)
            || begins_with(hash, "$argon2id$"@))),
{
}

/// A hash that was made of a password is one of argon2id, and no password of 4 GiB or more has one or
/// matches one.
pub proof fn hashes_are_of_argon2id(hash: Seq<char>, password: Seq<u8>)
    ensures
        made_of(hash, password) <==> phc_accepts(hash, password, true) == Some(true)
            && password.len() < 0x1_0000_0000 && begins_with(hash, "$argon2id$"@),
        compares(hash, password, PasswordCheck::Match) <==> phc_accepts(hash, password, true)
            == Some(true) && password.len() < 0x1_0000_0000 && names_argon2(hash),
        names_argon2(hash) <==> begins_with(hash, "$argon2d$"@) || begins_with(hash, "$argon2i$"@)
            || begins_with(hash, "$argon2id$"@),
{
}

} // verus!
