//! Random octets.

use rand::RngExt;
use vstd::prelude::*;

verus! {

/// `rand::rng().random()`: an array of octets from the thread's cryptographically secure
/// generator. Nothing is claimed of their values.
#[verifier::external_body]
pub(crate) fn random_bytes<const N: usize>() -> (bytes: [u8; N])
{
    rand::rng().random()
}

} // verus!
