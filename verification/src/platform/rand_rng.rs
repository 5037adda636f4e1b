//! The [`RandRng`] type.
use vstd::prelude::*;
use rand::{Rng as _, RngExt as _};

verus! {

/// A source of randomness based on the `rand` library's thread-local generator.
#[derive(Default, Debug, Clone, Copy)]
pub struct RandRng {}

/// `rand::rng().random::<u64>()`: a random number from the thread-local generator.
/// Which number comes back is left open.
#[verifier::external_body]
fn random_u64() -> u64 {
    rand::rng().random()
}

/// `rand::rng().random::<u128>()`: a random number from the thread-local generator.
/// Which number comes back is left open.
#[verifier::external_body]
fn random_u128() -> u128 {
    rand::rng().random()
}

/// `rand::rng().fill_bytes(arr)`: fills `arr` with random bytes from the thread-local
/// generator. Its length is kept; which bytes it holds is left open.
#[verifier::external_body]
fn random_fill(arr: &mut [u8])
    ensures
        final(arr)@.len() == old(arr)@.len(),
{
    rand::rng().fill_bytes(arr);
}

impl RandRng {
    /// Create a new source of randomness.
    pub fn new() -> (r: Self) {
        RandRng {}
    }

    /// Fill `arr` with random bytes and hand it back. This never fails: the result is
    /// `arr` itself, of the same length, so that what is written through it lands in `arr`.
    pub fn fill<'a>(&self, arr: &'a mut [u8]) -> (r: Option<&'a mut [u8]>)
        ensures
            r is Some,
            r.unwrap()@.len() == old(arr)@.len(),
            final(arr)@ == final(r.unwrap())@,
    {
        random_fill(arr);
        Some(arr)
    }

    /// A random 64-bit number. This never fails.
    pub fn gen_u64(&self) -> (r: Option<u64>)
        ensures
            r is Some,
    {
        Some(random_u64())
    }

    /// A random 128-bit number. This never fails.
    pub fn gen_u128(&self) -> (r: Option<u128>)
        ensures
            r is Some,
    {
        Some(random_u128())
    }
}

} // verus!
