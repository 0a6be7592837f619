use vstd::prelude::*;

verus! {

/// `rand::thread_rng().gen_range(0..n)`: some number below `n` (the range
/// must not be empty). Which one is left to chance.
#[verifier::external_body]
pub(crate) fn random_below(n: u64) -> (r: u64)
    requires
        n > 0,
    ensures
        r < n,
{
    rand::Rng::gen_range(&mut rand::thread_rng(), 0..n)
}

/// `rand::thread_rng().fill(&mut [u8; 16])`: sixteen bytes of chance.
#[verifier::external_body]
pub(crate) fn random_key16() -> (r: [u8; 16]) {
    let mut key = [0u8; 16];
    rand::Rng::fill(&mut rand::thread_rng(), &mut key);
    key
}

/// `rand::thread_rng().fill(&mut [u8; 32])`: thirty-two bytes of chance
/// (what `SigningKey::generate` draws for a new secret key).
#[verifier::external_body]
pub(crate) fn random_key32() -> (r: [u8; 32]) {
    let mut key = [0u8; 32];
    rand::Rng::fill(&mut rand::thread_rng(), &mut key);
    key
}

} // verus!
