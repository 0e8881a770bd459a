//! Seeded random words from rand's standard generator.

use vstd::prelude::*;
use rand::rngs::StdRng;
use rand::{Rng, SeedableRng};

verus! {

/// Word `index` of the stream of rand's `StdRng` seeded by `seed_from_u64(seed)`,
/// read by filling a `[u64]` slice from a fresh generator.
pub uninterp spec fn seeded_word(seed: u64, index: nat) -> u64;

/// The first `n` words of the stream seeded by `seed`.
pub open spec fn seeded_stream(seed: u64, n: nat) -> Seq<u64> {
    Seq::new(n, |i: int| seeded_word(seed, i as nat))
}

/// Relies on rand's `StdRng::seed_from_u64` and `Rng::fill` on a `[u64]` slice:
/// the generator is deterministic for a given seed, and filling `n` words from
/// a fresh generator yields the first `n` words of its stream, each one as the
/// next eight bytes of that stream read little-endian.
#[verifier::external_body]
pub(crate) fn seeded_words(seed: u64, n: usize) -> (r: Vec<u64>)
    ensures
        r@.len() == n,
        forall|i: int| 0 <= i < n ==> r@[i] == seeded_word(seed, i as nat),
{
    let mut rng = StdRng::seed_from_u64(seed);
    let mut words = vec![0u64; n];
    rng.fill(&mut words[..]);
    words
}

} // verus!
