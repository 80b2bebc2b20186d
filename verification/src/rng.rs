use vstd::prelude::*;
use vstd::seq_lib::group_to_multiset_ensures;

verus! {

/// fastrand's pseudo-random generator, the explicit random source that every
/// randomized rule receives; declared here so its values can flow through
/// verified code.
#[verifier::external_type_specification]
#[verifier::external_body]
pub struct ExRng(fastrand::Rng);

/// Relies on fastrand::Rng::with_seed: builds a generator from a seed.
#[verifier::external_body]
pub(crate) fn rng_with_seed(seed: u64) -> fastrand::Rng {
    fastrand::Rng::with_seed(seed)
}

/// Relies on rand::random: draws one word from the thread-local generator.
/// Its only panic is environmental: OS entropy being unavailable when that
/// generator is first seeded. No input reaches it.
#[verifier::external_body]
pub(crate) fn entropy_seed() -> u64 {
    rand::random::<u64>()
}

/// Relies on fastrand::Rng::bool: a random coin.
#[verifier::external_body]
pub(crate) fn rng_bool(rng: &mut fastrand::Rng) -> bool {
    rng.bool()
}

/// Relies on fastrand::Rng::u8: a draw from `lo..=hi`, which it documents to
/// panic only on an empty range; `lo <= hi` rules that out.
#[verifier::external_body]
pub(crate) fn rng_u8_between(rng: &mut fastrand::Rng, lo: u8, hi: u8) -> (r: u8)
    requires
        lo <= hi,
    ensures
        lo <= r <= hi,
{
    rng.u8(lo..=hi)
}

/// Relies on fastrand::Rng::shuffle: a Fisher-Yates pass, so the slice after
/// the call is a permutation of the slice before it.
#[verifier::external_body]
pub(crate) fn shuffle_indices(rng: &mut fastrand::Rng, v: &mut Vec<usize>)
    ensures
        final(v)@.to_multiset() == old(v)@.to_multiset(),
{
    rng.shuffle(v.as_mut_slice());
}

/// A generator seeded from OS entropy.
pub fn fresh_rng() -> fastrand::Rng {
    rng_with_seed(entropy_seed())
}

/// A generator with a caller-chosen seed, for reproducible runs.
pub fn seeded_rng(seed: u64) -> fastrand::Rng {
    rng_with_seed(seed)
}

/// The integers of `lo..hi` in a shuffled order: the result holds exactly
/// those integers, each once.
pub fn rand_range(lo: usize, hi: usize, rng: &mut fastrand::Rng) -> (r: Vec<usize>)
    requires
        lo <= hi,
    ensures
        r@.len() == hi - lo,
        r@.to_multiset() == Seq::new((hi - lo) as nat, |i: int| (lo + i) as usize).to_multiset(),
        forall|i: int| 0 <= i < r@.len() ==> lo <= #[trigger] r@[i] < hi,
        forall|val: usize| lo <= val < hi ==> r@.contains(val),
{
    let ghost ordered = Seq::new((hi - lo) as nat, |i: int| (lo + i) as usize);
    let mut v: Vec<usize> = Vec::new();
    let mut k: usize = 0;
    while k < hi - lo
        invariant
            lo <= hi,
            k <= hi - lo,
            v@.len() == k,
            forall|i: int| 0 <= i < k ==> #[trigger] v@[i] == lo + i,
        decreases hi - lo - k,
    {
        v.push(lo + k);
        k += 1;
    }
    proof {
        assert(v@ =~= ordered);
    }
    shuffle_indices(rng, &mut v);
    proof {
        broadcast use group_to_multiset_ensures;
        assert(v@.to_multiset().len() == v@.len());
        assert(ordered.to_multiset().len() == ordered.len());
        assert(v@.len() == ordered.len());
        assert forall|i: int| 0 <= i < v@.len() implies lo <= #[trigger] v@[i] < hi by {
            assert(v@.contains(v@[i]));
            assert(v@.to_multiset().count(v@[i]) > 0);
            assert(ordered.to_multiset().count(v@[i]) > 0);
            assert(ordered.contains(v@[i]));
            let j = choose|j: int| 0 <= j < ordered.len() && ordered[j] == v@[i];
            assert(ordered[j] == lo + j);
        }
        assert forall|val: usize| lo <= val < hi implies v@.contains(val) by {
            assert(ordered[val - lo] == val);
            assert(ordered.contains(val));
            assert(ordered.to_multiset().count(val) > 0);
            assert(v@.to_multiset().count(val) > 0);
        }
    }
    v
}

} // verus!
