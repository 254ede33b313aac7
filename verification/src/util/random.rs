//! The calls into the `rand` crate that the game's logic makes. Each item
//! here is trusted: its contract is what `rand`'s documentation and source
//! promise of every outcome, not something proved.

use vstd::prelude::*;

use rand::rngs::StdRng;
use rand::seq::{IndexedRandom, SliceRandom};
use rand::{Rng, RngCore, SeedableRng};

verus! {

/// `rand::rngs::StdRng`, the seedable generator all game randomness comes from.
#[verifier::external_type_specification]
#[verifier::external_body]
pub struct ExStdRng(StdRng);

/// `StdRng::seed_from_u64`: a generator whose stream is fixed by the seed.
/// Nothing is stated of the generator.
#[verifier::external_body]
pub fn rng_from_seed(seed: u64) -> StdRng {
    StdRng::seed_from_u64(seed)
}

/// `rand::rng().next_u64()`: a number from the thread's generator, which
/// the operating system seeds; any `u64` may come out. (`rand` panics where
/// the operating system gives it no entropy; nothing here can rule that
/// out.)
#[verifier::external_body]
pub fn fresh_seed() -> u64 {
    rand::rng().next_u64()
}

/// `RngCore::next_u64` on a `StdRng`: any `u64` may come out.
#[verifier::external_body]
pub fn rng_next_u64(rng: &mut StdRng) -> u64 {
    rng.next_u64()
}

/// `Rng::random_range(lo..=hi)` on `u8`: a value of the inclusive range.
/// It panics on an empty range, which `requires` leaves out.
#[verifier::external_body]
pub fn rng_range_inclusive_u8(rng: &mut StdRng, lo: u8, hi: u8) -> (r: u8)
    requires
        lo <= hi,
    ensures
        lo <= r <= hi,
{
    rng.random_range(lo..=hi)
}

/// `Rng::random_range(lo..hi)` on `i32`: a value of the half-open range.
/// It panics on an empty range, which `requires` leaves out.
#[verifier::external_body]
pub fn rng_range_i32(rng: &mut StdRng, lo: i32, hi: i32) -> (r: i32)
    requires
        lo < hi,
    ensures
        lo <= r < hi,
{
    rng.random_range(lo..hi)
}

/// `Rng::random_ratio(numerator, denominator)`: `true` with a chance of
/// `numerator` in `denominator`; always `true` where the two are equal,
/// never where `numerator` is 0. It panics where `numerator > denominator`
/// or `denominator == 0`, which `requires` leaves out.
#[verifier::external_body]
pub fn rng_ratio(rng: &mut StdRng, numerator: u32, denominator: u32) -> (b: bool)
    requires
        0 < denominator,
        numerator <= denominator,
    ensures
        numerator == denominator ==> b,
        numerator == 0 ==> !b,
{
    rng.random_ratio(numerator, denominator)
}

/// `IndexedRandom::choose` on a slice: `None` exactly for an empty slice,
/// otherwise one of its elements (which one is left to chance).
#[verifier::external_body]
pub fn rng_choose<T: Copy>(rng: &mut StdRng, items: &[T]) -> (r: Option<T>)
    ensures
        r is None <==> items@.len() == 0,
        r matches Some(v) ==> items@.contains(v),
{
    items.choose(rng).copied()
}

/// Whether every element of `r` is the element of `items` at some position,
/// no position being used twice.
pub open spec fn taken_from_distinct_positions<T>(r: Seq<T>, items: Seq<T>) -> bool {
    exists|idx: Seq<int>|
        #![trigger idx.len()]
        idx.len() == r.len()
        && (forall|i: int| 0 <= i < idx.len() ==> 0 <= #[trigger] idx[i] < items.len())
        && (forall|i: int, j: int| 0 <= i < j < idx.len() ==> idx[i] != idx[j])
        && (forall|i: int| 0 <= i < idx.len() ==> #[trigger] r[i] == items[idx[i]])
}

/// `IndexedRandom::choose_multiple`: `min(amount, len)` elements taken from
/// distinct positions of the slice, in an order left to chance.
#[verifier::external_body]
pub fn rng_choose_multiple<T: Copy>(rng: &mut StdRng, items: &[T], amount: usize) -> (r: Vec<T>)
    ensures
        r@.len() == if amount < items@.len() { amount as int } else { items@.len() as int },
        taken_from_distinct_positions(r@, items@),
{
    items.choose_multiple(rng, amount).copied().collect()
}

/// `SliceRandom::shuffle`: the same elements in an order left to chance.
#[verifier::external_body]
pub fn rng_shuffle<T>(rng: &mut StdRng, items: &mut Vec<T>)
    ensures
        final(items)@.to_multiset() == old(items)@.to_multiset(),
{
    items.shuffle(rng)
}

} // verus!
