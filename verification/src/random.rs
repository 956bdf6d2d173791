//! The random draws that the simulation makes. What is drawn is not
//! known in advance: the contracts here state only the range it lies in.

use vstd::prelude::*;
use rand::rngs::StdRng;
use rand::seq::IteratorRandom;
use rand::Rng;

verus! {

/// The standard generator of `rand`. It is made and seeded outside this
/// library and handed in; once seeded it draws from its own state alone.
#[verifier::external_type_specification]
#[verifier::external_body]
pub struct ExStdRng(StdRng);

/// Calls `Rng::gen_range` on the inclusive range from `low` to `high`.
/// The range must not be empty, or `rand` panics. Claimed: the number
/// drawn lies in the range.
#[verifier::external_body]
pub(crate) fn draw_between(rng: &mut StdRng, low: u64, high: u64) -> (drawn: u64)
    requires
        low <= high,
    ensures
        low <= drawn <= high,
{
    rng.gen_range(low..=high)
}

/// Calls `Rng::gen_ratio`, which is true with probability
/// `numerator / denominator`. The denominator must not be zero nor less
/// than the numerator, or `rand` panics. Nothing is claimed of the
/// result.
#[verifier::external_body]
pub(crate) fn draw_chance(rng: &mut StdRng, numerator: u32, denominator: u32) -> (hit: bool)
    requires
        0 < denominator,
        numerator <= denominator,
{
    rng.gen_ratio(numerator, denominator)
}

/// Calls `IteratorRandom::choose_multiple` on the positions from 0 to
/// `count`, not included. Claimed, as its documentation says: it returns
/// `amount` of them, or all where there are fewer. Claimed from its
/// source: each position returned is one of the range, and none comes
/// twice, since each element of the iterator is placed at most once.
/// `amount` is kept small so that the buffer it reserves can be had.
#[verifier::external_body]
pub(crate) fn choose_positions(rng: &mut StdRng, count: usize, amount: usize) -> (chosen: Vec<
    usize,
>)
    requires
        amount <= u16::MAX,
    ensures
        amount <= count ==> chosen@.len() == amount,
        amount > count ==> chosen@.len() == count,
        forall|i: int| 0 <= i < chosen@.len() ==> #[trigger] chosen@[i] < count,
        chosen@.no_duplicates(),
{
    (0..count).choose_multiple(rng, amount)
}

} // verus!
