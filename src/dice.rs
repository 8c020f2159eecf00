use rand::Rng;
use rand::seq::SliceRandom;
use vstd::prelude::*;

verus! {

/// Relies on rand's `Rng::gen_range` over `thread_rng()`: a value drawn from `0..n`,
/// which is never empty here.
#[verifier::external_body]
pub(crate) fn random_below(n: usize) -> (r: usize)
    requires
        n > 0,
    ensures
        r < n,
{
    rand::thread_rng().gen_range(0..n)
}

/// Relies on rand's `SliceRandom::shuffle` over `thread_rng()`: it only swaps
/// items, so the same items come back in a random order.
#[verifier::external_body]
pub(crate) fn shuffled(v: Vec<(u8, u8)>) -> (r: Vec<(u8, u8)>)
    ensures
        r@.to_multiset() == v@.to_multiset(),
{
    let mut v = v;
    v.shuffle(&mut rand::thread_rng());
    v
}

/// Relies on rand's `SliceRandom::choose` over `thread_rng()`: one item of the
/// slice, and none only when the slice is empty.
#[verifier::external_body]
pub(crate) fn choose_spell(items: &[crate::spells::Spell]) -> (r: Option<&crate::spells::Spell>)
    ensures
        match r {
            Some(x) => items@.contains(*x),
            None => items@.len() == 0,
        },
{
    items.choose(&mut rand::thread_rng())
}

/// One throw of a ten-sided die, from 0 to 9.
pub fn roll_d10() -> (r: u8)
    ensures
        r <= 9,
{
    random_below(10) as u8
}

} // verus!
