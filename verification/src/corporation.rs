use vstd::prelude::*;

verus! {

/// The true value of the asset when the simulation starts, and the price the
/// book is seeded around.
pub const STARTING_PRICE: u64 = 1000;

/// A fair coin from the thread-local generator of the `rand` crate.
///
/// Calls `rand::random::<bool>()`, which draws a `u32` from the thread's
/// generator and tests its top bit. Nothing is claimed of the result: any
/// `bool` may come back, and two calls may differ. (The generator panics if
/// the operating system cannot seed it; no contract here can rule that out.)
#[verifier::external_body]
pub(crate) fn random_bool() -> bool {
    rand::random::<bool>()
}

/// The true value after one tick of its random walk: one lower when the coin
/// says `fall`, one higher otherwise, wrapping at the ends of the `u64` range
/// as an atomic add or subtract does.
pub open spec fn next_true_price(true_price: u64, fall: bool) -> u64 {
    if fall {
        vstd::wrapping::u64_specs::wrapping_sub(true_price, 1)
    } else {
        vstd::wrapping::u64_specs::wrapping_add(true_price, 1)
    }
}

/// One tick of the true value's walk for a given coin.
pub fn true_price_step(true_price: u64, fall: bool) -> (next: u64)
    ensures
        next == next_true_price(true_price, fall),
{
    if fall {
        true_price.wrapping_sub(1)
    } else {
        true_price.wrapping_add(1)
    }
}

/// One tick of the corporation: a coin is thrown and the true value steps one
/// down or one up accordingly.
pub fn set_true_price(true_price: u64) -> (next: u64)
    ensures
        next == next_true_price(true_price, true) || next == next_true_price(true_price, false),
{
    let fall = random_bool();
    true_price_step(true_price, fall)
}

/// Each tick moves the true value: one step down followed by one step up (or
/// the other way round) brings it back to where it was, at the ends of the
/// `u64` range too.
pub proof fn walk_steps_undo(true_price: u64)
    ensures
        next_true_price(next_true_price(true_price, true), false) == true_price,
        next_true_price(next_true_price(true_price, false), true) == true_price,
        next_true_price(true_price, true) != true_price,
        next_true_price(true_price, false) != true_price,
{
}

} // verus!
