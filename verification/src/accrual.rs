//! Arithmetic that stops at the ends of `u128`, and how much a stream owes
//! for a span of time.

use vstd::prelude::*;

verus! {

/// `a + b`, capped at `u128::MAX`.
pub open spec fn capped_add(a: u128, b: u128) -> u128 {
    if a + b > u128::MAX {
        u128::MAX
    } else {
        (a + b) as u128
    }
}

/// `a * b`, capped at `u128::MAX`.
pub open spec fn capped_mul(a: u128, b: u128) -> u128 {
    if a * b > u128::MAX {
        u128::MAX
    } else {
        (a * b) as u128
    }
}

/// The number of whole seconds from `since` to `now`, zero when `now` is
/// not later than `since`.
pub open spec fn elapsed(since: u64, now: u64) -> u64 {
    if now >= since {
        (now - since) as u64
    } else {
        0
    }
}

/// What a stream of `flow` units per second owes at `now` when it was last
/// settled at `since`: elapsed seconds times the flow, capped at
/// `u128::MAX`.
pub open spec fn accrued(flow: u128, since: u64, now: u64) -> u128 {
    capped_mul(elapsed(since, now) as u128, flow)
}

/// Computes [`capped_mul`].
pub fn times_capped(a: u128, b: u128) -> (product: u128)
    ensures
        product == capped_mul(a, b),
{
    match a.checked_mul(b) {
        Some(product) => product,
        None => u128::MAX,
    }
}

/// Computes [`accrued`].
pub fn accrue(flow: u128, since: u64, now: u64) -> (amount: u128)
    ensures
        amount == accrued(flow, since, now),
{
    let seconds: u64 = now.saturating_sub(since);
    times_capped(seconds as u128, flow)
}

/// Nothing accrues while no time passes.
pub proof fn lemma_nothing_accrues_in_no_time(flow: u128, since: u64, now: u64)
    requires
        now <= since,
    ensures
        accrued(flow, since, now) == 0,
{
    assert(0 * flow == 0) by (nonlinear_arith);
}

} // verus!
