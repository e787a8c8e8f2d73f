//! The cost semiring that scores derivations.
//!
//! A weight is a cost in `u64`: the multiplicative identity ("one", the
//! weight of an empty derivation) is `0`, combining two weights is saturating
//! addition of their costs, and a *greater* weight is a *smaller* cost. This
//! is the log-domain image of probabilities in (0, 1]: every weight of the
//! semiring lies in that interval, so combining weights never increases them,
//! which is what the best-first search engine relies on.

use vstd::prelude::*;

verus! {

/// The multiplicative identity of the cost semiring.
pub const COST_ONE: u64 = 0;

/// Combining two weights: saturating addition of costs.
pub open spec fn cost_mul_spec(a: u64, b: u64) -> u64 {
    if a + b > u64::MAX {
        u64::MAX
    } else {
        (a + b) as u64
    }
}

/// Combined costs never fall below either operand: multiplying weights in
/// (0, 1] never increases a weight.
pub proof fn lemma_cost_mul_monotone(a: u64, b: u64)
    ensures
        cost_mul_spec(a, b) >= a,
        cost_mul_spec(a, b) >= b,
{
}

/// Multiplies two weights of the cost semiring.
pub fn cost_mul(a: u64, b: u64) -> (r: u64)
    ensures
        r == cost_mul_spec(a, b),
{
    if a > u64::MAX - b {
        u64::MAX
    } else {
        a + b
    }
}

} // verus!
