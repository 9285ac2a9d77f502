//! Exact fractions, for accuracies and weights.

use vstd::prelude::*;

verus! {

/// `num` over `den`, which is not zero.
#[derive(Debug, Clone, Copy, PartialEq, Eq, Structural)]
pub struct Ratio {
    pub num: u128,
    pub den: u128,
}

/// `num` out of `den`, and zero where there is nothing to count.
pub open spec fn share(num: int, den: int) -> Ratio {
    if den == 0 {
        Ratio { num: 0, den: 1 }
    } else {
        Ratio { num: num as u128, den: den as u128 }
    }
}

/// `num` out of `den`, and zero where there is nothing to count.
pub fn share_of(num: u128, den: u128) -> (r: Ratio)
    ensures
        r == share(num as int, den as int),
        r.den > 0,
{
    if den == 0 {
        Ratio { num: 0, den: 1 }
    } else {
        Ratio { num, den }
    }
}

/// A share times all there is to count is what was counted, and no share is more than one.
pub proof fn share_counts_out_of_all(num: int, den: int)
    requires
        0 <= num <= den <= u128::MAX,
    ensures
        share(num, den).den > 0,
        share(num, den).num * den == num * share(num, den).den,
        share(num, den).num <= share(num, den).den,
{
    let r = share(num, den);
    if den == 0 {
        assert(r.num * den == 0 && num * r.den == 0) by (nonlinear_arith)
            requires
                den == 0,
                num == 0,
        ;
    }
}

} // verus!
