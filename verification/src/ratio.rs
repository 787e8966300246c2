//! Exact ratios, for percentages and overlaps.

use vstd::prelude::*;

verus! {

/// The exact value `num / den` (`den > 0`).
#[derive(Clone, Copy, Debug, PartialEq, Eq, Structural)]
pub struct Ratio {
    /// Numerator.
    pub num: u128,
    /// Denominator, positive.
    pub den: u128,
}

impl Ratio {
    /// The ratio has a positive denominator.
    pub open spec fn wf(self) -> bool {
        self.den > 0
    }

    /// The ratio `num / den`.
    pub fn new(num: u128, den: u128) -> (r: Ratio)
        requires
            den > 0,
        ensures
            r == (Ratio { num, den }),
    {
        Ratio { num, den }
    }
}

/// Basis points: hundredths of a percent (10_000 basis points make one whole).
pub const BASIS_POINTS_PER_UNIT: u128 = 10_000;

} // verus!
