//! Design-smell detection strategies built on the metrics.
//!
//! Ratio thresholds (cohesion, weight of class, override ratio) are held as
//! exact fractions and compared by cross-multiplication, so a ratio `a / b` is
//! below a threshold `num / den` exactly when `a · den < num · b`.
use vstd::prelude::*;

pub mod brain_method;
pub mod data_class;
pub mod feature_envy;
pub mod god_class;
pub mod refused_bequest;

verus! {

/// A non-negative fraction `num / den`; `den` is positive.
#[derive(Debug, Clone, Copy, PartialEq, Eq)]
pub struct Fraction {
    pub num: usize,
    pub den: usize,
}

/// `a · f.den < f.num · b`: the ratio `a / b` is below `f` (for positive `b`).
pub fn cross_below(a: usize, b: usize, f: Fraction) -> (r: bool)
    ensures
        r == (a * f.den < f.num * b),
{
    proof {
        assert(a * f.den <= u128::MAX) by (nonlinear_arith)
            requires
                a <= usize::MAX,
                f.den <= usize::MAX,
                usize::MAX <= u64::MAX,
        ;
        assert(f.num * b <= u128::MAX) by (nonlinear_arith)
            requires
                b <= usize::MAX,
                f.num <= usize::MAX,
                usize::MAX <= u64::MAX,
        ;
    }
    let lhs: u128 = (a as u128) * (f.den as u128);
    let rhs: u128 = (f.num as u128) * (b as u128);
    lhs < rhs
}

} // verus!
