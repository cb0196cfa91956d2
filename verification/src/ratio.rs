//! Exact rates.

use vstd::prelude::*;

verus! {

/// A rate, as a part of a whole.
#[derive(Clone, Copy, Debug, PartialEq, Eq, Structural)]
pub struct Ratio {
    /// The part.
    pub part: i128,
    /// The whole, which is not zero.
    pub whole: u128,
}

impl Ratio {
    /// There is a whole to be part of.
    pub open spec fn well_formed(self) -> bool {
        self.whole > 0
    }

    /// The rate that a whole number is.
    pub fn whole_number(n: u64) -> (r: Ratio)
        ensures
            r == (Ratio { part: n as i128, whole: 1 }),
            r.well_formed(),
    {
        Ratio { part: n as i128, whole: 1 }
    }

    /// One rate is lower than another.
    pub open spec fn below(self, other: Ratio) -> bool {
        self.part * other.whole < other.part * self.whole
    }

    /// Whether the rate is lower than another.
    pub fn is_below(&self, other: &Ratio) -> (r: bool)
        requires
            0 <= self.part <= u64::MAX,
            self.whole <= u64::MAX,
            i64::MIN < other.part <= i64::MAX,
            other.whole <= i64::MAX,
        ensures
            r == self.below(*other),
    {
        proof {
            let a = self.part as int;
            let b = other.whole as int;
            let c = other.part as int;
            let d = self.whole as int;
            assert(0 <= a * b <= 0x7fff_ffff_ffff_ffff * 0xffff_ffff_ffff_ffff) by (nonlinear_arith)
                requires
                    0 <= a <= 0xffff_ffff_ffff_ffff,
                    0 <= b <= 0x7fff_ffff_ffff_ffff,
            ;
            assert(-0x7fff_ffff_ffff_ffff * 0xffff_ffff_ffff_ffff <= c * d <= 0x7fff_ffff_ffff_ffff
                * 0xffff_ffff_ffff_ffff) by (nonlinear_arith)
                requires
                    -0x7fff_ffff_ffff_ffff <= c <= 0x7fff_ffff_ffff_ffff,
                    0 <= d <= 0xffff_ffff_ffff_ffff,
            ;
        }
        self.part * (other.whole as i128) < other.part * (self.whole as i128)
    }
}

/// Lower is a strict order of rates: no rate is lower than itself, and a rate that is lower than
/// another is not higher than it.
pub proof fn law_below_is_strict(a: Ratio, b: Ratio)
    ensures
        !a.below(a),
        a.below(b) ==> !b.below(a),
{
}

/// A rate is lower than another of the same whole exactly if its part is smaller, and lower than a
/// whole number exactly if its part is smaller than that many wholes.
pub proof fn law_below_by_parts(a: Ratio, b: Ratio, n: u64)
    requires
        a.whole > 0,
        a.whole == b.whole,
    ensures
        a.below(b) <==> a.part < b.part,
        a.below(Ratio { part: n as i128, whole: 1 }) <==> a.part < n * a.whole,
{
    let w = a.whole as int;
    let p = a.part as int;
    let q = b.part as int;
    assert(p * w < q * w <==> p < q) by (nonlinear_arith)
        requires
            w > 0,
    ;
    assert(p * 1 == p);
}

} // verus!
