//! Lengths, rectangles, ratios and colours.
//!
//! A length is a whole number of thousandths of a point. Arithmetic on lengths saturates at the
//! ends of the 64-bit range.
use vstd::prelude::*;

verus! {

/// A length in thousandths of a point.
#[derive(Clone, Copy, Debug, PartialEq, Eq, Structural)]
pub struct Pt {
    pub milli: i64,
}

/// The number nearest to `n` in the 64-bit range.
pub open spec fn clamp64(n: int) -> i64 {
    if n > i64::MAX {
        i64::MAX
    } else if n < i64::MIN {
        i64::MIN
    } else {
        n as i64
    }
}

/// The length of `n` thousandths of a point.
pub open spec fn pt(n: int) -> Pt {
    Pt { milli: clamp64(n) }
}

/// The quotient rounded toward zero.
pub open spec fn truncated(a: int, b: int) -> int {
    if a >= 0 {
        a / b
    } else {
        -((-a) / b)
    }
}

/// The quotient rounded to the nearest whole number, halves away from zero.
pub open spec fn nearest(a: int, b: int) -> int {
    if a >= 0 {
        (2 * a + b) / (2 * b)
    } else {
        -((-2 * a + b) / (2 * b))
    }
}

fn saturate(n: i128) -> (r: i64)
    ensures
        r == clamp64(n as int),
{
    if n > i64::MAX as i128 {
        i64::MAX
    } else if n < i64::MIN as i128 {
        i64::MIN
    } else {
        n as i64
    }
}

impl Pt {
    /// No length.
    pub fn zero() -> (r: Pt)
        ensures
            r == pt(0),
    {
        Pt { milli: 0 }
    }

    pub open spec fn spec_plus(self, o: Pt) -> Pt {
        pt(self.milli + o.milli)
    }

    pub open spec fn spec_minus(self, o: Pt) -> Pt {
        pt(self.milli - o.milli)
    }

    /// A length from thousandths of a point.
    pub fn from_milli_i64(milli: i64) -> (r: Pt)
        ensures
            r.milli == milli,
    {
        Pt { milli }
    }

    /// The thousandths of a point.
    pub fn to_milli_i64(&self) -> (r: i64)
        ensures
            r == self.milli,
    {
        self.milli
    }

    /// The sum of two lengths.
    #[verifier::when_used_as_spec(spec_plus)]
    pub fn plus(self, o: Pt) -> (r: Pt)
        ensures
            r == self.spec_plus(o),
    {
        Pt { milli: saturate(self.milli as i128 + o.milli as i128) }
    }

    /// The difference of two lengths.
    #[verifier::when_used_as_spec(spec_minus)]
    pub fn minus(self, o: Pt) -> (r: Pt)
        ensures
            r == self.spec_minus(o),
    {
        Pt { milli: saturate(self.milli as i128 - o.milli as i128) }
    }

    /// The fraction `num` / `den` of a length, rounded toward zero.
    pub open spec fn part(self, num: int, den: int) -> Pt {
        pt(truncated(self.milli * num, den))
    }

    /// The fraction `num` / `den` of a length, rounded toward zero.
    pub fn mul_ratio(self, num: i32, den: i32) -> (r: Pt)
        requires
            den > 0,
        ensures
            r == self.part(num as int, den as int),
    {
        let m: i128 = self.milli as i128;
        let k: i128 = num as i128;
        proof {
            assert(-0x8000_0000_0000_0000 * 0x8000_0000 <= m * k <= 0x8000_0000_0000_0000
                * 0x8000_0000) by (nonlinear_arith)
                requires
                    -0x8000_0000_0000_0000 <= m <= 0x8000_0000_0000_0000,
                    -0x8000_0000 <= k <= 0x8000_0000,
            ;
        }
        let n: i128 = m * k;
        let d: i128 = den as i128;
        let q: i128 = if n >= 0 {
            n / d
        } else {
            -((-n) / d)
        };
        Pt { milli: saturate(q) }
    }

    /// The larger of two lengths.
    pub open spec fn spec_larger(self, o: Pt) -> Pt {
        if self.milli >= o.milli {
            self
        } else {
            o
        }
    }

    /// The larger of two lengths.
    #[verifier::when_used_as_spec(spec_larger)]
    pub fn larger(self, o: Pt) -> (r: Pt)
        ensures
            r == self.spec_larger(o),
    {
        if self.milli >= o.milli {
            self
        } else {
            o
        }
    }

    /// The smaller of two lengths.
    pub open spec fn spec_smaller(self, o: Pt) -> Pt {
        if self.milli <= o.milli {
            self
        } else {
            o
        }
    }

    /// The smaller of two lengths.
    #[verifier::when_used_as_spec(spec_smaller)]
    pub fn smaller(self, o: Pt) -> (r: Pt)
        ensures
            r == self.spec_smaller(o),
    {
        if self.milli <= o.milli {
            self
        } else {
            o
        }
    }

    /// The length in the proportion `by`, rounded to the nearest thousandth.
    pub open spec fn spec_scaled(self, by: Ratio) -> Pt {
        pt(nearest(self.milli * by.num, by.den as int))
    }

    /// The length in the proportion `by`, rounded to the nearest thousandth.
    #[verifier::when_used_as_spec(spec_scaled)]
    pub fn scaled(self, by: Ratio) -> (r: Pt)
        requires
            by.is_proper(),
        ensures
            r == self.spec_scaled(by),
    {
        let m: i128 = self.milli as i128;
        let k: i128 = by.num as i128;
        let d: i128 = by.den as i128;
        proof {
            assert(-0x8000_0000_0000_0000 * k <= m * k <= 0x7fff_ffff_ffff_ffff * k)
                by (nonlinear_arith)
                requires
                    -0x8000_0000_0000_0000 <= m <= 0x7fff_ffff_ffff_ffff,
                    0 <= k,
            ;
        }
        let n: i128 = m * k;
        proof {
            assert(-0x8000_0000_0000_0000 * 0x7fff_ffff_ffff_ffff <= n);
        }
        let q: i128 = if n >= 0 {
            (2 * n + d) / (2 * d)
        } else {
            let a: i128 = -n;
            -((2 * a + d) / (2 * d))
        };
        Pt { milli: saturate(q) }
    }
}

/// A positive proportion.
#[derive(Clone, Copy, Debug, PartialEq, Eq, Structural)]
pub struct Ratio {
    pub num: i64,
    pub den: i64,
}

impl Ratio {
    /// Both terms are positive, or the ratio is nought over something positive.
    pub open spec fn is_proper(self) -> bool {
        0 <= self.num && 0 < self.den
    }

    /// The proportion one to one.
    pub open spec fn spec_one() -> Ratio {
        Ratio { num: 1, den: 1 }
    }

    /// The proportion one to one.
    #[verifier::when_used_as_spec(spec_one)]
    pub fn one() -> (r: Ratio)
        ensures
            r == Ratio::spec_one(),
    {
        Ratio { num: 1, den: 1 }
    }

    /// Nought.
    pub open spec fn spec_zero() -> Ratio {
        Ratio { num: 0, den: 1 }
    }

    /// Nought.
    #[verifier::when_used_as_spec(spec_zero)]
    pub fn zero() -> (r: Ratio)
        ensures
            r == Ratio::spec_zero(),
    {
        Ratio { num: 0, den: 1 }
    }

    /// Whether this proportion is smaller than another.
    pub open spec fn is_below(self, o: Ratio) -> bool {
        self.num * o.den < o.num * self.den
    }

    /// Tells whether this proportion is smaller than another.
    pub fn below(&self, o: &Ratio) -> (r: bool)
        requires
            self.is_proper(),
            o.is_proper(),
        ensures
            r == self.is_below(*o),
    {
        proof {
            product_fits(self.num, o.den);
            product_fits(o.num, self.den);
        }
        (self.num as i128) * (o.den as i128) < (o.num as i128) * (self.den as i128)
    }
}

proof fn product_fits(a: i64, b: i64)
    requires
        0 <= a,
        0 <= b,
    ensures
        0 <= a * b <= i128::MAX,
{
    assert(0 <= a * b <= 0x7fff_ffff_ffff_ffff * 0x7fff_ffff_ffff_ffff) by (nonlinear_arith)
        requires
            0 <= a <= 0x7fff_ffff_ffff_ffff,
            0 <= b <= 0x7fff_ffff_ffff_ffff,
    ;
}

/// A single-precision number, carried as its bit pattern.
#[derive(Clone, Copy, Debug, PartialEq, Eq, Structural)]
pub struct Real {
    pub bits: u32,
}

/// A colour by its red, green and blue parts.
#[derive(Clone, Copy, Debug, PartialEq, Eq, Structural)]
pub struct Color {
    pub r: Real,
    pub g: Real,
    pub b: Real,
}

/// A width and a height.
#[derive(Clone, Copy, Debug, PartialEq, Eq, Structural)]
pub struct Size {
    pub width: Pt,
    pub height: Pt,
}

impl Size {
    /// A sheet of A4 paper.
    pub fn a4() -> (r: Size)
        ensures
            r == (Size { width: pt(595_280), height: pt(841_890) }),
    {
        Size { width: Pt { milli: 595_280 }, height: Pt { milli: 841_890 } }
    }
}

/// A rectangle by its upper left corner.
#[derive(Clone, Copy, Debug, PartialEq, Eq, Structural)]
pub struct Rect {
    pub x: Pt,
    pub y: Pt,
    pub width: Pt,
    pub height: Pt,
}

/// Distances from the four edges.
#[derive(Clone, Copy, Debug, PartialEq, Eq, Structural)]
pub struct Margins {
    pub top: Pt,
    pub right: Pt,
    pub bottom: Pt,
    pub left: Pt,
}

impl Margins {
    /// The same margin on all sides.
    pub fn all(value: Pt) -> (r: Margins)
        ensures
            r == (Margins { top: value, right: value, bottom: value, left: value }),
    {
        Margins { top: value, right: value, bottom: value, left: value }
    }
}

} // verus!
