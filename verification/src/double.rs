//! Double-precision numbers as bit patterns.
//!
//! Prices and amounts enter and leave the library as IEEE 754 double-precision
//! numbers. Inside it each is its bit pattern, on which numbers can be compared
//! exactly. Arithmetic on them is left to the caller.

use vstd::arithmetic::power2::lemma_pow2_pos;
use vstd::arithmetic::power2::lemma_pow2_strictly_increases;
use vstd::arithmetic::power2::lemma_pow2_unfold;
use vstd::arithmetic::power2::pow2;
use vstd::prelude::*;

verus! {

/// The bit pattern with only the sign bit set.
pub const SIGN_BIT: u64 = 0x8000_0000_0000_0000;

/// The bit pattern of positive infinity. Greater magnitudes are not numbers.
pub const INFINITY_BITS: u64 = 0x7ff0_0000_0000_0000;

/// A double-precision number, by its bit pattern. Equality is equality of patterns.
#[derive(Clone, Copy, Debug, PartialEq, Eq, Structural)]
pub struct Double {
    pub bits: u64,
}

impl Double {
    /// The sign bit is set.
    pub open spec fn is_negative(self) -> bool {
        self.bits >= SIGN_BIT
    }

    /// The pattern without its sign bit.
    pub open spec fn magnitude(self) -> int {
        if self.is_negative() {
            self.bits - SIGN_BIT
        } else {
            self.bits as int
        }
    }

    /// The pattern stands for no number.
    pub open spec fn is_nan(self) -> bool {
        self.magnitude() > INFINITY_BITS
    }

    /// An integer by which the patterns that stand for numbers are ordered as the numbers are.
    /// The two zeros share one.
    pub open spec fn rank(self) -> int {
        if self.is_negative() {
            -self.magnitude()
        } else {
            self.magnitude()
        }
    }

    /// Numerically smaller. Nothing is smaller or greater than what is not a number.
    pub open spec fn less(self, other: Double) -> bool {
        !self.is_nan() && !other.is_nan() && self.rank() < other.rank()
    }

    /// The greater of two numbers, and `self` where they are equal.
    /// What is not a number gives way to the other.
    pub open spec fn greater_of(self, other: Double) -> Double {
        if self.is_nan() && !other.is_nan() || self.less(other) {
            other
        } else {
            self
        }
    }

    /// The smaller of two numbers, and `self` where they are equal.
    /// What is not a number gives way to the other.
    pub open spec fn smaller_of(self, other: Double) -> Double {
        if self.is_nan() && !other.is_nan() || other.less(self) {
            other
        } else {
            self
        }
    }

    /// The magnitude of the number that a finite pattern stands for,
    /// in units of the smallest positive double.
    pub open spec fn units(self) -> int {
        let exponent = self.magnitude() / 0x10_0000_0000_0000;
        let fraction = self.magnitude() % 0x10_0000_0000_0000;
        if exponent == 0 {
            fraction
        } else {
            (0x10_0000_0000_0000 + fraction) * pow2((exponent - 1) as nat)
        }
    }

    /// The number that a finite pattern stands for, in units of the smallest positive double.
    pub open spec fn value(self) -> int {
        if self.is_negative() {
            -self.units()
        } else {
            self.units()
        }
    }

    /// The pattern without its sign bit.
    fn unsigned(self) -> (magnitude: u64)
        ensures
            magnitude == self.magnitude(),
    {
        if self.bits >= SIGN_BIT {
            self.bits - SIGN_BIT
        } else {
            self.bits
        }
    }

    /// Tells whether the pattern stands for no number.
    pub fn not_a_number(self) -> (result: bool)
        ensures
            result == self.is_nan(),
    {
        self.unsigned() > INFINITY_BITS
    }

    /// Tells whether `self` is numerically smaller than `other`.
    pub fn less_than(self, other: Double) -> (result: bool)
        ensures
            result == self.less(other),
    {
        if self.not_a_number() || other.not_a_number() {
            return false;
        }
        let a: u64 = self.unsigned();
        let b: u64 = other.unsigned();
        if self.bits >= SIGN_BIT {
            if other.bits >= SIGN_BIT {
                b < a
            } else {
                a != 0 || b != 0
            }
        } else {
            other.bits < SIGN_BIT && a < b
        }
    }

    /// The greater of two numbers.
    pub fn max(self, other: Double) -> (result: Double)
        ensures
            result == self.greater_of(other),
    {
        if self.not_a_number() && !other.not_a_number() || self.less_than(other) {
            other
        } else {
            self
        }
    }

    /// The smaller of two numbers.
    pub fn min(self, other: Double) -> (result: Double)
        ensures
            result == self.smaller_of(other),
    {
        if self.not_a_number() && !other.not_a_number() || other.less_than(self) {
            other
        } else {
            self
        }
    }
}

/// A greater magnitude stands for a greater number of units.
proof fn lemma_units_increase(a: Double, b: Double)
    requires
        a.magnitude() < b.magnitude(),
    ensures
        a.units() < b.units(),
{
    let e1 = a.magnitude() / 0x10_0000_0000_0000;
    let f1 = a.magnitude() % 0x10_0000_0000_0000;
    let e2 = b.magnitude() / 0x10_0000_0000_0000;
    let f2 = b.magnitude() % 0x10_0000_0000_0000;
    if e1 == e2 {
        if e1 != 0 {
            let p = pow2((e1 - 1) as nat);
            lemma_pow2_pos((e1 - 1) as nat);
            assert((0x10_0000_0000_0000 + f1) * p < (0x10_0000_0000_0000 + f2) * p)
                by (nonlinear_arith)
                requires
                    f1 < f2,
                    p > 0,
            ;
        }
    } else {
        let top = pow2(e1 as nat);
        let p = pow2((e2 - 1) as nat);
        lemma_pow2_pos(e1 as nat);
        assert(a.units() < 0x10_0000_0000_0000 * top) by {
            if e1 == 0 {
                assert(0x10_0000_0000_0000 * top >= 0x10_0000_0000_0000) by (nonlinear_arith)
                    requires
                        top > 0,
                ;
            } else {
                let q = pow2((e1 - 1) as nat);
                lemma_pow2_pos((e1 - 1) as nat);
                lemma_pow2_unfold(e1 as nat);
                assert((0x10_0000_0000_0000 + f1) * q < 0x10_0000_0000_0000 * (2 * q))
                    by (nonlinear_arith)
                    requires
                        f1 < 0x10_0000_0000_0000,
                        q > 0,
                ;
            }
        }
        assert(top <= p) by {
            if e1 < e2 - 1 {
                lemma_pow2_strictly_increases(e1 as nat, (e2 - 1) as nat);
            }
        }
        assert(0x10_0000_0000_0000 * top <= (0x10_0000_0000_0000 + f2) * p) by (nonlinear_arith)
            requires
                0 < top <= p,
                0 <= f2,
        ;
    }
}

/// The order of the patterns is the order of the numbers that they stand for.
pub proof fn order_is_numerical(a: Double, b: Double)
    requires
        a.magnitude() < INFINITY_BITS,
        b.magnitude() < INFINITY_BITS,
    ensures
        a.less(b) <==> a.value() < b.value(),
{
    let zero = Double { bits: 0 };
    if a.magnitude() < b.magnitude() {
        lemma_units_increase(a, b);
    }
    if b.magnitude() < a.magnitude() {
        lemma_units_increase(b, a);
    }
    if a.magnitude() > 0 {
        lemma_units_increase(zero, a);
    }
    if b.magnitude() > 0 {
        lemma_units_increase(zero, b);
    }
}

/// How patterns compare. Above infinity, of either sign, they are no numbers and compare with
/// nothing. Patterns of positive sign grow with the number, those of negative sign as it falls,
/// and the negative ones come first, but for the two zeros, which are equal.
pub proof fn comparison_of_patterns(a: Double, b: Double)
    ensures
        a.is_nan() <==> {
            ||| 0x7ff0_0000_0000_0000 < a.bits < 0x8000_0000_0000_0000
            ||| 0xfff0_0000_0000_0000 < a.bits
        },
        a.is_nan() || b.is_nan() ==> !a.less(b),
        !a.is_nan() && !b.is_nan() ==> {
            &&& a.bits < 0x8000_0000_0000_0000 && b.bits < 0x8000_0000_0000_0000 ==> (a.less(b)
                <==> a.bits < b.bits)
            &&& a.bits >= 0x8000_0000_0000_0000 && b.bits >= 0x8000_0000_0000_0000 ==> (a.less(b)
                <==> b.bits < a.bits)
            &&& a.bits < 0x8000_0000_0000_0000 && b.bits >= 0x8000_0000_0000_0000 ==> !a.less(b)
            &&& a.bits >= 0x8000_0000_0000_0000 && b.bits < 0x8000_0000_0000_0000 ==> (a.less(b)
                <==> !(a.bits == 0x8000_0000_0000_0000 && b.bits == 0))
        },
{
}

/// The greater and the smaller of two are among the two. Neither of the two is above the greater
/// or below the smaller, a number is chosen as soon as there is one, and where neither is above
/// the other the first is.
pub proof fn choice_between_two(a: Double, b: Double)
    ensures
        a.greater_of(b) == a || a.greater_of(b) == b,
        !a.greater_of(b).less(a) && !a.greater_of(b).less(b),
        a.smaller_of(b) == a || a.smaller_of(b) == b,
        !a.less(a.smaller_of(b)) && !b.less(a.smaller_of(b)),
        !a.is_nan() || !b.is_nan() ==> !a.greater_of(b).is_nan() && !a.smaller_of(b).is_nan(),
        !a.is_nan() && !a.less(b) ==> a.greater_of(b) == a,
        !a.is_nan() && !b.less(a) ==> a.smaller_of(b) == a,
        a.is_nan() && b.is_nan() ==> a.greater_of(b) == a && a.smaller_of(b) == a,
{
}

} // verus!
