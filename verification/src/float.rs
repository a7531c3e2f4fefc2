//! Binary floating-point values, held as their bits and compared without arithmetic; and how whole
//! numbers are rounded to such values.
use vstd::prelude::*;

verus! {

/// An IEEE 754 double-precision value, held as its bit pattern. The library stores, orders and
/// selects such values; computing with them is left to its callers.
#[derive(Clone, Copy, PartialEq, Eq, Structural, Debug)]
pub struct Real {
    pub bits: u64,
}

/// The bit that holds the sign.
pub const SIGN: u64 = 0x8000_0000_0000_0000;

/// The bits of positive infinity; a larger magnitude is not a number.
pub const INFINITE: u64 = 0x7ff0_0000_0000_0000;

/// The bits of 1.
pub const UNIT: u64 = 0x3ff0_0000_0000_0000;

/// The bits of the double closest to one tenth.
pub const TENTH: u64 = 0x3fb9_9999_9999_999a;

impl Real {
    pub open spec fn magnitude(self) -> int {
        if self.bits >= SIGN {
            self.bits - SIGN
        } else {
            self.bits as int
        }
    }

    pub open spec fn is_nan(self) -> bool {
        self.magnitude() > INFINITE
    }

    /// A number that orders the values that are numbers as their values do.
    pub open spec fn order(self) -> int {
        if self.bits >= SIGN {
            -self.magnitude()
        } else {
            self.magnitude()
        }
    }

    /// `self <= other` on floating-point values: false where one of them is not a number.
    pub open spec fn le(self, other: Real) -> bool {
        !self.is_nan() && !other.is_nan() && self.order() <= other.order()
    }

    /// `self < other` on floating-point values: false where one of them is not a number.
    pub open spec fn lt(self, other: Real) -> bool {
        !self.is_nan() && !other.is_nan() && self.order() < other.order()
    }

    /// The order of `self` among all values, with what is not a number behind every number.
    pub open spec fn rank(self) -> int {
        if self.is_nan() {
            SIGN as int
        } else {
            self.order()
        }
    }

    /// The larger of two values; what is not a number gives way to a number.
    pub open spec fn larger(self, other: Real) -> Real {
        if self.is_nan() || self.lt(other) {
            other
        } else {
            self
        }
    }

    /// The smaller of two values; what is not a number gives way to a number.
    pub open spec fn smaller(self, other: Real) -> Real {
        if self.is_nan() || other.lt(self) {
            other
        } else {
            self
        }
    }

    /// `self` held between 0 and 1; what is not a number stays so.
    pub open spec fn in_unit(self) -> Real {
        if self.lt(Real { bits: 0 }) {
            Real { bits: 0 }
        } else if (Real { bits: UNIT }).lt(self) {
            Real { bits: UNIT }
        } else {
            self
        }
    }

    pub fn from_bits(bits: u64) -> (r: Real)
        ensures
            r.bits == bits,
    {
        Real { bits }
    }

    pub fn zero() -> (r: Real)
        ensures
            r == (Real { bits: 0 }),
    {
        Real { bits: 0 }
    }

    pub fn one() -> (r: Real)
        ensures
            r == (Real { bits: UNIT }),
    {
        Real { bits: UNIT }
    }

    pub fn infinity() -> (r: Real)
        ensures
            r == (Real { bits: INFINITE }),
    {
        Real { bits: INFINITE }
    }

    fn size(self) -> (r: u64)
        ensures
            r == self.magnitude(),
    {
        if self.bits >= SIGN {
            self.bits - SIGN
        } else {
            self.bits
        }
    }

    pub fn not_a_number(self) -> (r: bool)
        ensures
            r == self.is_nan(),
    {
        self.size() > INFINITE
    }

    /// Whether `self < other`.
    pub fn below(self, other: Real) -> (r: bool)
        ensures
            r == self.lt(other),
    {
        if self.not_a_number() || other.not_a_number() {
            return false;
        }
        if self.bits >= SIGN {
            if other.bits >= SIGN {
                self.size() > other.size()
            } else {
                self.size() > 0 || other.size() > 0
            }
        } else if other.bits >= SIGN {
            false
        } else {
            self.size() < other.size()
        }
    }

    /// Whether `self <= other`.
    pub fn at_most(self, other: Real) -> (r: bool)
        ensures
            r == self.le(other),
    {
        !self.not_a_number() && !other.not_a_number() && !other.below(self)
    }

    /// Whether `self` stands before `other` in the order of all values.
    pub fn ranks_below(self, other: Real) -> (r: bool)
        ensures
            r == (self.rank() < other.rank()),
    {
        if self.not_a_number() {
            false
        } else if other.not_a_number() {
            true
        } else {
            self.below(other)
        }
    }

    /// The larger of two values.
    pub fn max(self, other: Real) -> (r: Real)
        ensures
            r == self.larger(other),
    {
        if self.not_a_number() || self.below(other) {
            other
        } else {
            self
        }
    }

    /// The smaller of two values.
    pub fn min(self, other: Real) -> (r: Real)
        ensures
            r == self.smaller(other),
    {
        if self.not_a_number() || other.below(self) {
            other
        } else {
            self
        }
    }

    /// `self` held between 0 and 1.
    pub fn clamp_unit(self) -> (r: Real)
        ensures
            r == self.in_unit(),
    {
        if self.below(Real::zero()) {
            Real::zero()
        } else if Real::one().below(self) {
            Real::one()
        } else {
            self
        }
    }
}

/// Below this number every whole number is a double.
pub const DENSE: u128 = 0x20_0000_0000_0000;

/// The distance between neighbouring doubles around `n`, where that is no fraction: the smallest
/// power of two that leaves `n` no more than 53 binary places.
pub open spec fn spacing(n: nat) -> nat
    decreases n,
{
    if n < DENSE {
        1
    } else {
        2 * spacing(n / 2)
    }
}

/// The multiple of `step` that is closest to `n`, the even one of two equally close ones.
pub open spec fn to_multiple(n: nat, step: nat) -> nat {
    let q = n / step;
    let rest = n % step;
    if 2 * rest < step || (2 * rest == step && q % 2 == 0) {
        q * step
    } else {
        (q + 1) * step
    }
}

/// The double that is closest to a whole number.
pub open spec fn nearest(n: nat) -> nat {
    to_multiple(n, spacing(n))
}

/// How `spacing` grows: it is positive, `n` takes no more than 53 places of it, and where it is
/// more than 1, no fewer.
pub proof fn lemma_spacing(n: nat)
    ensures
        spacing(n) >= 1,
        n < DENSE * spacing(n),
        spacing(n) > 1 ==> 0x10_0000_0000_0000 * spacing(n) <= n,
    decreases n,
{
    if n >= DENSE {
        lemma_spacing(n / 2);
    }
}

/// A closest multiple is off by half a step at most.
pub proof fn lemma_to_multiple(n: nat, step: nat)
    requires
        step > 0,
    ensures
        2 * n <= 2 * to_multiple(n, step) + step,
        2 * to_multiple(n, step) <= 2 * n + step,
        (n / step) * step <= to_multiple(n, step),
        step == 1 ==> to_multiple(n, step) == n,
{
    let q = n / step;
    let rest = n % step;
    assert(n == q * step + rest && rest < step) by (nonlinear_arith)
        requires
            q == n / step,
            rest == n % step,
            step > 0,
    ;
    assert((q + 1) * step == q * step + step) by (nonlinear_arith);
    assert(step == 1 ==> q * step == q) by (nonlinear_arith);
}

/// The closest double is off by no more than the 53rd place.
pub proof fn lemma_nearest(n: nat)
    ensures
        DENSE * n <= DENSE * nearest(n) + n,
        DENSE * nearest(n) <= DENSE * n + n,
{
    lemma_spacing(n);
    lemma_to_multiple(n, spacing(n));
}

/// The distance between neighbouring doubles around `n`.
pub fn spacing_of(n: u128) -> (u: u128)
    requires
        n <= 0x8000_0000_0000_0000_0000_0000_0000_0000,
    ensures
        u == spacing(n as nat),
        u <= 0x800_0000_0000_0000_0000,
{
    let mut u: u128 = 1;
    let mut rest: u128 = n;
    assert(1 * spacing(rest as nat) == spacing(rest as nat));
    while rest >= DENSE
        invariant
            n <= 0x8000_0000_0000_0000_0000_0000_0000_0000,
            u >= 1,
            u * rest <= n,
            u * spacing(rest as nat) == spacing(n as nat),
        decreases rest,
    {
        let half: u128 = rest / 2;
        proof {
            assert(u * 0x20_0000_0000_0000 <= u * rest) by (nonlinear_arith)
                requires
                    rest >= 0x20_0000_0000_0000,
                    u >= 1,
            ;
            assert((2 * u) * half <= u * rest) by (nonlinear_arith)
                requires
                    2 * half <= rest,
                    u >= 1,
            ;
            assert((2 * u) * spacing(half as nat) == u * (2 * spacing(half as nat)))
                by (nonlinear_arith);
        }
        u = 2 * u;
        rest = half;
    }
    proof {
        lemma_spacing(n as nat);
        assert(u * 1 == u) by (nonlinear_arith);
    }
    u
}

/// The multiple of `step` that is closest to `n`.
pub fn round_to(n: u128, step: u128) -> (r: u128)
    requires
        0 < step <= 0x8000_0000_0000_0000_0000_0000_0000_0000,
        n + step <= u128::MAX,
    ensures
        r == to_multiple(n as nat, step as nat),
{
    let q: u128 = n / step;
    let rest: u128 = n % step;
    assert(n == q * step + rest && rest < step && (q + 1) * step == q * step + step && 0 <= q
        * step) by (nonlinear_arith)
        requires
            q == n / step,
            rest == n % step,
            step > 0,
    ;
    let lower: u128 = n - rest;
    if rest < step - rest || (rest == step - rest && q % 2 == 0) {
        lower
    } else {
        lower + step
    }
}

/// The double that is closest to a whole number.
pub fn round_double(n: u128) -> (r: u128)
    requires
        n <= 0x8000_0000_0000_0000_0000_0000_0000_0000,
    ensures
        r == nearest(n as nat),
{
    let u: u128 = spacing_of(n);
    proof {
        lemma_spacing(n as nat);
    }
    round_to(n, u)
}

impl Default for Real {
    fn default() -> (r: Real)
        ensures
            r == (Real { bits: 0 }),
    {
        Real { bits: 0 }
    }
}

/// The order of values. Of two numbers one is at most the other, and neither is below itself; the
/// sign decides first, then the magnitude, which grows as the bits do, and the two zeros are equal.
/// What is not a number is neither below nor above anything.
pub proof fn law_order(a: Real, b: Real, c: Real)
    ensures
        !a.is_nan() && !b.is_nan() ==> a.le(b) || b.le(a),
        a.lt(b) <==> a.le(b) && !b.le(a),
        a.le(b) && b.le(c) ==> a.le(c),
        a.is_nan() || b.is_nan() ==> !a.le(b) && !a.lt(b),
        a.bits < 0x8000_0000_0000_0000 && b.bits < 0x8000_0000_0000_0000 && !a.is_nan()
            && !b.is_nan() ==> (a.lt(b) <==> a.bits < b.bits),
        a.bits > 0x8000_0000_0000_0000 && b.bits > 0x8000_0000_0000_0000 && !a.is_nan()
            && !b.is_nan() ==> (a.lt(b) <==> a.bits > b.bits),
        a.bits > 0x8000_0000_0000_0000 && b.bits < 0x8000_0000_0000_0000 && !a.is_nan()
            && !b.is_nan() ==> a.lt(b),
        (Real { bits: 0 }).le(Real { bits: 0x8000_0000_0000_0000 }),
        (Real { bits: 0x8000_0000_0000_0000 }).le(Real { bits: 0 }),
        a.is_nan() <==> a.bits > 0xfff0_0000_0000_0000 || 0x7ff0_0000_0000_0000 < a.bits
            < 0x8000_0000_0000_0000,
{
}

/// The larger and the smaller of two values is one of them, and none below, or above, the other;
/// what is not a number gives way to a number. In an order of all values it stands at the end.
pub proof fn law_larger_and_smaller(a: Real, b: Real)
    ensures
        a.larger(b) == a || a.larger(b) == b,
        a.smaller(b) == a || a.smaller(b) == b,
        !a.is_nan() && !b.is_nan() ==> a.le(a.larger(b)) && b.le(a.larger(b)),
        !a.is_nan() && !b.is_nan() ==> a.smaller(b).le(a) && a.smaller(b).le(b),
        a.is_nan() ==> a.larger(b) == b && a.smaller(b) == b,
        b.is_nan() && !a.is_nan() ==> a.larger(b) == a && a.smaller(b) == a,
        !a.is_nan() && !b.is_nan() ==> (a.rank() < b.rank() <==> a.lt(b)),
        !a.is_nan() && b.is_nan() ==> a.rank() < b.rank(),
        a.is_nan() && b.is_nan() ==> a.rank() == b.rank(),
{
}

/// A value held between 0 and 1 stays where it lies between them, and else becomes the nearer one.
pub proof fn law_in_unit(a: Real)
    ensures
        ({
            let zero = Real { bits: 0 };
            let one = Real { bits: 0x3ff0_0000_0000_0000 };
            &&& zero.le(a) && a.le(one) ==> a.in_unit() == a
            &&& a.lt(zero) ==> a.in_unit() == zero
            &&& one.lt(a) ==> a.in_unit() == one
            &&& !a.is_nan() ==> zero.le(a.in_unit()) && a.in_unit().le(one)
        }),
{
}

} // verus!
