//! Floating-point quantities, reduced to what a comparison sees of them.
//!
//! Times, zoom levels and coordinates are computed in double precision outside the
//! library. What the library decides about them depends on their order alone, and
//! the order of doubles is the order of an integer that their bit pattern spells.
use vstd::arithmetic::div_mod::*;
use vstd::arithmetic::mul::*;
use vstd::arithmetic::power2::*;
use vstd::prelude::*;

verus! {

/// The weight of the sign bit of a double.
pub const SIGN: u64 = 0x8000_0000_0000_0000;

/// The bits of positive infinity; a larger magnitude is not a number.
pub const INFINITY: u64 = 0x7ff0_0000_0000_0000;

/// The weight of the lowest exponent bit, one more than the largest fraction.
pub const FRACTION: u64 = 0x0010_0000_0000_0000;

/// The bits of the double 0.
pub const ZERO: u64 = 0;

/// The bits of the double that stands for what is not a number.
pub const NAN: u64 = 0x7ff8_0000_0000_0000;

/// A double as an ordered quantity.
#[derive(Clone, Copy, Debug, PartialEq, Eq, Structural)]
pub enum Scalar {
    /// A number, by its place in the order of all doubles. Both zeros stand at 0.
    Number(i64),
    /// Not a number: every comparison with it fails.
    NotANumber,
}

/// The bits of a double without its sign.
pub open spec fn magnitude(bits: u64) -> int {
    bits as int % SIGN as int
}

/// The double with the given bits, as an ordered quantity.
pub open spec fn scalar_of_bits(bits: u64) -> Scalar {
    if magnitude(bits) > INFINITY {
        Scalar::NotANumber
    } else if bits < SIGN {
        Scalar::Number(magnitude(bits) as i64)
    } else {
        Scalar::Number((-magnitude(bits)) as i64)
    }
}

/// The size of a finite double, counted in units of the smallest positive one.
pub open spec fn size_in_ulps(magnitude: int) -> nat {
    let exponent = magnitude / FRACTION as int;
    let fraction = magnitude % FRACTION as int;
    if exponent <= 0 {
        fraction as nat
    } else {
        ((fraction + FRACTION) as nat) * pow2((exponent - 1) as nat)
    }
}

/// The value of a finite double, counted in units of the smallest positive one.
pub open spec fn value_in_ulps(bits: u64) -> int {
    if bits < SIGN {
        size_in_ulps(magnitude(bits)) as int
    } else {
        -(size_in_ulps(magnitude(bits)) as int)
    }
}

impl Scalar {
    /// Whether `self` is a number not above `other`.
    pub open spec fn spec_le(self, other: Scalar) -> bool {
        match (self, other) {
            (Scalar::Number(a), Scalar::Number(b)) => a <= b,
            _ => false,
        }
    }

    /// Whether `self` is a number below `other`.
    pub open spec fn spec_lt(self, other: Scalar) -> bool {
        match (self, other) {
            (Scalar::Number(a), Scalar::Number(b)) => a < b,
            _ => false,
        }
    }

    /// Whether there is a double in this place of the order.
    pub open spec fn is_double(self) -> bool {
        self matches Scalar::Number(place) ==> -INFINITY <= place <= INFINITY
    }

    /// The bits of the double: without a sign for zero, and the same ones for everything
    /// that is not a number.
    pub open spec fn bits(self) -> int {
        match self {
            Scalar::Number(place) => if place >= 0 {
                place as int
            } else {
                SIGN - place
            },
            Scalar::NotANumber => NAN as int,
        }
    }

    /// Whether this is a finite double.
    pub open spec fn is_finite(self) -> bool {
        self matches Scalar::Number(place) && -INFINITY < place < INFINITY
    }

    /// The value of a finite double, counted in units of the smallest positive one.
    pub open spec fn value(self) -> int {
        value_in_ulps(self.bits() as u64)
    }

    /// The larger of two numbers; a number takes the place of what is none.
    pub open spec fn spec_max(self, other: Scalar) -> Scalar {
        if self is NotANumber || self.spec_lt(other) {
            other
        } else {
            self
        }
    }

    /// The smaller of two numbers; a number takes the place of what is none.
    pub open spec fn spec_min(self, other: Scalar) -> Scalar {
        if self is NotANumber || other.spec_lt(self) {
            other
        } else {
            self
        }
    }

    /// The double with these bits.
    pub fn from_bits(bits: u64) -> (scalar: Scalar)
        ensures
            scalar == scalar_of_bits(bits),
            scalar.is_double(),
    {
        let magnitude: u64 = if bits >= SIGN { bits - SIGN } else { bits };
        if magnitude > INFINITY {
            Scalar::NotANumber
        } else if bits < SIGN {
            Scalar::Number(magnitude as i64)
        } else {
            Scalar::Number(-(magnitude as i64))
        }
    }

    /// The bits of the double.
    pub fn to_bits(self) -> (bits: u64)
        requires
            self.is_double(),
        ensures
            bits == self.bits(),
    {
        match self {
            Scalar::Number(place) => if place >= 0 {
                place as u64
            } else {
                SIGN + (-place) as u64
            },
            Scalar::NotANumber => NAN,
        }
    }

    /// Whether `self` is a number not above `other`.
    pub fn le(self, other: Scalar) -> (holds: bool)
        ensures
            holds == self.spec_le(other),
    {
        match (self, other) {
            (Scalar::Number(a), Scalar::Number(b)) => a <= b,
            _ => false,
        }
    }

    /// Whether `self` is a number below `other`.
    pub fn lt(self, other: Scalar) -> (holds: bool)
        ensures
            holds == self.spec_lt(other),
    {
        match (self, other) {
            (Scalar::Number(a), Scalar::Number(b)) => a < b,
            _ => false,
        }
    }

    /// The larger of two numbers; a number takes the place of what is none.
    pub fn max(self, other: Scalar) -> (larger: Scalar)
        ensures
            larger == self.spec_max(other),
    {
        match self {
            Scalar::NotANumber => other,
            _ => if self.lt(other) {
                other
            } else {
                self
            },
        }
    }

    /// The smaller of two numbers; a number takes the place of what is none.
    pub fn min(self, other: Scalar) -> (smaller: Scalar)
        ensures
            smaller == self.spec_min(other),
    {
        match self {
            Scalar::NotANumber => other,
            _ => if other.lt(self) {
                other
            } else {
                self
            },
        }
    }
}

/// A larger magnitude is a larger size.
proof fn lemma_size_increases(a: int, b: int)
    requires
        0 <= a < b < INFINITY,
    ensures
        size_in_ulps(a) < size_in_ulps(b),
{
    let f = FRACTION as int;
    let (ea, fa) = (a / f, a % f);
    let (eb, fb) = (b / f, b % f);
    lemma_fundamental_div_mod(a, f);
    lemma_fundamental_div_mod(b, f);
    lemma_div_is_ordered(a, b, f);
    if ea == eb {
        if ea > 0 {
            lemma_pow2_pos((ea - 1) as nat);
            lemma_mul_strict_inequality(fa + f, fb + f, pow2((ea - 1) as nat) as int);
        }
    } else {
        let pb = pow2((eb - 1) as nat) as int;
        lemma_pow2_pos((eb - 1) as nat);
        assert(size_in_ulps(a) < f * pb) by {
            if ea <= 0 {
                lemma_mul_inequality(1, pb, f);
            } else {
                let pa = pow2((ea - 1) as nat) as int;
                lemma_pow2_pos((ea - 1) as nat);
                lemma_mul_strict_inequality(fa + f, 2 * f, pa);
                lemma_pow2_unfold(ea as nat);
                if ea < eb - 1 {
                    lemma_pow2_strictly_increases(ea as nat, (eb - 1) as nat);
                }
                lemma_mul_inequality(2 * pa, pb, f);
                assert((2 * f) * pa == (2 * pa) * f) by (nonlinear_arith);
            }
            lemma_mul_is_commutative(pb, f);
        }
        lemma_mul_inequality(f, fb + f, pb);
    }
}

/// The order of scalars is the order of the numbers that finite doubles stand for.
pub proof fn law_order_is_numeric(a: u64, b: u64)
    requires
        magnitude(a) < INFINITY,
        magnitude(b) < INFINITY,
    ensures
        scalar_of_bits(a).spec_le(scalar_of_bits(b)) <==> value_in_ulps(a) <= value_in_ulps(b),
        scalar_of_bits(a).spec_lt(scalar_of_bits(b)) <==> value_in_ulps(a) < value_in_ulps(b),
{
    let (ma, mb) = (magnitude(a), magnitude(b));
    if ma < mb {
        lemma_size_increases(ma, mb);
    }
    if mb < ma {
        lemma_size_increases(mb, ma);
    }
    if 0 < ma {
        lemma_size_increases(0, ma);
    }
    if 0 < mb {
        lemma_size_increases(0, mb);
    }
}

/// A quantity that is not a number is neither above, below nor equal to anything.
pub proof fn law_not_a_number_is_unordered(bits: u64, other: Scalar)
    requires
        magnitude(bits) > INFINITY,
    ensures
        !scalar_of_bits(bits).spec_le(other),
        !other.spec_le(scalar_of_bits(bits)),
        !scalar_of_bits(bits).spec_lt(other),
        !other.spec_lt(scalar_of_bits(bits)),
{
}

/// A double that is turned into a scalar and back is the same number.
pub proof fn law_bits_stand_for_the_scalar(scalar: Scalar)
    requires
        scalar.is_double(),
    ensures
        0 <= scalar.bits() <= u64::MAX,
        scalar_of_bits(scalar.bits() as u64) == scalar,
{
}

/// Finite doubles are ordered by their values.
pub proof fn law_order_is_by_value(a: Scalar, b: Scalar)
    requires
        a.is_finite(),
        b.is_finite(),
    ensures
        a.spec_le(b) <==> a.value() <= b.value(),
        a.spec_lt(b) <==> a.value() < b.value(),
{
    law_bits_stand_for_the_scalar(a);
    law_bits_stand_for_the_scalar(b);
    law_order_is_numeric(a.bits() as u64, b.bits() as u64);
}

/// The smallest doubles count up by one unit each.
pub proof fn law_small_doubles_count_up(bits: u64)
    requires
        bits < 0x0020_0000_0000_0000,
    ensures
        value_in_ulps(bits) == bits,
{
    lemma2_to64();
    let f = bits as int % FRACTION as int;
    assert((f + FRACTION) * pow2(0) == f + FRACTION) by (nonlinear_arith)
        requires
            pow2(0) == 1,
    ;
    if bits >= FRACTION {
        assert(bits as int / FRACTION as int == 1);
    }
}

/// A double with the next larger exponent is twice as large.
pub proof fn law_exponent_doubles(bits: u64)
    requires
        0x0010_0000_0000_0000 <= bits,
        bits + 0x0010_0000_0000_0000 < 0x7ff0_0000_0000_0000,
    ensures
        value_in_ulps((bits + 0x0010_0000_0000_0000) as u64) == 2 * value_in_ulps(bits),
{
    let e = bits as int / FRACTION as int;
    let f = bits as int % FRACTION as int;
    lemma_pow2_unfold(e as nat);
    let p = pow2((e - 1) as nat);
    assert((f + FRACTION) * (2 * p) == 2 * ((f + FRACTION) * p)) by (nonlinear_arith);
}

/// The sign bit negates a double.
pub proof fn law_sign_negates(bits: u64)
    requires
        bits < 0x8000_0000_0000_0000,
    ensures
        value_in_ulps((bits + 0x8000_0000_0000_0000) as u64) == -value_in_ulps(bits),
{
}

/// The infinities lie beyond every finite double.
pub proof fn law_infinities_are_the_ends(bits: u64)
    requires
        bits as int % 0x8000_0000_0000_0000 < 0x7ff0_0000_0000_0000,
    ensures
        scalar_of_bits(bits).spec_lt(scalar_of_bits(0x7ff0_0000_0000_0000)),
        scalar_of_bits(0xfff0_0000_0000_0000).spec_lt(scalar_of_bits(bits)),
{
}

/// Only what lies beyond the infinities is not a number.
pub proof fn law_numbers_reach_to_the_infinities(bits: u64)
    ensures
        scalar_of_bits(bits) is NotANumber <==> {
            ||| 0x7ff0_0000_0000_0000 < bits < 0x8000_0000_0000_0000
            ||| 0xfff0_0000_0000_0000 < bits
        },
{
}

/// Of two numbers, exactly one is below the other, or each is not above the other.
pub proof fn law_numbers_are_ordered(a: Scalar, b: Scalar)
    requires
        a is Number,
        b is Number,
    ensures
        a.spec_le(b) <==> !b.spec_lt(a),
        a.spec_le(b) && b.spec_le(a) <==> a == b,
        a.spec_lt(b) ==> a.spec_le(b) && a != b,
{
}

/// The larger and the smaller of two scalars are the two; numbers lie between them.
pub proof fn law_larger_and_smaller(a: Scalar, b: Scalar)
    ensures
        a is Number && b is Number ==> {
            &&& a.spec_min(b).spec_le(a) && a.spec_min(b).spec_le(b)
            &&& a.spec_le(a.spec_max(b)) && b.spec_le(a.spec_max(b))
            &&& a.spec_min(b) == a || a.spec_min(b) == b
            &&& a.spec_max(b) == a || a.spec_max(b) == b
        },
        a is NotANumber ==> a.spec_max(b) == b && a.spec_min(b) == b,
        b is NotANumber ==> a.spec_max(b) == a && a.spec_min(b) == a,
{
}

} // verus!
