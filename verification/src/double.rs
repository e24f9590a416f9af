//! IEEE 754 double-precision numbers, held by their bit pattern.
//!
//! A percentage or a rate reaches this library as the 64 bits of a double. The
//! order of two doubles can be read off those bits, so every comparison that a
//! status decision makes is an integer comparison here.
use vstd::arithmetic::mul::*;
use vstd::arithmetic::power2::*;
use vstd::prelude::*;

verus! {

/// The weight of the sign bit.
pub const SIGN_BIT: u64 = 0x8000_0000_0000_0000;

/// The weight of the lowest exponent bit.
pub const EXPONENT_UNIT: u64 = 0x0010_0000_0000_0000;

/// The bit pattern of positive infinity: a larger magnitude is not a number.
pub const INFINITY_BITS: u64 = 0x7ff0_0000_0000_0000;

/// The bit pattern of 80.0.
pub const EIGHTY_BITS: u64 = 0x4054_0000_0000_0000;

/// The bit pattern of 100.0.
pub const HUNDRED_BITS: u64 = 0x4059_0000_0000_0000;

/// The bit pattern of 4000.0.
pub const FOUR_THOUSAND_BITS: u64 = 0x40af_4000_0000_0000;

/// The size of a double with magnitude bits `m`, counted in multiples of
/// 2^-1074, the smallest positive double. Infinity counts as 2^1024.
pub open spec fn magnitude_units(m: nat) -> nat {
    let exponent = m / (EXPONENT_UNIT as nat);
    let fraction = m % (EXPONENT_UNIT as nat);
    if exponent == 0 {
        fraction
    } else {
        (EXPONENT_UNIT + fraction) as nat * pow2((exponent - 1) as nat)
    }
}

/// The whole number `n`, counted in multiples of 2^-1074.
pub open spec fn whole_units(n: int) -> int {
    n * pow2(1074)
}

/// A double, given by its IEEE 754 bit pattern.
#[derive(Clone, Copy, Debug, PartialEq, Eq, Structural)]
pub struct Double {
    pub bits: u64,
}

impl Double {
    /// The bits below the sign bit.
    pub open spec fn magnitude(self) -> nat {
        if self.bits < SIGN_BIT {
            self.bits as nat
        } else {
            (self.bits - SIGN_BIT) as nat
        }
    }

    pub open spec fn negative(self) -> bool {
        self.bits >= SIGN_BIT
    }

    pub open spec fn is_nan(self) -> bool {
        self.magnitude() > INFINITY_BITS
    }

    /// The value of a double that is not NaN, in multiples of 2^-1074.
    pub open spec fn units(self) -> int {
        if self.negative() {
            -(magnitude_units(self.magnitude()) as int)
        } else {
            magnitude_units(self.magnitude()) as int
        }
    }

    /// The place of a double in the total order of IEEE 754: every bit pattern
    /// has one, negative zero stands just below zero, and NaNs stand at the two
    /// ends.
    pub open spec fn rank(self) -> int {
        if self.negative() {
            -1 - self.magnitude()
        } else {
            self.magnitude() as int
        }
    }

    /// The numeric comparison `self >= other`, which is false where NaN occurs.
    pub open spec fn spec_at_least(self, other: Double) -> bool {
        !self.is_nan() && !other.is_nan() && self.units() >= other.units()
    }

    /// The numeric comparison `self >= n` with a whole number.
    pub open spec fn at_least_whole(self, n: int) -> bool {
        !self.is_nan() && self.units() >= whole_units(n)
    }

    pub fn from_bits(bits: u64) -> (d: Double)
        ensures
            d.bits == bits,
    {
        Double { bits }
    }

    /// The magnitude bits with the sign of the double.
    fn signed_magnitude(self) -> (s: i64)
        ensures
            s == (if self.negative() {
                -(self.magnitude() as int)
            } else {
                self.magnitude() as int
            }),
    {
        if self.bits < SIGN_BIT {
            self.bits as i64
        } else {
            -((self.bits - SIGN_BIT) as i64)
        }
    }

    /// Whether the double is not a number.
    pub fn nan(self) -> (r: bool)
        ensures
            r == self.is_nan(),
    {
        if self.bits < SIGN_BIT {
            self.bits > INFINITY_BITS
        } else {
            self.bits - SIGN_BIT > INFINITY_BITS
        }
    }

    /// The numeric comparison `self >= other` of two doubles.
    pub fn at_least(self, other: Double) -> (r: bool)
        ensures
            r == self.spec_at_least(other),
    {
        proof {
            lemma_units_follow_signed_magnitude(self, other);
        }
        !self.nan() && !other.nan() && self.signed_magnitude() >= other.signed_magnitude()
    }

    /// Whether `self` stands below `other` in the total order.
    pub fn ranks_below(self, other: Double) -> (r: bool)
        ensures
            r == (self.rank() < other.rank()),
    {
        if self.bits < SIGN_BIT {
            other.bits < SIGN_BIT && self.bits < other.bits
        } else {
            other.bits < SIGN_BIT || self.bits > other.bits
        }
    }
}

/// A larger magnitude is a larger size.
pub proof fn lemma_magnitude_units_increase(a: nat, b: nat)
    requires
        a < b,
    ensures
        magnitude_units(a) < magnitude_units(b),
{
    let unit = EXPONENT_UNIT as nat;
    let ea = a / unit;
    let eb = b / unit;
    let fa = a % unit;
    let fb = b % unit;
    assert(a == ea * unit + fa);
    assert(b == eb * unit + fb);
    assert(ea <= eb);
    if ea == eb {
        assert(fa < fb);
        if ea > 0 {
            lemma_pow2_pos((ea - 1) as nat);
            lemma_mul_strict_inequality(
                (unit + fa) as int,
                (unit + fb) as int,
                pow2((ea - 1) as nat) as int,
            );
        }
    } else {
        assert(magnitude_units(a) < unit * pow2(ea)) by {
            if ea == 0 {
                lemma_pow2(0);
                lemma2_to64();
            } else {
                lemma_pow2_pos((ea - 1) as nat);
                lemma_pow2_unfold(ea);
                let p = pow2((ea - 1) as nat) as int;
                lemma_mul_strict_inequality((unit + fa) as int, (2 * unit) as int, p);
                assert((2 * unit) * p == unit * (2 * p)) by (nonlinear_arith);
            }
        }
        assert(pow2(ea) <= pow2((eb - 1) as nat)) by {
            if ea < eb - 1 {
                lemma_pow2_strictly_increases(ea, (eb - 1) as nat);
            }
        }
        let q = pow2((eb - 1) as nat) as int;
        lemma_mul_inequality(pow2(ea) as int, q, unit as int);
        lemma_mul_is_commutative(pow2(ea) as int, unit as int);
        lemma_mul_is_commutative(q, unit as int);
        lemma_pow2_pos((eb - 1) as nat);
        lemma_mul_inequality(unit as int, (unit + fb) as int, q);
    }
}

/// The value of a double and its signed magnitude order doubles alike.
proof fn lemma_units_follow_signed_magnitude(a: Double, b: Double)
    ensures
        ({
            let sa = if a.negative() { -(a.magnitude() as int) } else { a.magnitude() as int };
            let sb = if b.negative() { -(b.magnitude() as int) } else { b.magnitude() as int };
            a.units() >= b.units() <==> sa >= sb
        }),
{
    let ma = a.magnitude();
    let mb = b.magnitude();
    assert(magnitude_units(0) == 0);
    if ma > 0 {
        lemma_magnitude_units_increase(0, ma);
    }
    if mb > 0 {
        lemma_magnitude_units_increase(0, mb);
    }
    if ma < mb {
        lemma_magnitude_units_increase(ma, mb);
    }
    if mb < ma {
        lemma_magnitude_units_increase(mb, ma);
    }
}

/// The named bit patterns stand for the whole numbers that they are named after.
pub proof fn lemma_named_patterns()
    ensures
        (Double { bits: 0 }).units() == whole_units(0),
        (Double { bits: EIGHTY_BITS }).units() == whole_units(80),
        (Double { bits: HUNDRED_BITS }).units() == whole_units(100),
        (Double { bits: FOUR_THOUSAND_BITS }).units() == whole_units(4000),
{
    lemma2_to64();
    lemma2_to64_rest();
    let scale = pow2(1074) as int;
    assert(scale == 0x4000_0000_0000 * pow2(1028)) by {
        lemma_pow2_adds(46, 1028);
    }
    assert(scale == 0x200_0000_0000 * pow2(1033)) by {
        lemma_pow2_adds(41, 1033);
    }
    let p = pow2(1028) as int;
    let q = pow2(1033) as int;
    assert(80 * (0x4000_0000_0000 * p) == (80 * 0x4000_0000_0000) * p) by (nonlinear_arith);
    assert(100 * (0x4000_0000_0000 * p) == (100 * 0x4000_0000_0000) * p) by (nonlinear_arith);
    assert(4000 * (0x200_0000_0000 * q) == (4000 * 0x200_0000_0000) * q) by (nonlinear_arith);
    assert(magnitude_units(EIGHTY_BITS as nat) == (80 * 0x4000_0000_0000) * p);
    assert(magnitude_units(HUNDRED_BITS as nat) == (100 * 0x4000_0000_0000) * p);
    assert(magnitude_units(FOUR_THOUSAND_BITS as nat) == (4000 * 0x200_0000_0000) * q);
}

/// Two doubles with the same place in the total order are the same double.
pub proof fn law_rank_is_injective(a: Double, b: Double)
    requires
        a.rank() == b.rank(),
    ensures
        a == b,
{
}

/// Among doubles that are not NaN, a higher place in the total order is never a
/// lower value, and a higher value is always a higher place.
pub proof fn law_rank_follows_value(a: Double, b: Double)
    requires
        !a.is_nan(),
        !b.is_nan(),
    ensures
        a.rank() <= b.rank() ==> a.units() <= b.units(),
        a.units() < b.units() ==> a.rank() < b.rank(),
{
    lemma_units_follow_signed_magnitude(a, b);
    lemma_units_follow_signed_magnitude(b, a);
}

impl Double {
    /// Whether `self` stands below `other` in the total order, read off the bits: a
    /// negative pattern below one that is not, among the others the lesser pattern,
    /// among negative ones the greater.
    pub open spec fn ranked_below(self, other: Double) -> bool {
        if self.bits < 0x8000_0000_0000_0000 {
            other.bits < 0x8000_0000_0000_0000 && self.bits < other.bits
        } else {
            other.bits < 0x8000_0000_0000_0000 || self.bits > other.bits
        }
    }
}

/// The places in the total order are ordered as the bit patterns are.
pub proof fn law_rank_is_total_order_of_bits(a: Double, b: Double)
    ensures
        a.rank() < b.rank() <==> a.ranked_below(b),
{
}

/// A double is NaN exactly if the bits of its exponent are all set and some bit of
/// its fraction is.
pub proof fn law_nan_patterns(d: Double)
    ensures
        d.is_nan() <==> d.bits % 0x8000_0000_0000_0000 > 0x7ff0_0000_0000_0000,
{
}

/// The value of a double with the exponent bits `exponent` and the fraction bits
/// `fraction`, in multiples of 2^-1074.
pub proof fn law_value_of_parts(d: Double, negative: bool, exponent: nat, fraction: nat)
    requires
        exponent < 0x800,
        fraction < 0x10_0000_0000_0000,
        d.bits == (if negative { 0x8000_0000_0000_0000int } else { 0 }) + exponent
            * 0x10_0000_0000_0000 + fraction,
    ensures
        ({
            let size: int = if exponent == 0 {
                fraction as int
            } else {
                ((0x10_0000_0000_0000 + fraction) * pow2((exponent - 1) as nat)) as int
            };
            d.units() == if negative { -size } else { size }
        }),
{
    let m = d.magnitude();
    assert(m == exponent * 0x10_0000_0000_0000 + fraction);
    assert(m / 0x10_0000_0000_0000 == exponent);
    assert(m % 0x10_0000_0000_0000 == fraction);
}

/// A double is at least a whole number exactly if it is not NaN and its value is at
/// least that many multiples of 2^1074 times 2^-1074; and at least another double
/// exactly if neither is NaN and its value is.
pub proof fn law_at_least_compares_values(a: Double, b: Double, n: int)
    ensures
        a.at_least_whole(n) <==> !a.is_nan() && a.units() >= n * pow2(1074),
        a.spec_at_least(b) <==> !a.is_nan() && !b.is_nan() && a.units() >= b.units(),
{
}

} // verus!
