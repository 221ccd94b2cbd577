//! Real numbers as the renderer stores them.
//!
//! A [`Scalar`] is a double-precision number kept as its IEEE-754 bit
//! pattern: one sign bit, eleven exponent bits, fifty-two fraction bits.
//! Rounded arithmetic is not done here. What is decided here is what
//! can be read off the pattern exactly: whether it is a number at all, where
//! it stands on the number line relative to another pattern, its negation,
//! and its whole part.
use vstd::prelude::*;
use vstd::arithmetic::div_mod::{
    lemma_div_by_multiple, lemma_div_is_ordered, lemma_div_multiples_vanish_quotient,
    lemma_fundamental_div_mod,
};
use vstd::arithmetic::mul::lemma_mul_inequality;
use vstd::arithmetic::power2::{
    lemma2_to64, lemma2_to64_rest, lemma_pow2_adds, lemma_pow2_pos, lemma_pow2_strictly_increases,
    lemma_pow2_unfold, pow2,
};
use vstd::bits::lemma_u64_shr_is_div;

verus! {

/// The pattern whose only set bit is the sign bit.
pub const SIGN_BIT: u64 = 0x8000_0000_0000_0000;

/// The pattern of positive infinity: every exponent bit set, no fraction bit.
pub const INFINITY_BITS: u64 = 0x7FF0_0000_0000_0000;

/// The lowest bit of the exponent field, two to the power of 52: the
/// fraction lies below it, and in every number but the smallest ones it
/// stands for the leading one of the significand.
pub const HIDDEN_BIT: u64 = 0x0010_0000_0000_0000;

/// A double-precision number, held as its bit pattern.
///
/// `==` on scalars compares patterns, so it tells `0.0` from `-0.0` and finds
/// a not-a-number pattern equal to itself. The order of the numbers is
/// [`Scalar::lt`].
#[derive(Clone, Copy, Debug, PartialEq, Eq, Structural)]
pub struct Scalar {
    pub bits: u64,
}

impl Scalar {
    /// Whether the sign bit is set.
    pub open spec fn signed(self) -> bool {
        self.bits >= SIGN_BIT
    }

    /// The pattern without its sign bit, as a number. Among patterns that
    /// are numbers, a larger magnitude is a number further from zero.
    pub open spec fn magnitude(self) -> int {
        if self.signed() {
            self.bits - SIGN_BIT
        } else {
            self.bits as int
        }
    }

    /// Whether the pattern is not a number: its magnitude lies beyond
    /// infinity's.
    pub open spec fn spec_is_nan(self) -> bool {
        self.magnitude() > INFINITY_BITS
    }

    /// The place of a number on the number line: its magnitude, counted
    /// downwards from zero when the sign bit is set. Both zeros have rank 0,
    /// and for two numbers the smaller number has the smaller rank.
    pub open spec fn rank(self) -> int {
        if self.signed() {
            -self.magnitude()
        } else {
            self.magnitude()
        }
    }

    /// `self < other` as numbers: false as soon as either is not a number.
    pub open spec fn spec_lt(self, other: Scalar) -> bool {
        !self.spec_is_nan() && !other.spec_is_nan() && self.rank() < other.rank()
    }

    /// The exponent field: the eleven bits above the fraction.
    pub open spec fn exponent_field(self) -> nat {
        (self.magnitude() / (HIDDEN_BIT as int)) as nat
    }

    /// The fraction: the fifty-two lowest bits.
    pub open spec fn fraction(self) -> nat {
        (self.magnitude() % (HIDDEN_BIT as int)) as nat
    }

    /// The significand of a number, whose absolute value is
    /// `significand * 2^exponent`: the fraction, with a leading one before
    /// it unless the exponent field is zero.
    pub open spec fn significand(self) -> nat {
        if self.exponent_field() == 0 {
            self.fraction()
        } else {
            HIDDEN_BIT as nat + self.fraction()
        }
    }

    /// The exponent of a number, whose absolute value is
    /// `significand * 2^exponent`.
    pub open spec fn exponent(self) -> int {
        if self.exponent_field() == 0 {
            -1074
        } else {
            self.exponent_field() - 1075
        }
    }

    /// The whole part of a number's absolute value: `significand *
    /// 2^exponent` without what comes after the point.
    pub open spec fn whole_part(self) -> nat {
        if self.exponent() >= 0 {
            self.significand() * pow2(self.exponent() as nat)
        } else {
            self.significand() / pow2((-self.exponent()) as nat)
        }
    }

    /// A number's absolute value counted in steps of `2^-1074`, the
    /// smallest distance between two numbers: `significand * 2^(exponent +
    /// 1074)`, a whole number whatever the pattern.
    pub open spec fn steps(self) -> nat {
        self.significand() * pow2((self.exponent() + 1074) as nat)
    }

    /// The number cut down to a whole number of 32 bits: its whole part if
    /// that fits, the largest such number if it does not, and zero for a
    /// number below zero and for what is not a number.
    pub open spec fn spec_to_u32(self) -> u32 {
        if self.spec_is_nan() || self.signed() {
            0
        } else if self.whole_part() > u32::MAX {
            u32::MAX
        } else {
            self.whole_part() as u32
        }
    }

    /// The pattern with the sign bit flipped.
    pub open spec fn spec_neg(self) -> Scalar {
        if self.signed() {
            Scalar { bits: (self.bits - SIGN_BIT) as u64 }
        } else {
            Scalar { bits: (self.bits + SIGN_BIT) as u64 }
        }
    }

    /// Positive zero, the all-clear pattern.
    pub open spec fn spec_zero() -> Scalar {
        Scalar { bits: 0 }
    }

    /// Positive infinity.
    pub open spec fn spec_infinity() -> Scalar {
        Scalar { bits: INFINITY_BITS }
    }

    /// The scalar with the given pattern.
    pub fn from_bits(bits: u64) -> (s: Scalar)
        ensures
            s.bits == bits,
    {
        Scalar { bits }
    }

    /// The pattern of the scalar.
    pub fn to_bits(self) -> (bits: u64)
        ensures
            bits == self.bits,
    {
        self.bits
    }

    /// Positive zero.
    pub fn zero() -> (s: Scalar)
        ensures
            s == Scalar::spec_zero(),
    {
        Scalar { bits: 0 }
    }

    /// Positive infinity.
    pub fn infinity() -> (s: Scalar)
        ensures
            s == Scalar::spec_infinity(),
    {
        Scalar { bits: INFINITY_BITS }
    }

    /// Whether the pattern is not a number.
    pub fn is_nan(self) -> (nan: bool)
        ensures
            nan == self.spec_is_nan(),
    {
        if self.bits >= SIGN_BIT {
            self.bits - SIGN_BIT > INFINITY_BITS
        } else {
            self.bits > INFINITY_BITS
        }
    }

    /// `self < other` as numbers.
    pub fn lt(self, other: Scalar) -> (less: bool)
        ensures
            less == self.spec_lt(other),
    {
        if self.is_nan() || other.is_nan() {
            return false;
        }
        let left_signed: bool = self.bits >= SIGN_BIT;
        let right_signed: bool = other.bits >= SIGN_BIT;
        if left_signed {
            let left: u64 = self.bits - SIGN_BIT;
            if right_signed {
                let right: u64 = other.bits - SIGN_BIT;
                right < left
            } else {
                left > 0 || other.bits > 0
            }
        } else {
            if right_signed {
                false
            } else {
                self.bits < other.bits
            }
        }
    }

    /// The number cut down to a whole number: what comes after the point is
    /// dropped, a number too large gives the largest `u32`, and a number
    /// below zero gives zero, as does what is not a number.
    pub fn to_u32(self) -> (n: u32)
        ensures
            n == self.spec_to_u32(),
    {
        if self.bits >= SIGN_BIT || self.bits > INFINITY_BITS {
            return 0;
        }
        let field: u64 = self.bits / HIDDEN_BIT;
        let fraction: u64 = self.bits % HIDDEN_BIT;
        proof {
            lemma2_to64();
            lemma2_to64_rest();
            assert(field == self.exponent_field());
            assert(fraction == self.fraction());
            assert(field <= 2047);
        }
        if field < 1023 {
            proof {
                let k = (-self.exponent()) as nat;
                assert(k >= 53);
                if k > 53 {
                    lemma_pow2_strictly_increases(53, k);
                }
                assert(self.significand() < pow2(k));
                assert(self.significand() / pow2(k) == 0) by (nonlinear_arith)
                    requires
                        0 <= self.significand() < pow2(k),
                ;
            }
            return 0;
        }
        if field >= 1055 {
            proof {
                let significand = self.significand();
                assert(significand >= 0x0010_0000_0000_0000);
                if self.exponent() >= 0 {
                    let k = self.exponent() as nat;
                    lemma_pow2_pos(k);
                    assert(significand * pow2(k) >= significand) by (nonlinear_arith)
                        requires
                            pow2(k) >= 1,
                            significand >= 0,
                    ;
                } else {
                    let k = (-self.exponent()) as nat;
                    assert(1 <= k <= 20);
                    lemma_pow2_pos(k);
                    if k < 20 {
                        lemma_pow2_strictly_increases(k, 20);
                    }
                    assert(pow2(k) <= 0x10_0000);
                    assert(significand / pow2(k) >= 0x1_0000_0000) by (nonlinear_arith)
                        requires
                            0 < pow2(k) <= 0x10_0000,
                            significand >= 0x0010_0000_0000_0000,
                    ;
                }
            }
            return u32::MAX;
        }
        let shift: u64 = 1075 - field;
        let significand: u64 = HIDDEN_BIT + fraction;
        let whole: u64 = significand >> shift;
        proof {
            let k = shift as nat;
            assert(21 <= k <= 52);
            assert(k == (-self.exponent()) as nat);
            lemma_u64_shr_is_div(significand, shift);
            if k > 21 {
                lemma_pow2_strictly_increases(21, k);
            }
            assert(pow2(k) >= 0x20_0000);
            assert(whole == significand as nat / pow2(k));
            assert(significand as nat / pow2(k) < 0x1_0000_0000) by (nonlinear_arith)
                requires
                    pow2(k) >= 0x20_0000,
                    significand < 0x0020_0000_0000_0000,
            ;
        }
        whole as u32
    }

    /// The negation: the same magnitude with the sign bit flipped. It is
    /// exact, and it takes a not-a-number pattern to a not-a-number pattern.
    pub fn neg(self) -> (negated: Scalar)
        ensures
            negated == self.spec_neg(),
    {
        if self.bits >= SIGN_BIT {
            Scalar { bits: self.bits - SIGN_BIT }
        } else {
            Scalar { bits: self.bits + SIGN_BIT }
        }
    }
}

/// Negation mirrors the number line: it keeps the magnitude, turns the rank
/// round, and applied twice gives the pattern back.
pub proof fn lemma_neg_mirrors(a: Scalar)
    ensures
        a.spec_neg().magnitude() == a.magnitude(),
        a.spec_neg().spec_is_nan() == a.spec_is_nan(),
        a.spec_neg().rank() == -a.rank(),
        a.spec_neg().spec_neg() == a,
{
}

/// The whole part of a number is the whole part of its steps divided by
/// the number of steps in one.
proof fn lemma_whole_part_in_steps(a: Scalar)
    ensures
        a.whole_part() == a.steps() / pow2(1074),
{
    let significand = a.significand();
    lemma_pow2_pos(1074);
    if a.exponent() >= 0 {
        let k = a.exponent() as nat;
        lemma_pow2_adds(k, 1074);
        lemma_div_by_multiple((significand * pow2(k)) as int, pow2(1074) as int);
        assert(significand * pow2(k + 1074) == (significand * pow2(k)) * pow2(1074))
            by (nonlinear_arith)
            requires
                pow2(k + 1074) == pow2(k) * pow2(1074),
        ;
    } else {
        let k = (-a.exponent()) as nat;
        let rest = (1074 - k) as nat;
        lemma_pow2_adds(rest, k);
        lemma_pow2_pos(rest);
        lemma_pow2_pos(k);
        lemma_div_multiples_vanish_quotient(pow2(rest) as int, significand as int, pow2(k) as int);
        assert(significand * pow2(rest) == pow2(rest) * significand) by (nonlinear_arith);
    }
}

/// Of two patterns, the one with the larger magnitude counts at least as
/// many steps.
proof fn lemma_steps_grow(a: Scalar, b: Scalar)
    requires
        a.magnitude() <= b.magnitude(),
    ensures
        a.steps() <= b.steps(),
{
    let hidden = HIDDEN_BIT as int;
    let steps_a = pow2((a.exponent() + 1074) as nat);
    let steps_b = pow2((b.exponent() + 1074) as nat);
    lemma_fundamental_div_mod(a.magnitude(), hidden);
    lemma_fundamental_div_mod(b.magnitude(), hidden);
    lemma_div_is_ordered(a.magnitude(), b.magnitude(), hidden);
    lemma_pow2_pos((a.exponent() + 1074) as nat);
    lemma_pow2_pos((b.exponent() + 1074) as nat);
    if a.exponent_field() == b.exponent_field() {
        assert(a.fraction() <= b.fraction());
        lemma_mul_inequality(a.significand() as int, b.significand() as int, steps_a as int);
    } else if a.exponent_field() == 0 {
        lemma2_to64();
        assert(steps_a == 1);
        assert(a.significand() * steps_a <= b.significand() * steps_b) by (nonlinear_arith)
            requires
                steps_a == 1,
                steps_b >= 1,
                a.significand() <= b.significand(),
        ;
    } else {
        let lower = (a.exponent() + 1074) as nat;
        let upper = (b.exponent() + 1074) as nat;
        lemma_pow2_unfold(lower + 1);
        if lower + 1 < upper {
            lemma_pow2_strictly_increases(lower + 1, upper);
        }
        assert(steps_b >= 2 * steps_a);
        assert(a.significand() * steps_a <= b.significand() * steps_b) by (nonlinear_arith)
            requires
                steps_b >= 2 * steps_a,
                steps_a >= 1,
                a.significand() < 2 * HIDDEN_BIT,
                b.significand() >= HIDDEN_BIT,
        ;
    }
}

/// Cutting down keeps the order: of two numbers, the one that is not the
/// larger is cut down to a whole number that is not the larger either.
pub proof fn lemma_to_u32_keeps_order(a: Scalar, b: Scalar)
    requires
        !a.spec_is_nan(),
        !b.spec_is_nan(),
        !b.spec_lt(a),
    ensures
        a.spec_to_u32() <= b.spec_to_u32(),
{
    if !a.signed() && !b.signed() {
        lemma_whole_part_in_steps(a);
        lemma_whole_part_in_steps(b);
        lemma_steps_grow(a, b);
        lemma_pow2_pos(1074);
        lemma_div_is_ordered(a.steps() as int, b.steps() as int, pow2(1074) as int);
    } else if !a.signed() {
        assert(a.magnitude() == 0);
        lemma_pow2_pos(1074);
        assert(a.whole_part() == 0) by (nonlinear_arith)
            requires
                a.whole_part() == 0int / (pow2(1074) as int),
                pow2(1074) > 0,
        ;
    }
}

} // verus!
