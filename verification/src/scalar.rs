use vstd::prelude::*;
use vstd::arithmetic::div_mod::{
    lemma_div_multiples_vanish_quotient, lemma_fundamental_div_mod_converse, lemma_truncate_middle,
};
use vstd::arithmetic::power2::{
    lemma2_to64, lemma2_to64_rest, lemma_pow2_adds, lemma_pow2_pos, lemma_pow2_strictly_increases,
    pow2,
};
use vstd::bits::lemma_u64_shl_is_mul;

verus! {

/// A real number carried as the bit pattern of an IEEE 754 binary64 value.
///
/// `==` compares the bit patterns, so that `0.0` and `-0.0` differ and a NaN
/// equals itself; [`Scalar::equals`] and [`Scalar::less_than`] compare the
/// numbers.
#[derive(Clone, Copy, PartialEq, Eq, Hash, Debug, Structural)]
pub struct Scalar {
    pub bits: u64,
}

/// Where the fractional part of a magnitude lies.
#[derive(Clone, Copy, PartialEq, Eq, Debug, Structural)]
pub enum Part {
    /// There is none: the magnitude is a whole number.
    Zero,
    /// Below one half.
    Less,
    /// Exactly one half.
    Half,
    /// Above one half.
    More,
}

/// The value in the range of `i32` that is nearest to `v`.
pub open spec fn clamp(v: int) -> int {
    if v < i32::MIN {
        i32::MIN as int
    } else if v > i32::MAX {
        i32::MAX as int
    } else {
        v
    }
}

impl Scalar {
    /// Whether the sign bit is set.
    pub open spec fn sign_bit(self) -> bool {
        self.bits >= 0x8000_0000_0000_0000
    }

    /// Whether the sign bit is set: true of every value below zero, of
    /// `-0.0`, and of a NaN that carries the bit.
    #[verifier::when_used_as_spec(sign_bit)]
    pub fn is_sign_negative(self) -> (negative: bool)
        ensures
            negative == self.sign_bit(),
    {
        self.bits >= 0x8000_0000_0000_0000
    }

    /// The biased exponent: the eleven bits below the sign bit.
    pub open spec fn exponent(self) -> nat {
        ((self.bits / 0x10_0000_0000_0000) % 0x800) as nat
    }

    /// The fraction field: the low fifty-two bits.
    pub open spec fn fraction(self) -> nat {
        (self.bits % 0x10_0000_0000_0000) as nat
    }

    /// Whether the value is a NaN.
    pub open spec fn not_a_number(self) -> bool {
        self.exponent() == 0x7ff && self.fraction() != 0
    }

    /// Whether the value is a NaN.
    #[verifier::when_used_as_spec(not_a_number)]
    pub fn is_nan(self) -> (nan: bool)
        ensures
            nan == self.not_a_number(),
    {
        (self.bits / 0x10_0000_0000_0000) % 0x800 == 0x7ff && self.bits % 0x10_0000_0000_0000 != 0
    }

    /// The significand as a whole number: the fraction field, with the
    /// implicit leading bit unless the value is subnormal or zero.
    pub open spec fn significand(self) -> nat {
        if self.exponent() == 0 {
            self.fraction()
        } else {
            self.fraction() + 0x10_0000_0000_0000
        }
    }

    /// The magnitude of the value in units of `2^-1074`, the spacing of the
    /// least subnormals, in which every finite value is a whole number. An
    /// infinity counts as the power of two above all finite values.
    pub open spec fn magnitude(self) -> nat {
        if self.exponent() == 0 {
            self.significand()
        } else {
            self.significand() * pow2((self.exponent() - 1) as nat)
        }
    }

    /// The value in units of `2^-1074`: the magnitude with the sign. Both
    /// zeros count as zero, and the infinities lie beyond all finite values.
    pub open spec fn value(self) -> int {
        self.signed(self.magnitude() as int)
    }

    /// Whether the two values are the same number: neither is a NaN, and
    /// their values are equal.
    pub open spec fn same_number(self, other: Scalar) -> bool {
        &&& !self.not_a_number()
        &&& !other.not_a_number()
        &&& self.value() == other.value()
    }

    /// Whether the value is a lesser number than `other`: neither is a NaN,
    /// and the value of the one is below the value of the other.
    pub open spec fn less(self, other: Scalar) -> bool {
        &&& !self.not_a_number()
        &&& !other.not_a_number()
        &&& self.value() < other.value()
    }

    /// Whether the value is the same number as `other` or a lesser one.
    pub open spec fn not_above(self, other: Scalar) -> bool {
        &&& !self.not_a_number()
        &&& !other.not_a_number()
        &&& self.value() <= other.value()
    }

    /// The whole part of the magnitude.
    pub open spec fn whole(self) -> nat {
        self.magnitude() / pow2(1074)
    }

    /// The fractional part of the magnitude, in units of `2^-1074`.
    pub open spec fn rest(self) -> nat {
        self.magnitude() % pow2(1074)
    }

    /// Where the fractional part of the magnitude lies.
    pub open spec fn part(self) -> Part {
        if self.rest() == 0 {
            Part::Zero
        } else if 2 * self.rest() < pow2(1074) {
            Part::Less
        } else if 2 * self.rest() == pow2(1074) {
            Part::Half
        } else {
            Part::More
        }
    }

    /// `size` with the sign of the value.
    pub open spec fn signed(self, size: int) -> int {
        if self.sign_bit() {
            -size
        } else {
            size
        }
    }

    /// One if the magnitude has a fractional part, else zero.
    pub open spec fn excess(self) -> int {
        if self.rest() != 0 {
            1
        } else {
            0
        }
    }

    /// The value rounded toward zero and clamped to `i32`; zero for a NaN.
    pub open spec fn truncated(self) -> int {
        if self.not_a_number() {
            0
        } else {
            clamp(self.signed(self.whole() as int))
        }
    }

    /// The value rounded down and clamped to `i32`; zero for a NaN.
    pub open spec fn floored(self) -> int {
        if self.not_a_number() {
            0
        } else if self.sign_bit() {
            clamp(-(self.whole() + self.excess()))
        } else {
            clamp(self.whole() as int)
        }
    }

    /// The value rounded up and clamped to `i32`; zero for a NaN.
    pub open spec fn ceiled(self) -> int {
        if self.not_a_number() {
            0
        } else if self.sign_bit() {
            clamp(-(self.whole() as int))
        } else {
            clamp(self.whole() + self.excess())
        }
    }

    /// The value rounded to the nearest whole number, a half away from zero,
    /// and clamped to `i32`; zero for a NaN.
    pub open spec fn rounded(self) -> int {
        if self.not_a_number() {
            0
        } else if 2 * self.rest() >= pow2(1074) {
            clamp(self.signed(self.whole() + 1 as int))
        } else {
            clamp(self.signed(self.whole() as int))
        }
    }

    /// The value rounded to the nearest whole number, a half toward zero if
    /// the value is above zero and away from it otherwise, and clamped to
    /// `i32` before the half is taken back; zero for a NaN.
    pub open spec fn rounded_half_down(self) -> int {
        if !self.sign_bit() && self.part() == Part::Half {
            self.rounded() - 1
        } else {
            self.rounded()
        }
    }

    /// The value rounded to the nearest whole number, a half toward zero if
    /// the value is below zero and away from it otherwise, and clamped to
    /// `i32` before the half is taken back; zero for a NaN.
    pub open spec fn rounded_half_up(self) -> int {
        if self.sign_bit() && self.part() == Part::Half {
            self.rounded() + 1
        } else {
            self.rounded()
        }
    }

    /// The value whose bit pattern is `bits`.
    pub fn from_bits(bits: u64) -> (scalar: Self)
        ensures
            scalar.bits == bits,
    {
        Scalar { bits }
    }

    /// The bit pattern of the value.
    pub fn to_bits(self) -> (bits: u64)
        ensures
            bits == self.bits,
    {
        self.bits
    }

    /// Whether the value is the number zero, of either sign.
    pub open spec fn zero_number(self) -> bool {
        !self.not_a_number() && self.value() == 0
    }

    /// Whether the value is a number above zero.
    pub open spec fn positive(self) -> bool {
        !self.not_a_number() && self.value() > 0
    }

    /// Whether the value is a number that is not below zero.
    pub open spec fn not_negative(self) -> bool {
        !self.not_a_number() && self.value() >= 0
    }

    /// Whether the value is a number below one.
    pub open spec fn below_one(self) -> bool {
        !self.not_a_number() && self.value() < pow2(1074)
    }

    /// Whether the value is the number zero, as `== 0.` says it.
    #[verifier::when_used_as_spec(zero_number)]
    pub fn is_zero(self) -> (holds: bool)
        ensures
            holds == self.zero_number(),
    {
        self.equals(Scalar::zero())
    }

    /// Whether the value is a number above zero, as `> 0.` says it.
    #[verifier::when_used_as_spec(positive)]
    pub fn is_positive(self) -> (holds: bool)
        ensures
            holds == self.positive(),
    {
        Scalar::zero().less_than(self)
    }

    /// Whether the value is a number that is not below zero, as `>= 0.`
    /// says it.
    #[verifier::when_used_as_spec(not_negative)]
    pub fn is_not_negative(self) -> (holds: bool)
        ensures
            holds == self.not_negative(),
    {
        Scalar::zero().at_most(self)
    }

    /// Whether the value is a number below one, as `< 1.` says it.
    #[verifier::when_used_as_spec(below_one)]
    pub fn is_below_one(self) -> (holds: bool)
        ensures
            holds == self.below_one(),
    {
        self.less_than(Scalar::one())
    }

    /// Zero.
    pub fn zero() -> (zero: Self)
        ensures
            zero.bits == 0,
            zero.value() == 0,
            !zero.not_a_number(),
    {
        Scalar { bits: 0 }
    }

    /// One.
    pub fn one() -> (one: Self)
        ensures
            one.bits == 0x3ff0_0000_0000_0000,
            one.value() == pow2(1074),
            !one.not_a_number(),
    {
        proof {
            let one = Scalar { bits: 0x3ff0_0000_0000_0000 };
            assert(one.exponent() == 1023);
            assert(one.fraction() == 0);
            lemma2_to64_rest();
            lemma_pow2_adds(52, 1022);
        }
        Scalar { bits: 0x3ff0_0000_0000_0000 }
    }

    /// Whether the two values are the same number, as `==` on the floats
    /// says it: `0.0` equals `-0.0`, and a NaN equals nothing.
    #[verifier::when_used_as_spec(same_number)]
    pub fn equals(self, other: Scalar) -> (same: bool)
        ensures
            same == self.same_number(other),
    {
        if self.is_nan() || other.is_nan() {
            return false;
        }
        let mine: u64 = self.bits % 0x8000_0000_0000_0000;
        let theirs: u64 = other.bits % 0x8000_0000_0000_0000;
        proof {
            lemma_magnitude_zero(self);
            lemma_magnitude_zero(other);
            if mine < theirs {
                lemma_magnitude_rises(self, other);
            } else if theirs < mine {
                lemma_magnitude_rises(other, self);
            } else {
                lemma_magnitude_of_bits(self, other);
            }
        }
        if mine != theirs {
            false
        } else if mine == 0 {
            true
        } else {
            self.is_sign_negative() == other.is_sign_negative()
        }
    }

    /// Whether the value is a lesser number than `other`, as `<` on the
    /// floats says it: false where either is a NaN.
    #[verifier::when_used_as_spec(less)]
    pub fn less_than(self, other: Scalar) -> (less: bool)
        ensures
            less == self.less(other),
    {
        if self.is_nan() || other.is_nan() {
            return false;
        }
        let mine: u64 = self.bits % 0x8000_0000_0000_0000;
        let theirs: u64 = other.bits % 0x8000_0000_0000_0000;
        proof {
            lemma_magnitude_zero(self);
            lemma_magnitude_zero(other);
            if mine < theirs {
                lemma_magnitude_rises(self, other);
            } else if theirs < mine {
                lemma_magnitude_rises(other, self);
            } else {
                lemma_magnitude_of_bits(self, other);
            }
        }
        if self.is_sign_negative() {
            if other.is_sign_negative() {
                theirs < mine
            } else {
                mine != 0 || theirs != 0
            }
        } else if other.is_sign_negative() {
            false
        } else {
            mine < theirs
        }
    }

    /// Whether the value is the same number as `other` or a lesser one, as
    /// `<=` on the floats says it: false where either is a NaN.
    #[verifier::when_used_as_spec(not_above)]
    pub fn at_most(self, other: Scalar) -> (holds: bool)
        ensures
            holds == self.not_above(other),
    {
        self.less_than(other) || self.equals(other)
    }
}

/// A significand scaled by a power of two whose exponent is at least 1074
/// is a whole number of units, and a large one if the significand is normal.
proof fn lemma_whole_number(m: nat, k: nat)
    requires
        k >= 1074,
    ensures
        (m * pow2(k)) % pow2(1074) == 0,
        (m * pow2(k)) / pow2(1074) >= m,
{
    let unit = pow2(1074);
    let over = pow2((k - 1074) as nat);
    lemma_pow2_adds(1074, (k - 1074) as nat);
    lemma_pow2_pos(1074);
    lemma_pow2_pos((k - 1074) as nat);
    assert(m * pow2(k) == (m * over) * unit) by (nonlinear_arith)
        requires
            pow2(k) == unit * over,
    ;
    lemma_fundamental_div_mod_converse((m * pow2(k)) as int, unit as int, (m * over) as int, 0);
    assert(m * over >= m) by (nonlinear_arith)
        requires
            over >= 1,
    ;
}

/// A significand scaled by a power of two whose exponent is below 1074
/// splits at the unit as the significand splits at the power that is
/// missing.
proof fn lemma_split(m: nat, k: nat)
    requires
        k < 1074,
    ensures
        pow2(k) > 0,
        pow2((1074 - k) as nat) > 0,
        (m * pow2(k)) / pow2(1074) == m / pow2((1074 - k) as nat),
        (m * pow2(k)) % pow2(1074) == pow2(k) * (m % pow2((1074 - k) as nat)),
{
    let low = pow2(k);
    let high = pow2((1074 - k) as nat);
    lemma_pow2_adds(k, (1074 - k) as nat);
    lemma_pow2_pos(k);
    lemma_pow2_pos((1074 - k) as nat);
    lemma_div_multiples_vanish_quotient(low as int, m as int, high as int);
    lemma_truncate_middle(m as int, low as int, high as int);
    assert(m * low == low * m) by (nonlinear_arith);
}

impl Scalar {
    /// The whole part of the magnitude, capped at `2^31`, and where the
    /// fractional part lies.
    pub fn split(self) -> (parts: (u64, Part))
        ensures
            parts.0 == (if self.whole() < 0x8000_0000 {
                self.whole()
            } else {
                0x8000_0000
            }),
            parts.1 == self.part(),
    {
        let exponent: u64 = (self.bits / 0x10_0000_0000_0000) % 0x800;
        let fraction: u64 = self.bits % 0x10_0000_0000_0000;
        proof {
            lemma2_to64_rest();
            lemma_pow2_pos(1074);
        }
        if exponent >= 1075 {
            proof {
                lemma_whole_number(self.significand(), (exponent - 1) as nat);
            }
            (0x8000_0000, Part::Zero)
        } else if exponent >= 1023 {
            let significand: u64 = fraction + 0x10_0000_0000_0000;
            let shift: u64 = 1075 - exponent;
            proof {
                if shift < 52 {
                    lemma_pow2_strictly_increases(shift as nat, 52);
                }
                lemma_u64_shl_is_mul(1, shift);
            }
            let unit: u64 = 1u64 << shift;
            proof {
                lemma_pow2_pos(shift as nat);
                assert(unit == pow2(shift as nat));
            }
            let whole: u64 = significand / unit;
            let rest: u64 = significand % unit;
            proof {
                lemma_split(significand as nat, (exponent - 1) as nat);
                let low = pow2((exponent - 1) as nat);
                assert(self.rest() == low * rest);
                assert(pow2(1074) == low * unit) by {
                    lemma_pow2_adds((exponent - 1) as nat, shift as nat);
                }
                assert((low * rest == 0) == (rest == 0)) by (nonlinear_arith)
                    requires
                        low > 0,
                ;
                assert((2 * (low * rest) < low * unit) == (2 * rest < unit)) by (nonlinear_arith)
                    requires
                        low > 0,
                ;
                assert((2 * (low * rest) == low * unit) == (2 * rest == unit)) by (nonlinear_arith)
                    requires
                        low > 0,
                ;
            }
            let part = if rest == 0 {
                Part::Zero
            } else if 2 * rest < unit {
                Part::Less
            } else if 2 * rest == unit {
                Part::Half
            } else {
                Part::More
            };
            if whole < 0x8000_0000 {
                (whole, part)
            } else {
                (0x8000_0000, part)
            }
        } else {
            proof {
                let m = self.significand();
                let k: nat = if exponent == 0 {
                    0
                } else {
                    (exponent - 1) as nat
                };
                assert(pow2(0) == 1) by {
                    lemma2_to64();
                }
                assert(self.magnitude() == m * pow2(k));
                lemma_split(m, k);
                let high = pow2((1074 - k) as nat);
                lemma_pow2_adds(53, (1021 - k) as nat);
                lemma_pow2_pos((1021 - k) as nat);
                assert(high >= 2 * 0x10_0000_0000_0000 * 1) by (nonlinear_arith)
                    requires
                        high == pow2(53) * pow2((1021 - k) as nat),
                        pow2(53) == 0x20_0000_0000_0000,
                        pow2((1021 - k) as nat) >= 1,
                ;
                assert(m / high == 0 && m % high == m) by {
                    lemma_fundamental_div_mod_converse(m as int, high as int, 0, m as int);
                }
                let low = pow2(k);
                assert(self.rest() == low * m);
                lemma_pow2_adds(k, (1074 - k) as nat);
                assert(pow2(1074) == low * high);
                assert((low * m == 0) == (m == 0)) by (nonlinear_arith)
                    requires
                        low > 0,
                ;
                assert((2 * (low * m) < low * high) == (2 * m < high)) by (nonlinear_arith)
                    requires
                        low > 0,
                ;
                assert((2 * (low * m) == low * high) == (2 * m == high)) by (nonlinear_arith)
                    requires
                        low > 0,
                ;
                if exponent == 1022 {
                    assert(high == pow2(53));
                } else {
                    lemma_pow2_adds(54, (1020 - k) as nat);
                    lemma_pow2_pos((1020 - k) as nat);
                    assert(high >= 4 * 0x10_0000_0000_0000 * 1) by (nonlinear_arith)
                        requires
                            high == pow2(54) * pow2((1020 - k) as nat),
                            pow2(54) == 0x40_0000_0000_0000,
                            pow2((1020 - k) as nat) >= 1,
                    ;
                }
            }
            let part = if exponent == 0 && fraction == 0 {
                Part::Zero
            } else if exponent < 1022 {
                Part::Less
            } else if fraction == 0 {
                Part::Half
            } else {
                Part::More
            };
            (0, part)
        }
    }
}

impl Scalar {
    /// `size` with the sign of the value, clamped to `i32`.
    fn with_sign(self, size: u64) -> (whole: i32)
        requires
            size <= 0x8000_0001,
        ensures
            whole == clamp(self.signed(size as int)),
    {
        if self.is_sign_negative() {
            if size >= 0x8000_0000 {
                i32::MIN
            } else {
                -(size as i32)
            }
        } else if size > 0x7fff_ffff {
            i32::MAX
        } else {
            size as i32
        }
    }

    /// The value rounded toward zero, as a cast to `i32` does it: clamped
    /// to the range, and zero for a NaN.
    pub fn trunc(self) -> (whole: i32)
        ensures
            whole == self.truncated(),
    {
        if self.is_nan() {
            return 0;
        }
        let parts = self.split();
        self.with_sign(parts.0)
    }

    /// The value rounded down, then cast to `i32`.
    pub fn floor(self) -> (whole: i32)
        ensures
            whole == self.floored(),
    {
        if self.is_nan() {
            return 0;
        }
        let parts = self.split();
        if self.is_sign_negative() && parts.1 != Part::Zero {
            self.with_sign(parts.0 + 1)
        } else {
            self.with_sign(parts.0)
        }
    }

    /// The value rounded up, then cast to `i32`.
    pub fn ceil(self) -> (whole: i32)
        ensures
            whole == self.ceiled(),
    {
        if self.is_nan() {
            return 0;
        }
        let parts = self.split();
        if !self.is_sign_negative() && parts.1 != Part::Zero {
            self.with_sign(parts.0 + 1)
        } else {
            self.with_sign(parts.0)
        }
    }

    /// The value rounded to the nearest whole number, a half away from
    /// zero, then cast to `i32`.
    pub fn round(self) -> (whole: i32)
        ensures
            whole == self.rounded(),
    {
        if self.is_nan() {
            return 0;
        }
        let parts = self.split();
        proof {
            lemma_pow2_pos(1074);
        }
        if parts.1 == Part::Half || parts.1 == Part::More {
            self.with_sign(parts.0 + 1)
        } else {
            self.with_sign(parts.0)
        }
    }

    /// As [`Scalar::round`], but one less where the value is above zero and
    /// its fractional part is exactly one half.
    pub fn round_half_down(self) -> (whole: i32)
        ensures
            whole == self.rounded_half_down(),
    {
        let nearest = self.round();
        let parts = self.split();
        if !self.is_sign_negative() && parts.1 == Part::Half {
            nearest - 1
        } else {
            nearest
        }
    }

    /// As [`Scalar::round`], but one more where the value is below zero and
    /// its fractional part is exactly one half.
    pub fn round_half_up(self) -> (whole: i32)
        ensures
            whole == self.rounded_half_up(),
    {
        let nearest = self.round();
        let parts = self.split();
        if self.is_sign_negative() && parts.1 == Part::Half {
            nearest + 1
        } else {
            nearest
        }
    }
}

/// The bits below the sign bit order magnitudes: of two bit patterns, the
/// one with the lesser low bits has the lesser magnitude.
proof fn lemma_magnitude_rises(a: Scalar, b: Scalar)
    requires
        a.bits % 0x8000_0000_0000_0000 < b.bits % 0x8000_0000_0000_0000,
    ensures
        a.magnitude() < b.magnitude(),
{
    let ea = a.exponent();
    let eb = b.exponent();
    let fa = a.fraction();
    let fb = b.fraction();
    lemma_fields(a);
    lemma_fields(b);
    lemma2_to64();
    if ea == eb {
        if ea > 0 {
            let scale = pow2((ea - 1) as nat);
            lemma_pow2_pos((ea - 1) as nat);
            assert((fa + 0x10_0000_0000_0000) * scale < (fb + 0x10_0000_0000_0000) * scale)
                by (nonlinear_arith)
                requires
                    fa < fb,
                    scale > 0,
            ;
        }
    } else {
        assert(ea < eb);
        let high = pow2((eb - 1) as nat);
        lemma_pow2_pos((eb - 1) as nat);
        assert((fb + 0x10_0000_0000_0000) * high >= 0x10_0000_0000_0000 * high) by (nonlinear_arith)
            requires
                fb >= 0,
                high > 0,
        ;
        if ea == 0 {
            assert(0x10_0000_0000_0000 * high >= 0x10_0000_0000_0000) by (nonlinear_arith)
                requires
                    high >= 1,
            ;
        } else {
            let low = pow2((ea - 1) as nat);
            lemma_pow2_pos((ea - 1) as nat);
            lemma_pow2_adds(1, (ea - 1) as nat);
            if ea < eb - 1 {
                lemma_pow2_strictly_increases(ea, (eb - 1) as nat);
            }
            assert(2 * low <= high);
            assert((fa + 0x10_0000_0000_0000) * low < 0x10_0000_0000_0000 * high) by (nonlinear_arith)
                requires
                    fa < 0x10_0000_0000_0000,
                    low > 0,
                    2 * low <= high,
            ;
        }
    }
}

/// The exponent and the fraction fields are read from the bits below the
/// sign bit alone.
proof fn lemma_fields(a: Scalar)
    ensures
        a.exponent() == (a.bits % 0x8000_0000_0000_0000) / 0x10_0000_0000_0000,
        a.fraction() == (a.bits % 0x8000_0000_0000_0000) % 0x10_0000_0000_0000,
{
    let bits = a.bits;
    assert((bits / 0x10_0000_0000_0000) % 0x800 == (bits % 0x8000_0000_0000_0000)
        / 0x10_0000_0000_0000) by (bit_vector);
    assert(bits % 0x10_0000_0000_0000 == (bits % 0x8000_0000_0000_0000) % 0x10_0000_0000_0000)
        by (bit_vector);
}

/// Bit patterns that agree below the sign bit have the same magnitude.
proof fn lemma_magnitude_of_bits(a: Scalar, b: Scalar)
    requires
        a.bits % 0x8000_0000_0000_0000 == b.bits % 0x8000_0000_0000_0000,
    ensures
        a.magnitude() == b.magnitude(),
{
    lemma_fields(a);
    lemma_fields(b);
}

/// The magnitude is zero only where the bits below the sign bit are.
proof fn lemma_magnitude_zero(a: Scalar)
    ensures
        a.magnitude() == 0 <==> a.bits % 0x8000_0000_0000_0000 == 0,
{
    lemma_fields(a);
    if a.exponent() > 0 {
        let scale = pow2((a.exponent() - 1) as nat);
        lemma_pow2_pos((a.exponent() - 1) as nat);
        assert((a.fraction() + 0x10_0000_0000_0000) * scale > 0) by (nonlinear_arith)
            requires
                a.fraction() >= 0,
                scale > 0,
        ;
    }
}

} // verus!
