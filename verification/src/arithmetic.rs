//! Arithmetic on doubles: sum, difference, product and quotient, each the
//! exact result rounded to the nearest double, ties to even.
//!
//! An operation on a NaN, and one without a value (infinity less infinity,
//! zero times infinity, zero or infinity over itself), gives the quiet NaN
//! without payload.

use crate::double::{unit, Double, HIDDEN_BIT, INFINITY_BITS, SIGN_BIT};
use crate::rounding::{
    brackets, exactly, lemma_pattern_of, lemma_rounded, lemma_rounds_exact, pattern_magnitude,
    power_of_two, round_pattern, rounded_magnitude, SIGNIFICAND_LIMIT,
};
use vstd::arithmetic::div_mod::*;
use vstd::arithmetic::mul::*;
use vstd::arithmetic::power2::*;
use vstd::prelude::*;

verus! {

/// The quiet NaN without payload.
pub const NAN_BITS: u64 = 0x7ff8_0000_0000_0000;

/// The double with a sign and a pattern without sign.
pub open spec fn signed(negative: bool, pattern: u64) -> Double {
    Double {
        bits: if negative {
            (SIGN_BIT + pattern) as u64
        } else {
            pattern
        },
    }
}

/// The absolute value of an integer.
pub open spec fn absolute(x: int) -> int {
    if x < 0 {
        -x
    } else {
        x
    }
}

impl Double {
    /// Plus or minus zero.
    pub open spec fn spec_is_zero(self) -> bool {
        self.magnitude_bits() == 0
    }

    /// The number with the opposite sign.
    pub open spec fn spec_negated(self) -> Double {
        Double {
            bits: if self.bits >= SIGN_BIT {
                (self.bits - SIGN_BIT) as u64
            } else {
                (self.bits + SIGN_BIT) as u64
            },
        }
    }

    /// The product, rounded.
    pub open spec fn spec_times(self, other: Double) -> Double {
        let negative = self.spec_is_sign_negative() != other.spec_is_sign_negative();
        if self.spec_is_nan() || other.spec_is_nan() {
            Double { bits: NAN_BITS }
        } else if self.spec_is_infinite() || other.spec_is_infinite() {
            if self.spec_is_zero() || other.spec_is_zero() {
                Double { bits: NAN_BITS }
            } else {
                signed(negative, INFINITY_BITS)
            }
        } else {
            signed(negative, rounded_magnitude(self.magnitude() * other.magnitude(), unit()))
        }
    }

    /// The quotient, rounded.
    pub open spec fn spec_over(self, other: Double) -> Double {
        let negative = self.spec_is_sign_negative() != other.spec_is_sign_negative();
        if self.spec_is_nan() || other.spec_is_nan() {
            Double { bits: NAN_BITS }
        } else if self.spec_is_infinite() {
            if other.spec_is_infinite() {
                Double { bits: NAN_BITS }
            } else {
                signed(negative, INFINITY_BITS)
            }
        } else if other.spec_is_infinite() {
            signed(negative, 0)
        } else if other.spec_is_zero() {
            if self.spec_is_zero() {
                Double { bits: NAN_BITS }
            } else {
                signed(negative, INFINITY_BITS)
            }
        } else {
            signed(negative, rounded_magnitude(self.magnitude() * unit(), other.magnitude()))
        }
    }

    /// The sum, rounded. A sum of zero is positive, unless both numbers are
    /// negative.
    pub open spec fn spec_plus(self, other: Double) -> Double {
        if self.spec_is_nan() || other.spec_is_nan() {
            Double { bits: NAN_BITS }
        } else if self.spec_is_infinite() {
            if other.spec_is_infinite() && self.spec_is_sign_negative()
                != other.spec_is_sign_negative() {
                Double { bits: NAN_BITS }
            } else {
                self
            }
        } else if other.spec_is_infinite() {
            other
        } else {
            let sum = self.scaled() + other.scaled();
            if sum == 0 {
                signed(self.spec_is_sign_negative() && other.spec_is_sign_negative(), 0)
            } else {
                signed(sum < 0, rounded_magnitude(absolute(sum), 1))
            }
        }
    }

    /// The difference, rounded: the sum with the opposite of `other`.
    pub open spec fn spec_minus(self, other: Double) -> Double {
        self.spec_plus(other.spec_negated())
    }

    /// Whether the number is plus or minus zero.
    #[verifier::when_used_as_spec(spec_is_zero)]
    pub fn is_zero(self) -> (r: bool)
        ensures
            r == self.spec_is_zero(),
    {
        self.bits % SIGN_BIT == 0
    }

    /// The number with the opposite sign.
    #[verifier::when_used_as_spec(spec_negated)]
    pub fn negated(self) -> (r: Double)
        ensures
            r == self.spec_negated(),
    {
        if self.bits >= SIGN_BIT {
            Double { bits: self.bits - SIGN_BIT }
        } else {
            Double { bits: self.bits + SIGN_BIT }
        }
    }

    /// The significand and the last place of a finite number: the magnitude
    /// is the significand times two to the last place.
    fn parts(self) -> (r: (u64, u64))
        requires
            self.spec_is_finite(),
        ensures
            r.0 * pow2(r.1 as nat) == self.magnitude(),
            r.0 < SIGNIFICAND_LIMIT,
            r.1 <= 2045,
            r.1 > 0 ==> r.0 >= HIDDEN_BIT,
            r.0 == 0 <==> self.spec_is_zero(),
            self.magnitude_bits() == r.1 * HIDDEN_BIT + r.0,
    {
        let pattern: u64 = self.bits % SIGN_BIT;
        let field: u64 = pattern / HIDDEN_BIT;
        let fraction: u64 = pattern % HIDDEN_BIT;
        proof {
            lemma2_to64();
            lemma_fundamental_div_mod(pattern as int, HIDDEN_BIT as int);
        }
        if field == 0 {
            proof {
                lemma_mul_basics(fraction as int);
            }
            (fraction, 0)
        } else {
            (HIDDEN_BIT + fraction, field - 1)
        }
    }

    /// The product, rounded.
    #[verifier::when_used_as_spec(spec_times)]
    pub fn times(self, other: Double) -> (r: Double)
        ensures
            r == self.spec_times(other),
            r.spec_is_nan() <==> self.spec_is_nan() || other.spec_is_nan() || (
            self.spec_is_infinite() && other.spec_is_zero()) || (self.spec_is_zero()
                && other.spec_is_infinite()),
    {
        if self.is_nan() || other.is_nan() {
            return Double { bits: NAN_BITS };
        }
        let negative: bool = self.is_sign_negative() != other.is_sign_negative();
        if self.is_infinite() || other.is_infinite() {
            if self.is_zero() || other.is_zero() {
                return Double { bits: NAN_BITS };
            }
            return with_sign(negative, INFINITY_BITS);
        }
        let (ma, ea) = self.parts();
        let (mb, eb) = other.parts();
        proof {
            assert(ma * mb < 0x0020_0000_0000_0000 * 0x0020_0000_0000_0000) by (nonlinear_arith)
                requires
                    0 <= ma < 0x0020_0000_0000_0000,
                    0 <= mb < 0x0020_0000_0000_0000,
            ;
        }
        let p: u128 = (ma as u128) * (mb as u128);
        let t: i64 = (ea as i64) + (eb as i64) - 1074;
        let ghost num = self.magnitude() * other.magnitude();
        proof {
            lemma_pow2_pos(1074);
            lemma_product_is_exact(ma as int, ea as nat, mb as int, eb as nat);
            lemma_exact_brackets(p as int, t as int, num, unit());
        }
        let m = round_pattern(p, false, t, Ghost(num), Ghost(unit()));
        proof {
            lemma_rounded(num, unit(), m);
        }
        with_sign(negative, m)
    }

    /// The quotient, rounded.
    #[verifier::when_used_as_spec(spec_over)]
    pub fn over(self, other: Double) -> (r: Double)
        ensures
            r == self.spec_over(other),
            r.spec_is_nan() <==> self.spec_is_nan() || other.spec_is_nan() || (
            self.spec_is_infinite() && other.spec_is_infinite()) || (self.spec_is_zero()
                && other.spec_is_zero()),
    {
        if self.is_nan() || other.is_nan() {
            return Double { bits: NAN_BITS };
        }
        let negative: bool = self.is_sign_negative() != other.is_sign_negative();
        if self.is_infinite() {
            if other.is_infinite() {
                return Double { bits: NAN_BITS };
            }
            return with_sign(negative, INFINITY_BITS);
        }
        if other.is_infinite() {
            return with_sign(negative, 0);
        }
        if other.is_zero() {
            if self.is_zero() {
                return Double { bits: NAN_BITS };
            }
            return with_sign(negative, INFINITY_BITS);
        }
        let (ma, ea) = self.parts();
        let (mb, eb) = other.parts();
        let ghost num = self.magnitude() * unit();
        let ghost den = other.magnitude();
        proof {
            lemma_pow2_pos(eb as nat);
            lemma_pow2_pos(1074);
            assert(den > 0) by (nonlinear_arith)
                requires
                    den == mb * pow2(eb as nat),
                    mb > 0,
                    pow2(eb as nat) > 0,
            ;
        }
        if ma == 0 {
            proof {
                lemma_pattern_of(0, 0);
                lemma_mul_basics(den);
                lemma_mul_basics(unit());
                lemma_rounds_exact(num, den, 0);
                lemma_rounded(num, den, 0);
            }
            return with_sign(negative, 0);
        }
        // Bring the significand of the dividend to 53 bits.
        let mut wide: u64 = ma;
        let mut lift: u64 = 0;
        proof {
            lemma2_to64();
            lemma_mul_basics(ma as int);
        }
        while wide < HIDDEN_BIT
            invariant
                0 < wide < SIGNIFICAND_LIMIT,
                lift <= 52,
                wide == ma * pow2(lift as nat),
                wide >= pow2(lift as nat),
            decreases 52 - lift,
        {
            proof {
                lemma_pow2_unfold((lift + 1) as nat);
                lemma2_to64_rest();
                if lift == 52 {
                    assert(false);
                }
                assert(2 * wide == ma * (2 * pow2(lift as nat))) by (nonlinear_arith)
                    requires
                        wide == ma * pow2(lift as nat),
                ;
            }
            wide = wide * 2;
            lift = lift + 1;
        }
        proof {
            lemma2_to64_rest();
        }
        let dividend: u128 = (wide as u128) * 0x0100_0000_0000_0000;
        let quotient: u128 = dividend / (mb as u128);
        let remainder: u128 = dividend % (mb as u128);
        let t: i64 = (ea as i64) - (eb as i64) - (lift as i64) + 1018;
        proof {
            lemma_fundamental_div_mod(dividend as int, mb as int);
            lemma_quotient_is_wide(dividend as int, mb as int);
            lemma_quotient_brackets(
                ma as int,
                ea as nat,
                mb as int,
                eb as nat,
                lift as nat,
                quotient as int,
                remainder as int,
            );
        }
        let m = round_pattern(quotient, remainder != 0, t, Ghost(num), Ghost(den));
        proof {
            lemma_rounded(num, den, m);
        }
        with_sign(negative, m)
    }

    /// The sum, rounded.
    #[verifier::when_used_as_spec(spec_plus)]
    pub fn plus(self, other: Double) -> (r: Double)
        ensures
            r == self.spec_plus(other),
            r.spec_is_nan() <==> self.spec_is_nan() || other.spec_is_nan() || (
            self.spec_is_infinite() && other.spec_is_infinite() && self.spec_is_sign_negative()
                != other.spec_is_sign_negative()),
    {
        if self.is_nan() || other.is_nan() {
            return Double { bits: NAN_BITS };
        }
        if self.is_infinite() {
            if other.is_infinite() && self.is_sign_negative() != other.is_sign_negative() {
                return Double { bits: NAN_BITS };
            }
            return self;
        }
        if other.is_infinite() {
            return other;
        }
        let (ma, ea) = self.parts();
        let (mb, eb) = other.parts();
        if ea >= eb {
            finite_sum(self.is_sign_negative(), ma, ea, other.is_sign_negative(), mb, eb)
        } else {
            finite_sum(other.is_sign_negative(), mb, eb, self.is_sign_negative(), ma, ea)
        }
    }

    /// The difference, rounded.
    #[verifier::when_used_as_spec(spec_minus)]
    pub fn minus(self, other: Double) -> (r: Double)
        ensures
            r == self.spec_minus(other),
            r.spec_is_nan() <==> self.spec_is_nan() || other.spec_is_nan() || (
            self.spec_is_infinite() && other.spec_is_infinite() && self.spec_is_sign_negative()
                == other.spec_is_sign_negative()),
    {
        self.plus(other.negated())
    }
}

/// The double with a sign and a pattern without sign.
fn with_sign(negative: bool, pattern: u64) -> (r: Double)
    requires
        pattern <= INFINITY_BITS,
    ensures
        r == signed(negative, pattern),
        !r.spec_is_nan(),
{
    if negative {
        Double { bits: SIGN_BIT + pattern }
    } else {
        Double { bits: pattern }
    }
}

/// The number with a sign, a significand and a last place, in steps.
pub open spec fn value_of(negative: bool, significand: int, place: nat) -> int {
    if negative {
        -(significand * pow2(place))
    } else {
        significand * pow2(place)
    }
}

/// What the sum of two finite numbers is, by their parts.
pub open spec fn sum_of(
    negative_a: bool,
    ma: int,
    ea: nat,
    negative_b: bool,
    mb: int,
    eb: nat,
) -> Double {
    let sum = value_of(negative_a, ma, ea) + value_of(negative_b, mb, eb);
    if sum == 0 {
        signed(negative_a && negative_b, 0)
    } else {
        signed(sum < 0, rounded_magnitude(absolute(sum), 1))
    }
}

/// The sum of two finite numbers, the first with the larger last place.
fn finite_sum(negative_a: bool, ma: u64, ea: u64, negative_b: bool, mb: u64, eb: u64) -> (r:
    Double)
    requires
        ma < SIGNIFICAND_LIMIT,
        mb < SIGNIFICAND_LIMIT,
        eb <= ea <= 2045,
        ea > 0 ==> ma >= HIDDEN_BIT,
        eb > 0 ==> mb >= HIDDEN_BIT,
    ensures
        r == sum_of(negative_a, ma as int, ea as nat, negative_b, mb as int, eb as nat),
        !r.spec_is_nan(),
{
    if ea - eb <= 64 {
        near_sum(negative_a, ma, ea, negative_b, mb, eb)
    } else {
        far_sum(negative_a, ma, ea, negative_b, mb, eb)
    }
}

/// The sum of two finite numbers whose last places are 64 apart at most: the
/// significands are added or subtracted exactly, then rounded.
fn near_sum(negative_a: bool, ma: u64, ea: u64, negative_b: bool, mb: u64, eb: u64) -> (r:
    Double)
    requires
        ma < SIGNIFICAND_LIMIT,
        mb < SIGNIFICAND_LIMIT,
        eb <= ea <= 2045,
        ea - eb <= 64,
    ensures
        r == sum_of(negative_a, ma as int, ea as nat, negative_b, mb as int, eb as nat),
        !r.spec_is_nan(),
{
    let gap: u64 = ea - eb;
    let ghost a = value_of(negative_a, ma as int, ea as nat);
    let ghost b = value_of(negative_b, mb as int, eb as nat);
    let factor: u128 = power_of_two(gap as u32);
    proof {
        lemma_pow2_pos(eb as nat);
        lemma_pow2_adds(gap as nat, eb as nat);
        lemma2_to64();
        if gap < 64 {
            lemma_pow2_strictly_increases(gap as nat, 64);
        }
        assert(ma * factor <= 0x0020_0000_0000_0000 * 0x1_0000_0000_0000_0000)
            by (nonlinear_arith)
            requires
                0 <= ma < 0x0020_0000_0000_0000,
                0 < factor <= 0x1_0000_0000_0000_0000,
        ;
    }
    let wide: u128 = (ma as u128) * factor;
    let small: u128 = mb as u128;
    let (negative, total): (bool, u128) = if negative_a == negative_b {
        (negative_a, wide + small)
    } else if wide >= small {
        (negative_a, wide - small)
    } else {
        (negative_b, small - wide)
    };
    proof {
        lemma_near_sum(
            negative_a,
            ma as int,
            ea as nat,
            negative_b,
            mb as int,
            eb as nat,
            wide as int,
            negative,
            total as int,
        );
    }
    if total == 0 {
        return with_sign(negative_a && negative_b, 0);
    }
    let ghost num = absolute(a + b);
    proof {
        lemma_mul_basics(pow2(eb as nat) as int);
        lemma_exact_brackets(total as int, eb as int, num, 1);
    }
    let m = round_pattern(total, false, eb as i64, Ghost(num), Ghost(1));
    proof {
        lemma_rounded(num, 1, m);
    }
    with_sign(negative, m)
}

/// The exact sum of two finite numbers by their significands, the first
/// widened to the last place of the second.
proof fn lemma_near_sum(
    negative_a: bool,
    ma: int,
    ea: nat,
    negative_b: bool,
    mb: int,
    eb: nat,
    wide: int,
    negative: bool,
    total: int,
)
    requires
        0 <= ma,
        0 <= mb,
        eb <= ea,
        wide == ma * pow2((ea - eb) as nat),
        negative_a == negative_b ==> negative == negative_a && total == wide + mb,
        negative_a != negative_b && wide >= mb ==> negative == negative_a && total == wide - mb,
        negative_a != negative_b && wide < mb ==> negative == negative_b && total == mb - wide,
    ensures
        total >= 0,
        total * pow2(eb) == absolute(
            value_of(negative_a, ma, ea) + value_of(negative_b, mb, eb),
        ),
        total == 0 <==> value_of(negative_a, ma, ea) + value_of(negative_b, mb, eb) == 0,
        total > 0 ==> (negative <==> value_of(negative_a, ma, ea) + value_of(negative_b, mb, eb)
            < 0),
{
    let scale = pow2(eb) as int;
    lemma_pow2_pos(eb);
    lemma_pow2_pos((ea - eb) as nat);
    lemma_pow2_adds((ea - eb) as nat, eb);
    assert(wide * scale == ma * pow2(ea)) by (nonlinear_arith)
        requires
            wide == ma * pow2((ea - eb) as nat),
            pow2((ea - eb) as nat) * scale == pow2(ea),
    ;
    assert(wide >= 0) by (nonlinear_arith)
        requires
            wide == ma * pow2((ea - eb) as nat),
            ma >= 0,
            pow2((ea - eb) as nat) > 0,
    ;
    assert((wide + mb) * scale == wide * scale + mb * scale) by (nonlinear_arith);
    assert((wide - mb) * scale == wide * scale - mb * scale) by (nonlinear_arith);
    assert((mb - wide) * scale == mb * scale - wide * scale) by (nonlinear_arith);
    assert(total > 0 ==> total * scale > 0) by (nonlinear_arith)
        requires
            scale > 0,
    ;
    assert(total == 0 ==> total * scale == 0) by (nonlinear_arith);
    assert(wide * scale >= 0 && mb * scale >= 0) by (nonlinear_arith)
        requires
            wide >= 0,
            mb >= 0,
            scale > 0,
    ;
}

/// The sum of two finite numbers whose last places are more than 64 apart.
/// The second is too small to reach the bits of the first: it only says on
/// which side of the first the sum lies.
fn far_sum(negative_a: bool, ma: u64, ea: u64, negative_b: bool, mb: u64, eb: u64) -> (r: Double)
    requires
        ma < SIGNIFICAND_LIMIT,
        mb < SIGNIFICAND_LIMIT,
        eb + 64 < ea <= 2045,
        ea > 0 ==> ma >= HIDDEN_BIT,
    ensures
        r == sum_of(negative_a, ma as int, ea as nat, negative_b, mb as int, eb as nat),
        !r.spec_is_nan(),
{
    let ghost a = value_of(negative_a, ma as int, ea as nat);
    let ghost b = value_of(negative_b, mb as int, eb as nat);
    let ghost num = absolute(a + b);
    proof {
        lemma_pow2_pos(ea as nat);
        lemma_pow2_pos(eb as nat);
        lemma_far_apart(ma as int, ea as nat, mb as int, eb as nat);
        assert(ma * pow2(ea as nat) > 0) by (nonlinear_arith)
            requires
                ma > 0,
                pow2(ea as nat) > 0,
        ;
    }
    if mb == 0 {
        let m: u64 = ea * HIDDEN_BIT + ma;
        proof {
            lemma_mul_basics(pow2(eb as nat) as int);
            lemma_pattern_of(ma, ea);
            lemma_mul_basics(pattern_magnitude(m));
            lemma_rounds_exact(num, 1, m);
            lemma_rounded(num, 1, m);
        }
        return with_sign(negative_a, m);
    }
    let p: u128 = if negative_a == negative_b {
        (ma as u128) * 8
    } else {
        (ma as u128) * 8 - 1
    };
    let t: i64 = (ea as i64) - 3;
    proof {
        let high = ma * pow2(ea as nat);
        let low = mb * pow2(eb as nat);
        let eighth = pow2((ea - 3) as nat) as int;
        assert(low > 0) by (nonlinear_arith)
            requires
                low == mb * pow2(eb as nat),
                mb > 0,
                pow2(eb as nat) > 0,
        ;
        assert(ma * 8 * eighth == high) by (nonlinear_arith)
            requires
                8 * eighth == pow2(ea as nat),
                high == ma * pow2(ea as nat),
        ;
        assert((ma * 8 - 1) * eighth == high - eighth) by (nonlinear_arith)
            requires
                ma * 8 * eighth == high,
        ;
        assert((ma * 8 + 1) * eighth == high + eighth) by (nonlinear_arith)
            requires
                ma * 8 * eighth == high,
        ;
        lemma_mul_basics(eighth);
        assert(p * (eighth * 1) < num < (p + 1) * (eighth * 1));
        assert(negative_a == (a + b < 0));
    }
    let m = round_pattern(p, true, t, Ghost(num), Ghost(1));
    proof {
        lemma_rounded(num, 1, m);
    }
    with_sign(negative_a, m)
}

/// A value that is `p * 2^t` exactly lies in the bracket of `p` and `t`.
proof fn lemma_exact_brackets(p: int, t: int, num: int, den: int)
    requires
        den > 0,
        exactly(p, t, num, den),
    ensures
        brackets(p, t, num, den),
{
    if t >= 0 {
        lemma_pow2_pos(t as nat);
        let grain = pow2(t as nat) * den;
        assert(grain > 0) by (nonlinear_arith)
            requires
                grain == pow2(t as nat) * den,
                pow2(t as nat) > 0,
                den > 0,
        ;
        assert((p + 1) * grain == p * grain + grain) by (nonlinear_arith);
    } else {
        assert((p + 1) * den == p * den + den) by (nonlinear_arith);
    }
}

/// The product of two magnitudes, over the unit, is the product of the
/// significands times two to the sum of the last places less 1074.
proof fn lemma_product_is_exact(ma: int, ea: nat, mb: int, eb: nat)
    ensures
        exactly(ma * mb, ea + eb - 1074, (ma * pow2(ea)) * (mb * pow2(eb)), unit()),
{
    let t = ea + eb - 1074;
    lemma_pow2_adds(ea, eb);
    assert((ma * pow2(ea)) * (mb * pow2(eb)) == (ma * mb) * (pow2(ea) * pow2(eb)))
        by (nonlinear_arith);
    if t >= 0 {
        lemma_pow2_adds(t as nat, 1074);
    } else {
        lemma_pow2_adds(ea + eb, (-t) as nat);
        assert((ma * mb) * pow2(1074) == ((ma * mb) * pow2(ea + eb)) * pow2((-t) as nat))
            by (nonlinear_arith)
            requires
                pow2(1074) == pow2(ea + eb) * pow2((-t) as nat),
        ;
    }
}

/// A dividend of 109 bits over a divisor of 53 bits at most has 55 bits or
/// more, and fewer than 127.
proof fn lemma_quotient_is_wide(dividend: int, divisor: int)
    requires
        0 < divisor < 0x0020_0000_0000_0000,
        0x0010_0000_0000_0000 * 0x0100_0000_0000_0000 <= dividend < 0x0020_0000_0000_0000
            * 0x0100_0000_0000_0000,
    ensures
        0x0040_0000_0000_0000 <= dividend / divisor < 0x4000_0000_0000_0000_0000_0000_0000_0000,
{
    lemma_fundamental_div_mod(dividend, divisor);
    lemma_mod_bound(dividend, divisor);
    let q = dividend / divisor;
    assert(q >= 0x0040_0000_0000_0000) by (nonlinear_arith)
        requires
            dividend == divisor * q + dividend % divisor,
            dividend % divisor < divisor,
            0 < divisor < 0x0020_0000_0000_0000,
            0x0010_0000_0000_0000 * 0x0100_0000_0000_0000 <= dividend,
    ;
    assert(q <= dividend) by (nonlinear_arith)
        requires
            dividend == divisor * q + dividend % divisor,
            0 <= dividend % divisor,
            0 < divisor,
            q >= 0,
    ;
}

/// The quotient of the widened significands brackets the quotient of the
/// magnitudes.
proof fn lemma_quotient_brackets(
    ma: int,
    ea: nat,
    mb: int,
    eb: nat,
    lift: nat,
    quotient: int,
    remainder: int,
)
    requires
        ma > 0,
        mb > 0,
        (ma * pow2(lift)) * 0x0100_0000_0000_0000 == mb * quotient + remainder,
        0 <= remainder < mb,
        ea <= 2045,
        eb <= 2045,
        lift <= 52,
    ensures
        brackets(
            quotient,
            ea - eb - lift + 1018,
            (ma * pow2(ea)) * unit(),
            mb * pow2(eb),
        ),
        remainder == 0 <==> exactly(
            quotient,
            ea - eb - lift + 1018,
            (ma * pow2(ea)) * unit(),
            mb * pow2(eb),
        ),
{
    let t = ea - eb - lift + 1018;
    let num = (ma * pow2(ea)) * unit();
    let den = mb * pow2(eb);
    let dividend = (ma * pow2(lift)) * 0x0100_0000_0000_0000;
    lemma2_to64_rest();
    lemma_pow2_adds(lift, 56);
    assert(dividend == ma * pow2(lift + 56)) by (nonlinear_arith)
        requires
            dividend == (ma * pow2(lift)) * 0x0100_0000_0000_0000,
            pow2(lift + 56) == pow2(lift) * 0x0100_0000_0000_0000,
    ;
    lemma_pow2_adds(ea, 1074);
    assert(num == ma * pow2(ea + 1074)) by (nonlinear_arith)
        requires
            num == (ma * pow2(ea)) * pow2(1074),
            pow2(ea + 1074) == pow2(ea) * pow2(1074),
    ;
    // On a common scale the value is the dividend and the divisor is `mb`.
    let scale: nat = if t >= 0 {
        (eb + t) as nat
    } else {
        eb
    };
    let s = pow2(scale) as int;
    lemma_pow2_pos(scale);
    lemma_pow2_adds(lift + 56, scale);
    if t >= 0 {
        lemma_pow2_adds(eb, t as nat);
        assert(dividend * s == num) by (nonlinear_arith)
            requires
                dividend == ma * pow2(lift + 56),
                num == ma * pow2(ea + 1074),
                pow2(lift + 56) * s == pow2(ea + 1074),
        ;
        assert(pow2(t as nat) * den == mb * s) by (nonlinear_arith)
            requires
                den == mb * pow2(eb),
                s == pow2(eb) * pow2(t as nat),
        ;
    } else {
        lemma_pow2_adds(ea + 1074, (-t) as nat);
        assert(dividend * s == num * pow2((-t) as nat)) by (nonlinear_arith)
            requires
                dividend == ma * pow2(lift + 56),
                num == ma * pow2(ea + 1074),
                pow2(lift + 56) * s == pow2(ea + 1074) * pow2((-t) as nat),
        ;
    }
    let grain = mb * s;
    assert(grain > 0) by (nonlinear_arith)
        requires
            grain == mb * s,
            mb > 0,
            s > 0,
    ;
    assert(dividend * s == quotient * grain + remainder * s) by (nonlinear_arith)
        requires
            dividend == mb * quotient + remainder,
            grain == mb * s,
    ;
    assert(0 <= remainder * s < grain) by (nonlinear_arith)
        requires
            0 <= remainder < mb,
            grain == mb * s,
            s > 0,
    ;
    assert((quotient + 1) * grain == quotient * grain + grain) by (nonlinear_arith);
    assert(remainder == 0 <==> remainder * s == 0) by (nonlinear_arith)
        requires
            0 <= remainder,
            s > 0,
    ;
    if t >= 0 {
        assert(quotient * (pow2(t as nat) * den) == quotient * grain);
        assert((quotient + 1) * (pow2(t as nat) * den) == (quotient + 1) * grain);
    } else {
        assert(quotient * den == quotient * grain);
        assert((quotient + 1) * den == (quotient + 1) * grain);
    }
}

/// With last places more than 64 apart, the smaller number is less than an
/// eighth of the last place of the larger, which is a normal number.
proof fn lemma_far_apart(ma: int, ea: nat, mb: int, eb: nat)
    requires
        0 <= mb < SIGNIFICAND_LIMIT,
        ea > eb + 64,
        ea > 0 ==> ma >= HIDDEN_BIT,
    ensures
        ma >= HIDDEN_BIT,
        mb * pow2(eb) < pow2((ea - 3) as nat),
        8 * pow2((ea - 3) as nat) == pow2(ea),
{
    lemma2_to64_rest();
    lemma2_to64();
    lemma_pow2_adds(53, eb);
    lemma_pow2_strictly_increases(53 + eb, (ea - 3) as nat);
    lemma_pow2_adds(3, (ea - 3) as nat);
    lemma_pow2_pos(eb);
    assert(mb * pow2(eb) < pow2(53) * pow2(eb)) by (nonlinear_arith)
        requires
            mb < pow2(53),
            pow2(eb) > 0,
    ;
}

} // verus!
