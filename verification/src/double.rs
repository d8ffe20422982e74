//! Double-precision numbers held as their IEEE 754 bit patterns.
//!
//! Every finite double is an integer multiple of `2^-1074`, so a number is
//! modelled by that integer, [`Double::scaled`]. Ordering two numbers is
//! ordering their scaled integers; the executable tests work on the bit pattern
//! alone and are proved to agree with that order.

use vstd::arithmetic::div_mod::*;
use vstd::arithmetic::mul::*;
use vstd::arithmetic::power2::*;
use vstd::prelude::*;

verus! {

/// The sign bit of a bit pattern.
pub const SIGN_BIT: u64 = 0x8000_0000_0000_0000;

/// The bit pattern of positive infinity: all exponent bits set, no fraction.
pub const INFINITY_BITS: u64 = 0x7ff0_0000_0000_0000;

/// `2^52`: the weight of the exponent field, and the implicit leading bit of a
/// normal number's significand.
pub const HIDDEN_BIT: u64 = 0x0010_0000_0000_0000;

/// The exponent field of the doubles in `[1, 2)`, plus the 52 fraction bits:
/// a normal number whose exponent field is at least this is an integer.
pub const INTEGRAL_EXPONENT: u64 = 1075;

/// A double-precision number, as its bit pattern.
#[derive(Clone, Copy, Debug, PartialEq, Eq, Structural)]
pub struct Double {
    pub bits: u64,
}

/// `2^1074`: the number of smallest steps in one unit.
pub open spec fn unit() -> int {
    pow2(1074) as int
}

impl Double {
    /// The bit pattern without its sign bit.
    pub open spec fn magnitude_bits(self) -> u64 {
        (self.bits % SIGN_BIT) as u64
    }

    pub open spec fn spec_is_sign_negative(self) -> bool {
        self.bits >= SIGN_BIT
    }

    pub open spec fn spec_is_nan(self) -> bool {
        self.magnitude_bits() > INFINITY_BITS
    }

    pub open spec fn spec_is_infinite(self) -> bool {
        self.magnitude_bits() == INFINITY_BITS
    }

    pub open spec fn spec_is_finite(self) -> bool {
        self.magnitude_bits() < INFINITY_BITS
    }

    /// The exponent field, `0..=2047`.
    pub open spec fn exponent_field(self) -> nat {
        (self.magnitude_bits() / HIDDEN_BIT) as nat
    }

    /// The fraction field, below `2^52`.
    pub open spec fn fraction_field(self) -> nat {
        (self.magnitude_bits() % HIDDEN_BIT) as nat
    }

    /// The absolute value in steps of `2^-1074`. For an infinity the same
    /// formula gives `2^2098`, above every finite magnitude.
    pub open spec fn magnitude(self) -> int {
        if self.exponent_field() == 0 {
            self.fraction_field() as int
        } else {
            (HIDDEN_BIT + self.fraction_field()) * pow2((self.exponent_field() - 1) as nat)
        }
    }

    /// The number in steps of `2^-1074`; meaningful unless the number is a NaN.
    pub open spec fn scaled(self) -> int {
        if self.spec_is_sign_negative() {
            -self.magnitude()
        } else {
            self.magnitude()
        }
    }

    /// IEEE `<`: false when either side is a NaN.
    pub open spec fn spec_lt(self, other: Double) -> bool {
        !self.spec_is_nan() && !other.spec_is_nan() && self.scaled() < other.scaled()
    }

    /// IEEE `<=`: false when either side is a NaN.
    pub open spec fn spec_le(self, other: Double) -> bool {
        !self.spec_is_nan() && !other.spec_is_nan() && self.scaled() <= other.scaled()
    }

    /// IEEE `>`: false when either side is a NaN.
    pub open spec fn spec_gt(self, other: Double) -> bool {
        other.spec_lt(self)
    }

    /// IEEE `>=`: false when either side is a NaN.
    pub open spec fn spec_ge(self, other: Double) -> bool {
        other.spec_le(self)
    }

    /// The number is finite and a whole number.
    pub open spec fn spec_is_integer(self) -> bool {
        self.spec_is_finite() && self.scaled() % unit() == 0
    }

    /// The number is finite and equal to the integer `n`.
    pub open spec fn equals_int(self, n: int) -> bool {
        self.spec_is_finite() && self.scaled() == n * unit()
    }

    /// The number is finite and lies in the closed interval `[low, high]`.
    pub open spec fn within_ints(self, low: int, high: int) -> bool {
        self.spec_is_finite() && low * unit() <= self.scaled() <= high * unit()
    }

    /// The number is finite and at least `low`.
    pub open spec fn at_least_int(self, low: int) -> bool {
        self.spec_is_finite() && low * unit() <= self.scaled()
    }

    /// The number is finite and greater than `low`.
    pub open spec fn above_int(self, low: int) -> bool {
        self.spec_is_finite() && low * unit() < self.scaled()
    }

    pub fn from_bits(bits: u64) -> (r: Double)
        ensures
            r.bits == bits,
    {
        Double { bits }
    }

    pub fn to_bits(self) -> (r: u64)
        ensures
            r == self.bits,
    {
        self.bits
    }

    #[verifier::when_used_as_spec(spec_is_sign_negative)]
    pub fn is_sign_negative(self) -> (r: bool)
        ensures
            r == self.spec_is_sign_negative(),
    {
        self.bits >= SIGN_BIT
    }

    #[verifier::when_used_as_spec(spec_is_nan)]
    pub fn is_nan(self) -> (r: bool)
        ensures
            r == self.spec_is_nan(),
    {
        self.bits % SIGN_BIT > INFINITY_BITS
    }

    #[verifier::when_used_as_spec(spec_is_infinite)]
    pub fn is_infinite(self) -> (r: bool)
        ensures
            r == self.spec_is_infinite(),
    {
        self.bits % SIGN_BIT == INFINITY_BITS
    }

    #[verifier::when_used_as_spec(spec_is_finite)]
    pub fn is_finite(self) -> (r: bool)
        ensures
            r == self.spec_is_finite(),
    {
        self.bits % SIGN_BIT < INFINITY_BITS
    }

    /// IEEE `<`.
    #[verifier::when_used_as_spec(spec_lt)]
    pub fn lt(self, other: Double) -> (r: bool)
        ensures
            r == self.spec_lt(other),
    {
        if self.is_nan() || other.is_nan() {
            return false;
        }
        let a: u64 = self.bits % SIGN_BIT;
        let b: u64 = other.bits % SIGN_BIT;
        proof {
            let zero = Double { bits: 0 };
            if a < b {
                lemma_magnitude_order(self, other);
            }
            if b < a {
                lemma_magnitude_order(other, self);
            }
            if 0 < a {
                lemma_magnitude_order(zero, self);
            }
            if 0 < b {
                lemma_magnitude_order(zero, other);
            }
        }
        if self.is_sign_negative() {
            if other.is_sign_negative() {
                b < a
            } else {
                a != 0 || b != 0
            }
        } else {
            !other.is_sign_negative() && a < b
        }
    }

    /// IEEE `<=`.
    #[verifier::when_used_as_spec(spec_le)]
    pub fn le(self, other: Double) -> (r: bool)
        ensures
            r == self.spec_le(other),
    {
        if self.is_nan() || other.is_nan() {
            return false;
        }
        !other.lt(self)
    }

    /// IEEE `>`.
    #[verifier::when_used_as_spec(spec_gt)]
    pub fn gt(self, other: Double) -> (r: bool)
        ensures
            r == self.spec_gt(other),
    {
        other.lt(self)
    }

    /// IEEE `>=`.
    #[verifier::when_used_as_spec(spec_ge)]
    pub fn ge(self, other: Double) -> (r: bool)
        ensures
            r == self.spec_ge(other),
    {
        other.le(self)
    }

    /// The double equal to `n`, with the sign of `n`.
    pub open spec fn spec_from_int(n: i32) -> Double {
        choose|d: Double| d.equals_int(n as int) && (d.bits < SIGN_BIT <==> n >= 0)
    }

    /// The double equal to `n`. Every 32-bit integer has one.
    #[verifier::when_used_as_spec(spec_from_int)]
    pub fn from_int(n: i32) -> (r: Double)
        ensures
            r.equals_int(n as int),
            r.bits < SIGN_BIT <==> n >= 0,
            r == Double::spec_from_int(n),
    {
        let r = Double::int_pattern(n);
        proof {
            lemma_same_number(r, Double::spec_from_int(n));
        }
        r
    }

    fn int_pattern(n: i32) -> (r: Double)
        ensures
            r.equals_int(n as int),
            r.bits < SIGN_BIT <==> n >= 0,
    {
        if n == 0 {
            proof {
                lemma_mul_basics(unit());
            }
            return Double { bits: 0 };
        }
        let negative: bool = n < 0;
        let mut significand: u64 = if negative {
            (-(n as i64)) as u64
        } else {
            n as u64
        };
        let ghost size: int = significand as int;
        let mut exponent: u64 = INTEGRAL_EXPONENT;
        while significand < HIDDEN_BIT
            invariant
                1 <= size,
                0 < significand < 2 * HIDDEN_BIT,
                1023 <= exponent <= INTEGRAL_EXPONENT,
                significand * pow2((exponent - 1) as nat) == size * unit(),
            decreases exponent,
        {
            proof {
                lemma_pow2_unfold((exponent - 1) as nat);
                assert(significand * (2 * pow2((exponent - 2) as nat)) == (2 * significand) * pow2(
                    (exponent - 2) as nat,
                )) by (nonlinear_arith);
                if exponent == 1023 {
                    // The significand started at one or more and doubled 52 times.
                    lemma_pow2_adds(52, 1022);
                    lemma2_to64_rest();
                    lemma_pow2_pos(1022);
                    assert(size * (pow2(52) * pow2(1022)) == (size * pow2(52)) * pow2(1022))
                        by (nonlinear_arith);
                    assert(significand >= HIDDEN_BIT) by (nonlinear_arith)
                        requires
                            significand * pow2(1022) == (size * pow2(52)) * pow2(1022),
                            size >= 1,
                            pow2(52) == HIDDEN_BIT,
                            pow2(1022) > 0,
                    ;
                }
            }
            significand = significand * 2;
            exponent = exponent - 1;
        }
        let magnitude_bits: u64 = exponent * HIDDEN_BIT + (significand - HIDDEN_BIT);
        let bits: u64 = if negative {
            SIGN_BIT + magnitude_bits
        } else {
            magnitude_bits
        };
        let r = Double { bits };
        proof {
            assert(r.magnitude_bits() == magnitude_bits);
            assert(r.exponent_field() == exponent) by {
                lemma_fundamental_div_mod_converse(
                    magnitude_bits as int,
                    HIDDEN_BIT as int,
                    exponent as int,
                    (significand - HIDDEN_BIT) as int,
                );
            }
            assert(r.fraction_field() == significand - HIDDEN_BIT) by {
                lemma_fundamental_div_mod_converse(
                    magnitude_bits as int,
                    HIDDEN_BIT as int,
                    exponent as int,
                    (significand - HIDDEN_BIT) as int,
                );
            }
            assert(r.magnitude() == size * unit());
            assert((-size) * unit() == -(size * unit())) by (nonlinear_arith);
        }
        r
    }

    /// Whether the number is finite and whole.
    #[verifier::when_used_as_spec(spec_is_integer)]
    pub fn is_integer(self) -> (r: bool)
        ensures
            r == self.spec_is_integer(),
    {
        let magnitude_bits: u64 = self.bits % SIGN_BIT;
        if magnitude_bits >= INFINITY_BITS {
            return false;
        }
        if magnitude_bits == 0 {
            proof {
                lemma_pow2_pos(1074);
                lemma_small_mod(0, pow2(1074));
            }
            return true;
        }
        let field: u64 = magnitude_bits / HIDDEN_BIT;
        let fraction: u64 = magnitude_bits % HIDDEN_BIT;
        if field == 0 {
            proof {
                // A subnormal number is below one step of the integers.
                lemma_pow2_strictly_increases(52, 1074);
                lemma2_to64_rest();
                lemma_small_mod(fraction as nat, pow2(1074));
                lemma_neg_mod_zero(fraction as int, unit());
            }
            return false;
        }
        let mut significand: u64 = HIDDEN_BIT + fraction;
        let mut exponent: u64 = field;
        while exponent < INTEGRAL_EXPONENT && significand % 2 == 0
            invariant
                0 < significand < 2 * HIDDEN_BIT,
                1 <= exponent <= 2046,
                significand * pow2((exponent - 1) as nat) == self.magnitude(),
            decreases significand,
        {
            proof {
                lemma_pow2_unfold(exponent as nat);
                assert((significand / 2) * (2 * pow2((exponent - 1) as nat)) == significand * pow2(
                    (exponent - 1) as nat,
                )) by (nonlinear_arith)
                    requires
                        significand % 2 == 0,
                ;
            }
            significand = significand / 2;
            exponent = exponent + 1;
        }
        proof {
            lemma_pow2_pos(1074);
            lemma_whole_iff(significand as int, (exponent - 1) as nat);
            lemma_neg_mod_zero(self.magnitude(), unit());
        }
        exponent >= INTEGRAL_EXPONENT
    }
}

/// Two doubles that are not NaNs, with the same sign and the same value,
/// are the same double.
pub proof fn lemma_same_number(a: Double, b: Double)
    requires
        !a.spec_is_nan(),
        !b.spec_is_nan(),
        a.spec_is_sign_negative() == b.spec_is_sign_negative(),
        a.scaled() == b.scaled(),
    ensures
        a == b,
{
    if a.magnitude_bits() < b.magnitude_bits() {
        lemma_magnitude_order(a, b);
    }
    if b.magnitude_bits() < a.magnitude_bits() {
        lemma_magnitude_order(b, a);
    }
}

/// Among bit patterns that are not NaNs, a larger pattern (sign aside) is a
/// larger magnitude.
pub proof fn lemma_magnitude_order(a: Double, b: Double)
    requires
        a.magnitude_bits() < b.magnitude_bits() <= INFINITY_BITS,
    ensures
        a.magnitude() < b.magnitude(),
{
    let ea = a.exponent_field();
    let eb = b.exponent_field();
    let fa = a.fraction_field();
    let fb = b.fraction_field();
    let h = HIDDEN_BIT as int;
    lemma_fundamental_div_mod(a.magnitude_bits() as int, HIDDEN_BIT as int);
    lemma_fundamental_div_mod(b.magnitude_bits() as int, HIDDEN_BIT as int);
    assert(ea <= eb) by (nonlinear_arith)
        requires
            h * ea + fa < h * eb + fb,
            fa < h,
            fb < h,
    ;
    if ea == eb {
        if ea != 0 {
            let p = pow2((ea - 1) as nat);
            lemma_pow2_pos((ea - 1) as nat);
            assert((h + fa) * p < (h + fb) * p) by (nonlinear_arith)
                requires
                    fa < fb,
                    p > 0,
            ;
        }
    } else {
        let q = pow2((eb - 1) as nat);
        lemma_pow2_pos((eb - 1) as nat);
        assert(h * q <= (h + fb) * q) by (nonlinear_arith)
            requires
                fb >= 0,
                q > 0,
        ;
        if ea == 0 {
            assert(h <= h * q) by (nonlinear_arith)
                requires
                    h > 0,
                    q > 0,
            ;
        } else {
            let p = pow2((ea - 1) as nat);
            lemma_pow2_pos((ea - 1) as nat);
            lemma_pow2_unfold(ea);
            if ea < eb - 1 {
                lemma_pow2_strictly_increases(ea, (eb - 1) as nat);
            }
            assert((h + fa) * p < h * q) by (nonlinear_arith)
                requires
                    0 <= fa < h,
                    p > 0,
                    2 * p <= q,
            ;
        }
    }
}

/// `significand * 2^exponent`, with the significand odd unless the exponent
/// has reached 1074, is a multiple of `2^1074` exactly when it has.
proof fn lemma_whole_iff(significand: int, exponent: nat)
    requires
        significand > 0,
        exponent < 1074 ==> significand % 2 == 1,
    ensures
        (significand * pow2(exponent)) % unit() == 0 <==> exponent >= 1074,
{
    lemma_pow2_pos(1074);
    if exponent >= 1074 {
        lemma_pow2_adds((exponent - 1074) as nat, 1074);
        assert(significand * (pow2((exponent - 1074) as nat) * pow2(1074)) == (significand * pow2(
            (exponent - 1074) as nat,
        )) * pow2(1074)) by (nonlinear_arith);
        lemma_mod_multiples_basic(significand * pow2((exponent - 1074) as nat), unit());
    } else {
        let low = pow2(exponent) as int;
        let high = pow2((1074 - exponent) as nat) as int;
        lemma_pow2_adds(exponent, (1074 - exponent) as nat);
        lemma_pow2_pos(exponent);
        lemma_pow2_pos(1074);
        lemma_pow2_unfold((1074 - exponent) as nat);
        if (significand * low) % unit() == 0 {
            let k = (significand * low) / unit();
            lemma_fundamental_div_mod(significand * low, unit());
            assert(low * significand == low * (k * high)) by (nonlinear_arith)
                requires
                    significand * low == (low * high) * k,
            ;
            lemma_mul_equality_converse(low, significand, k * high);
            let half = k * pow2((1074 - exponent - 1) as nat);
            assert(significand == 2 * half) by (nonlinear_arith)
                requires
                    significand == k * high,
                    high == 2 * pow2((1074 - exponent - 1) as nat),
                    half == k * pow2((1074 - exponent - 1) as nat),
            ;
        }
    }
}

/// What divides a number divides its negation, and the other way round.
proof fn lemma_neg_mod_zero(x: int, d: int)
    requires
        d > 0,
    ensures
        (-x) % d == 0 <==> x % d == 0,
{
    lemma_fundamental_div_mod(x, d);
    lemma_fundamental_div_mod(-x, d);
    if x % d == 0 {
        lemma_mod_multiples_basic(-(x / d), d);
        assert(-x == (-(x / d)) * d) by (nonlinear_arith)
            requires
                x == d * (x / d),
        ;
    }
    if (-x) % d == 0 {
        lemma_mod_multiples_basic(-((-x) / d), d);
        assert(x == (-((-x) / d)) * d) by (nonlinear_arith)
            requires
                -x == d * ((-x) / d),
        ;
    }
}

} // verus!
