//! Rounding to the nearest double, ties to even.
//!
//! A magnitude is given as an exact fraction `num / den` of steps of
//! `2^-1074`. Among the bit patterns that are not NaNs, sign aside, the
//! rounding is the one whose magnitude is nearest; of two equally near, the
//! one with an even pattern. With infinity counted as `2^2098` steps, this is
//! also the rule by which a magnitude too large for a finite double becomes
//! infinite.

use crate::double::{lemma_magnitude_order, Double, HIDDEN_BIT, INFINITY_BITS};
use vstd::arithmetic::div_mod::*;
use vstd::arithmetic::mul::*;
use vstd::arithmetic::power2::*;
use vstd::prelude::*;

verus! {

/// The magnitude of a bit pattern without sign, in steps.
pub open spec fn pattern_magnitude(m: u64) -> int {
    Double { bits: m }.magnitude()
}

/// How far the magnitude of a pattern lies from `num / den`, times `den`.
pub open spec fn gap(m: u64, num: int, den: int) -> int {
    let d = pattern_magnitude(m) * den - num;
    if d < 0 {
        -d
    } else {
        d
    }
}

/// Whether `m` is the pattern that `num / den` rounds to.
pub open spec fn rounds_to(num: int, den: int, m: u64) -> bool {
    &&& m <= INFINITY_BITS
    &&& forall|x: u64| x <= INFINITY_BITS ==> gap(m, num, den) <= #[trigger] gap(x, num, den)
    &&& forall|x: u64|
        x <= INFINITY_BITS && x != m && #[trigger] gap(x, num, den) == gap(m, num, den) ==> m % 2
            == 0
}

/// The pattern that `num / den` rounds to.
pub open spec fn rounded_magnitude(num: int, den: int) -> u64 {
    choose|m: u64| rounds_to(num, den, m)
}

/// Among patterns that are not NaNs, a larger pattern is a larger magnitude,
/// and no magnitude is negative.
pub proof fn lemma_pattern_order(a: u64, b: u64)
    requires
        a < b <= INFINITY_BITS,
    ensures
        pattern_magnitude(a) < pattern_magnitude(b),
        0 <= pattern_magnitude(a),
{
    lemma_magnitude_order(Double { bits: a }, Double { bits: b });
    if a > 0 {
        lemma_magnitude_order(Double { bits: 0 }, Double { bits: a });
    }
}

/// The exponent of the last place of a pattern, in steps.
pub open spec fn last_place(m: u64) -> nat {
    if m / HIDDEN_BIT == 0 {
        0
    } else {
        (m / HIDDEN_BIT - 1) as nat
    }
}

/// The next pattern is one unit in the last place further.
pub proof fn lemma_next_pattern(m: u64)
    requires
        m < INFINITY_BITS,
    ensures
        pattern_magnitude((m + 1) as u64) == pattern_magnitude(m) + pow2(last_place(m)),
{
    let h = HIDDEN_BIT as int;
    let e = m as int / h;
    let f = m as int % h;
    let next = (m + 1) as u64;
    lemma_fundamental_div_mod(m as int, h);
    lemma_fundamental_div_mod(next as int, h);
    if f + 1 < h {
        lemma_fundamental_div_mod_converse(next as int, h, e, f + 1);
        if e == 0 {
            lemma2_to64();
        } else {
            assert((h + f + 1) * pow2((e - 1) as nat) == (h + f) * pow2((e - 1) as nat) + pow2(
                (e - 1) as nat,
            )) by (nonlinear_arith);
        }
    } else {
        lemma_fundamental_div_mod_converse(next as int, h, e + 1, 0);
        if e == 0 {
            lemma2_to64();
        } else {
            lemma_pow2_unfold(e as nat);
            assert((h + 0) * (2 * pow2((e - 1) as nat)) == (h + f) * pow2((e - 1) as nat) + pow2(
                (e - 1) as nat,
            )) by (nonlinear_arith)
                requires
                    f + 1 == h,
            ;
        }
    }
}

/// Between two neighbouring patterns, the nearer one is the rounding, and of
/// two equally near the even one.
pub proof fn lemma_rounds_between(num: int, den: int, low: u64, up: bool)
    requires
        den > 0,
        low < INFINITY_BITS,
        pattern_magnitude(low) * den <= num <= pattern_magnitude((low + 1) as u64) * den,
        up ==> gap((low + 1) as u64, num, den) <= gap(low, num, den),
        !up ==> gap(low, num, den) <= gap((low + 1) as u64, num, den),
        gap(low, num, den) == gap((low + 1) as u64, num, den) ==> (up <==> low % 2 == 1),
    ensures
        rounds_to(num, den, if up { (low + 1) as u64 } else { low }),
{
    let high = (low + 1) as u64;
    let m = if up {
        high
    } else {
        low
    };
    assert forall|x: u64| x <= INFINITY_BITS implies gap(m, num, den) <= #[trigger] gap(
        x,
        num,
        den,
    ) && (x != m && gap(x, num, den) == gap(m, num, den) ==> m % 2 == 0) by {
        if x < low {
            lemma_pattern_order(x, low);
            lemma_mul_strict_inequality(pattern_magnitude(x), pattern_magnitude(low), den);
        } else if x > high {
            lemma_pattern_order(high, x);
            lemma_mul_strict_inequality(pattern_magnitude(high), pattern_magnitude(x), den);
        }
    }
}

/// A pattern whose magnitude is exactly `num / den` is the rounding.
pub proof fn lemma_rounds_exact(num: int, den: int, m: u64)
    requires
        den > 0,
        m <= INFINITY_BITS,
        pattern_magnitude(m) * den == num,
    ensures
        rounds_to(num, den, m),
{
    assert forall|x: u64| x <= INFINITY_BITS && x != m implies #[trigger] gap(x, num, den)
        > 0 by {
        if x < m {
            lemma_pattern_order(x, m);
            lemma_mul_strict_inequality(pattern_magnitude(x), pattern_magnitude(m), den);
        } else {
            lemma_pattern_order(m, x);
            lemma_mul_strict_inequality(pattern_magnitude(m), pattern_magnitude(x), den);
        }
    }
}

/// A magnitude at or beyond that of infinity rounds to infinity.
pub proof fn lemma_rounds_beyond(num: int, den: int)
    requires
        den > 0,
        pattern_magnitude(INFINITY_BITS) * den <= num,
    ensures
        rounds_to(num, den, INFINITY_BITS),
{
    assert forall|x: u64| x < INFINITY_BITS implies #[trigger] gap(x, num, den) > gap(
        INFINITY_BITS,
        num,
        den,
    ) by {
        lemma_pattern_order(x, INFINITY_BITS);
        lemma_mul_strict_inequality(
            pattern_magnitude(x),
            pattern_magnitude(INFINITY_BITS),
            den,
        );
    }
}

/// There is one rounding at most.
pub proof fn lemma_rounding_is_unique(num: int, den: int, a: u64, b: u64)
    requires
        den > 0,
        rounds_to(num, den, a),
        rounds_to(num, den, b),
    ensures
        a == b,
{
    if a != b {
        let low = if a < b {
            a
        } else {
            b
        };
        let high = if a < b {
            b
        } else {
            a
        };
        // Both are even, so a third pattern lies between them, no further away.
        let between = (low + 1) as u64;
        assert(gap(a, num, den) <= gap(b, num, den));
        assert(gap(b, num, den) <= gap(a, num, den));
        assert(low % 2 == 0 && high % 2 == 0);
        lemma_pattern_order(low, between);
        lemma_pattern_order(between, high);
        lemma_mul_strict_inequality(pattern_magnitude(low), pattern_magnitude(between), den);
        lemma_mul_strict_inequality(pattern_magnitude(between), pattern_magnitude(high), den);
        assert(gap(low, num, den) <= gap(between, num, den));
    }
}

/// The rounding, once found, is the one that the choice names.
pub proof fn lemma_rounded(num: int, den: int, m: u64)
    requires
        den > 0,
        rounds_to(num, den, m),
    ensures
        rounded_magnitude(num, den) == m,
{
    lemma_rounding_is_unique(num, den, m, rounded_magnitude(num, den));
}

/// `2^53`: every significand is below it.
pub const SIGNIFICAND_LIMIT: u64 = 0x0020_0000_0000_0000;

/// The pattern with significand `significand` and last place `place`: its
/// magnitude is `significand * 2^place`.
pub proof fn lemma_pattern_of(significand: u64, place: u64)
    requires
        significand < SIGNIFICAND_LIMIT,
        place <= 2045,
        place > 0 ==> significand >= HIDDEN_BIT,
    ensures
        place * HIDDEN_BIT + significand <= INFINITY_BITS,
        pattern_magnitude((place * HIDDEN_BIT + significand) as u64) == significand * pow2(
            place as nat,
        ),
        last_place((place * HIDDEN_BIT + significand) as u64) == place,
{
    let h = HIDDEN_BIT as int;
    let m = (place * HIDDEN_BIT + significand) as u64;
    if significand < HIDDEN_BIT {
        lemma_fundamental_div_mod_converse(m as int, h, 0, significand as int);
        lemma2_to64();
    } else {
        lemma_fundamental_div_mod_converse(m as int, h, place + 1, significand - h);
    }
}

/// `p * 2^t <= num / den < (p + 1) * 2^t`.
pub open spec fn brackets(p: int, t: int, num: int, den: int) -> bool {
    if t >= 0 {
        p * (pow2(t as nat) * den) <= num < (p + 1) * (pow2(t as nat) * den)
    } else {
        p * den <= num * pow2((-t) as nat) < (p + 1) * den
    }
}

/// `p * 2^t == num / den`.
pub open spec fn exactly(p: int, t: int, num: int, den: int) -> bool {
    if t >= 0 {
        p * (pow2(t as nat) * den) == num
    } else {
        p * den == num * pow2((-t) as nat)
    }
}

/// `2^n`.
pub(crate) fn power_of_two(n: u32) -> (r: u128)
    requires
        n < 128,
    ensures
        r == pow2(n as nat),
        r > 0,
{
    let mut r: u128 = 1;
    let mut i: u32 = 0;
    proof {
        lemma2_to64();
    }
    while i < n
        invariant
            i <= n < 128,
            r == pow2(i as nat),
            r > 0,
        decreases n - i,
    {
        proof {
            lemma_pow2_unfold((i + 1) as nat);
            lemma_pow2_strictly_increases((i + 1) as nat, 128);
            lemma_pow2_bound_128();
        }
        r = r * 2;
        i = i + 1;
    }
    r
}

/// `2^128` is one more than the largest 128-bit number.
pub proof fn lemma_pow2_bound_128()
    ensures
        pow2(128) == 0x1_0000_0000_0000_0000_0000_0000_0000_0000,
{
    lemma2_to64();
    lemma_pow2_adds(64, 64);
}

/// The number of bits of a positive number.
pub(crate) fn bit_length(p: u128) -> (length: u32)
    requires
        0 < p < 0x8000_0000_0000_0000_0000_0000_0000_0000,
    ensures
        1 <= length <= 127,
        pow2((length - 1) as nat) <= p < pow2(length as nat),
{
    let mut length: u32 = 1;
    let mut bound: u128 = 2;
    proof {
        lemma2_to64();
    }
    while bound <= p
        invariant
            1 <= length <= 127,
            bound == pow2(length as nat),
            pow2((length - 1) as nat) <= p < 0x8000_0000_0000_0000_0000_0000_0000_0000,
        decreases 128 - length,
    {
        proof {
            lemma_pow2_unfold((length + 1) as nat);
            lemma_pow2_bound_128();
            lemma_pow2_unfold(128);
            if length == 127 {
                assert(false);
            }
        }
        bound = bound * 2;
        length = length + 1;
    }
    length
}

/// Where the exact value lies between two neighbouring magnitudes, by the
/// part of it that the lower one leaves out.
proof fn lemma_choose_neighbour(
    num: int,
    den: int,
    scale: int,
    grain: int,
    significand: int,
    divisor: int,
    rest: int,
    place: nat,
    exact: bool,
    up: bool,
)
    requires
        den > 0,
        scale > 0,
        grain > 0,
        divisor >= 2,
        divisor % 2 == 0,
        0 <= rest < divisor,
        0 <= significand,
        (significand * divisor + rest) * grain <= num * scale < (significand * divisor + rest
            + 1) * grain,
        exact <==> (significand * divisor + rest) * grain == num * scale,
        pow2(place) * den * scale == divisor * grain,
        up <==> (rest > divisor / 2 || (rest == divisor / 2 && (!exact || significand % 2 == 1))),
    ensures
        (significand * pow2(place)) * den <= num <= ((significand + 1) * pow2(place)) * den,
        ({
            let below = num - (significand * pow2(place)) * den;
            let above = ((significand + 1) * pow2(place)) * den - num;
            &&& up ==> above <= below
            &&& !up ==> below <= above
            &&& below == above ==> (up <==> significand % 2 == 1)
        }),
{
    let half = divisor / 2;
    let low = significand * divisor * grain;
    let step = divisor * grain;
    let at = num * scale;
    let unit = pow2(place) * den;
    assert((significand * divisor + rest) * grain == low + rest * grain) by (nonlinear_arith)
        requires
            low == significand * divisor * grain,
    ;
    assert((significand * divisor + rest + 1) * grain == low + rest * grain + grain)
        by (nonlinear_arith)
        requires
            low == significand * divisor * grain,
    ;
    assert(0 <= rest * grain) by (nonlinear_arith)
        requires
            0 <= rest,
            grain > 0,
    ;
    assert(rest * grain + grain <= step) by (nonlinear_arith)
        requires
            rest + 1 <= divisor,
            grain > 0,
            step == divisor * grain,
    ;
    assert(step == 2 * (half * grain)) by (nonlinear_arith)
        requires
            step == divisor * grain,
            divisor == 2 * half,
    ;
    // The neighbours, on the scale of `at`.
    assert((significand * pow2(place)) * den * scale == low) by (nonlinear_arith)
        requires
            pow2(place) * den * scale == divisor * grain,
            low == significand * divisor * grain,
    ;
    assert(((significand + 1) * pow2(place)) * den * scale == low + step) by (nonlinear_arith)
        requires
            pow2(place) * den * scale == divisor * grain,
            low == significand * divisor * grain,
            step == divisor * grain,
    ;
    let lower = (significand * pow2(place)) * den;
    let upper = ((significand + 1) * pow2(place)) * den;
    assert(lower * scale <= num * scale <= upper * scale);
    assert(lower <= num) by (nonlinear_arith)
        requires
            lower * scale <= num * scale,
            scale > 0,
    ;
    assert(num <= upper) by (nonlinear_arith)
        requires
            num * scale <= upper * scale,
            scale > 0,
    ;
    let below = num - lower;
    let above = upper - num;
    assert(below * scale == at - low) by (nonlinear_arith)
        requires
            below == num - lower,
            lower * scale == low,
            at == num * scale,
    ;
    assert(above * scale == low + step - at) by (nonlinear_arith)
        requires
            above == upper - num,
            upper * scale == low + step,
            at == num * scale,
    ;
    if rest > half {
        assert(rest * grain >= half * grain + grain) by (nonlinear_arith)
            requires
                rest >= half + 1,
                grain > 0,
        ;
    } else if rest < half {
        assert(rest * grain + grain <= half * grain) by (nonlinear_arith)
            requires
                rest + 1 <= half,
                grain > 0,
        ;
    }
    // Compare on the common scale, then take the scale away.
    if above * scale < below * scale {
        assert(above < below) by (nonlinear_arith)
            requires
                above * scale < below * scale,
                scale > 0,
        ;
    } else if below * scale < above * scale {
        assert(below < above) by (nonlinear_arith)
            requires
                below * scale < above * scale,
                scale > 0,
        ;
    } else {
        assert(below == above) by (nonlinear_arith)
            requires
                below * scale == above * scale,
                scale > 0,
        ;
    }
}

/// One more than the largest last place of a finite double.
pub const LAST_PLACE_LIMIT: i64 = 2046;

/// A value of `2^2098` steps or more rounds to infinity.
proof fn lemma_rounds_over(p: int, length: nat, t: int, num: int, den: int)
    requires
        den > 0,
        t >= 0,
        pow2((length - 1) as nat) <= p,
        length >= 1,
        length - 1 + t >= 2098,
        p * (pow2(t as nat) * den) <= num,
    ensures
        rounds_to(num, den, INFINITY_BITS),
{
    lemma_infinity_magnitude();
    lemma_pow2_adds((length - 1) as nat, t as nat);
    if length - 1 + t > 2098 {
        lemma_pow2_strictly_increases(2098, (length - 1 + t) as nat);
    }
    let low = pow2((length - 1) as nat) as int;
    let scale = pow2(t as nat) as int;
    assert(pow2(2098) * den <= p * (scale * den)) by (nonlinear_arith)
        requires
            low <= p,
            pow2(2098) <= low * scale,
            den > 0,
            scale >= 0,
    ;
    lemma_rounds_beyond(num, den);
}

/// A value below `2^-127` of a step rounds to zero.
proof fn lemma_rounds_under(p: int, t: int, num: int, den: int)
    requires
        den > 0,
        0 < p < 0x4000_0000_0000_0000_0000_0000_0000_0000,
        t <= -127,
        p * den <= num * pow2((-t) as nat) < (p + 1) * den,
    ensures
        rounds_to(num, den, 0),
{
    lemma_pattern_of(0, 0);
    lemma_pattern_of(1, 0);
    lemma2_to64();
    lemma_pow2_bound_128();
    lemma_pow2_unfold(128);
    if -t > 127 {
        lemma_pow2_strictly_increases(127, (-t) as nat);
    }
    let scale = pow2((-t) as nat) as int;
    assert(0 < p * den) by (nonlinear_arith)
        requires
            0 < p,
            0 < den,
    ;
    assert((p + 1) * den <= 0x4000_0000_0000_0000_0000_0000_0000_0000 * den)
        by (nonlinear_arith)
        requires
            p + 1 <= 0x4000_0000_0000_0000_0000_0000_0000_0000,
            den > 0,
    ;
    assert(0 < num) by (nonlinear_arith)
        requires
            0 < num * scale,
            scale > 0,
    ;
    assert(num * 0x8000_0000_0000_0000_0000_0000_0000_0000 <= num * scale) by (nonlinear_arith)
        requires
            0 < num,
            scale >= 0x8000_0000_0000_0000_0000_0000_0000_0000,
    ;
    assert(2 * num < den);
    lemma_rounds_between(num, den, 0, false);
}

/// The pattern of a value that needs no rounding: `p * 2^t` with few enough
/// bits in `p`.
fn exact_pattern(
    p: u128,
    length: u32,
    place: i64,
    t: i64,
    Ghost(num): Ghost<int>,
    Ghost(den): Ghost<int>,
) -> (m: u64)
    requires
        den > 0,
        1 <= length <= 127,
        pow2((length - 1) as nat) <= p < pow2(length as nat),
        0 <= place <= 2045,
        place <= t <= 4000,
        t - place <= 53 - length,
        place > 0 ==> t - place == 53 - length,
        p * (pow2(t as nat) * den) == num,
    ensures
        rounds_to(num, den, m),
{
    let lift: u32 = (t - place) as u32;
    let factor: u128 = power_of_two(lift);
    proof {
        lemma_pow2_pos(lift as nat);
        lemma_pow2_adds(length as nat, lift as nat);
        lemma_pow2_adds((length - 1) as nat, lift as nat);
        if length + lift < 53 {
            lemma_pow2_strictly_increases((length + lift) as nat, 53);
        }
        lemma2_to64_rest();
        assert(p * factor < pow2(length as nat) * factor) by (nonlinear_arith)
            requires
                p < pow2(length as nat),
                factor > 0,
        ;
        assert(pow2((length - 1) as nat) * factor <= p * factor) by (nonlinear_arith)
            requires
                pow2((length - 1) as nat) <= p,
                factor > 0,
        ;
    }
    let significand: u64 = (p * factor) as u64;
    let m: u64 = (place as u64) * HIDDEN_BIT + significand;
    proof {
        lemma_pattern_of(significand, place as u64);
        lemma_pow2_adds(lift as nat, place as nat);
        let scale = pow2(t as nat) as int;
        let grain = pow2(place as nat) as int;
        assert((significand * grain) * den == p * (scale * den)) by (nonlinear_arith)
            requires
                significand == p * factor,
                factor * grain == scale,
        ;
        lemma_rounds_exact(num, den, m);
    }
    m
}

/// The pattern of a value that leaves `shift` bits of `p` to rounding.
fn divided_pattern(
    p: u128,
    sticky: bool,
    length: u32,
    place: i64,
    t: i64,
    Ghost(num): Ghost<int>,
    Ghost(den): Ghost<int>,
) -> (m: u64)
    requires
        den > 0,
        1 <= length <= 127,
        pow2((length - 1) as nat) <= p < pow2(length as nat),
        0 <= place <= 2045,
        -4000 <= t <= 4000,
        1 <= place - t <= 126,
        length - 53 <= place - t,
        place > 0 ==> place - t == length - 53,
        brackets(p as int, t as int, num, den),
        sticky <==> !exactly(p as int, t as int, num, den),
    ensures
        rounds_to(num, den, m),
{
    let shift: u32 = (place - t) as u32;
    let divisor: u128 = power_of_two(shift);
    proof {
        lemma_pow2_pos(shift as nat);
        lemma_pow2_unfold(shift as nat);
        lemma_pow2_pos((shift - 1) as nat);
    }
    let rest: u128 = p % divisor;
    let half: u128 = divisor / 2;
    proof {
        lemma_fundamental_div_mod(p as int, divisor as int);
        lemma_pow2_adds(shift as nat, 53);
        lemma_pow2_adds(shift as nat, 52);
        lemma2_to64_rest();
        if length < shift + 53 {
            lemma_pow2_strictly_increases(length as nat, (shift + 53) as nat);
        }
        lemma_quotient_bounds(p as int, divisor as int, place > 0);
    }
    let significand: u64 = (p / divisor) as u64;
    let low: u64 = (place as u64) * HIDDEN_BIT + significand;
    let up: bool = rest > half || (rest == half && (sticky || significand % 2 == 1));
    proof {
        lemma_pattern_of(significand, place as u64);
        lemma_next_pattern(low);
        let grain: int = if t >= 0 {
            pow2(t as nat) * den
        } else {
            den
        };
        let scale: int = if t >= 0 {
            1
        } else {
            pow2((-t) as nat) as int
        };
        lemma_pow2_pos((if t >= 0 { t as int } else { -t }) as nat);
        if t >= 0 {
            lemma_pow2_adds(shift as nat, t as nat);
            assert(grain > 0) by (nonlinear_arith)
                requires
                    grain == pow2(t as nat) * den,
                    pow2(t as nat) > 0,
                    den > 0,
            ;
            assert(pow2(place as nat) * den * scale == divisor * grain) by (nonlinear_arith)
                requires
                    pow2(place as nat) == divisor * pow2(t as nat),
                    grain == pow2(t as nat) * den,
                    scale == 1,
            ;
            assert(num * scale == num);
        } else {
            lemma_pow2_adds(place as nat, (-t) as nat);
            assert(pow2(place as nat) * den * scale == divisor * grain) by (nonlinear_arith)
                requires
                    pow2(place as nat) * scale == divisor,
                    grain == den,
            ;
        }
        assert(significand * divisor + rest == p) by (nonlinear_arith)
            requires
                p == divisor * (p / divisor) + p % divisor,
                significand == p / divisor,
                rest == p % divisor,
        ;
        lemma_choose_neighbour(
            num,
            den,
            scale,
            grain,
            significand as int,
            divisor as int,
            rest as int,
            place as nat,
            !sticky,
            up,
        );
        assert(pattern_magnitude((low + 1) as u64) * den == ((significand + 1) * pow2(
            place as nat,
        )) * den) by (nonlinear_arith)
            requires
                pattern_magnitude((low + 1) as u64) == significand * pow2(place as nat) + pow2(
                    place as nat,
                ),
        ;
        lemma_rounds_between(num, den, low, up);
    }
    if up {
        low + 1
    } else {
        low
    }
}

/// A quotient by a divisor that leaves 53 bits, or 53 bits exactly.
proof fn lemma_quotient_bounds(p: int, divisor: int, normal: bool)
    requires
        divisor > 0,
        0 <= p < divisor * 0x0020_0000_0000_0000,
        normal ==> p >= divisor * 0x0010_0000_0000_0000,
    ensures
        0 <= p / divisor < 0x0020_0000_0000_0000,
        normal ==> p / divisor >= 0x0010_0000_0000_0000,
{
    lemma_fundamental_div_mod(p, divisor);
    lemma_mod_bound(p, divisor);
    let q = p / divisor;
    assert(q < 0x0020_0000_0000_0000) by (nonlinear_arith)
        requires
            p < divisor * 0x0020_0000_0000_0000,
            p == divisor * q + p % divisor,
            0 <= p % divisor,
            divisor > 0,
    ;
    assert(q >= 0) by (nonlinear_arith)
        requires
            p == divisor * q + p % divisor,
            p % divisor < divisor,
            0 <= p,
            divisor > 0,
    ;
    if normal {
        assert(q >= 0x0010_0000_0000_0000) by (nonlinear_arith)
            requires
                p >= divisor * 0x0010_0000_0000_0000,
                p == divisor * q + p % divisor,
                p % divisor < divisor,
                divisor > 0,
        ;
    }
}

/// The pattern that an exact value rounds to. The value is `num / den`; it is
/// handed over as `p` and `t` with `p * 2^t <= num / den < (p + 1) * 2^t`, and
/// `sticky` says that it is not `p * 2^t` itself. A value that is not given
/// exactly comes with 55 bits of `p` or more.
pub(crate) fn round_pattern(
    p: u128,
    sticky: bool,
    t: i64,
    Ghost(num): Ghost<int>,
    Ghost(den): Ghost<int>,
) -> (m: u64)
    requires
        den > 0,
        p < 0x4000_0000_0000_0000_0000_0000_0000_0000,
        -4000 <= t <= 4000,
        brackets(p as int, t as int, num, den),
        sticky <==> !exactly(p as int, t as int, num, den),
        sticky ==> p >= 0x0040_0000_0000_0000,
    ensures
        rounds_to(num, den, m),
{
    if p == 0 {
        proof {
            lemma_pow2_pos((if t >= 0 { t as int } else { -t }) as nat);
            if t >= 0 {
                lemma_mul_basics(pow2(t as nat) * den);
            } else {
                lemma_mul_basics(den);
                assert(num == 0) by (nonlinear_arith)
                    requires
                        0 == num * pow2((-t) as nat),
                        pow2((-t) as nat) > 0,
                ;
            }
            lemma_pattern_of(0, 0);
            lemma_rounds_exact(num, den, 0);
        }
        return 0;
    }
    let length: u32 = bit_length(p);
    let natural: i64 = t + (length as i64) - 53;
    let place: i64 = if natural < 0 {
        0
    } else {
        natural
    };
    if place >= LAST_PLACE_LIMIT {
        proof {
            lemma_rounds_over(p as int, length as nat, t as int, num, den);
        }
        return INFINITY_BITS;
    }
    let shift: i64 = place - t;
    if shift <= 0 {
        proof {
            if sticky {
                // 55 bits or more leave some to rounding.
                lemma2_to64_rest();
                if length < 54 {
                    lemma_pow2_strictly_increases(length as nat, 54);
                }
                assert(length >= 55);
            }
        }
        return exact_pattern(p, length, place, t, Ghost(num), Ghost(den));
    }
    if shift >= 127 {
        proof {
            lemma_rounds_under(p as int, t as int, num, den);
        }
        return 0;
    }
    divided_pattern(p, sticky, length, place, t, Ghost(num), Ghost(den))
}

/// Infinity counts as `2^2098` steps.
pub proof fn lemma_infinity_magnitude()
    ensures
        pattern_magnitude(INFINITY_BITS) == pow2(2098),
{
    lemma_fundamental_div_mod_converse(INFINITY_BITS as int, HIDDEN_BIT as int, 2047, 0);
    lemma_pow2_adds(52, 2046);
    lemma2_to64_rest();
}

} // verus!
