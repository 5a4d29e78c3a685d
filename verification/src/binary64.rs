//! Non-negative double-precision numbers, held exactly as a mantissa and a power of two.
//!
//! Fee rates are ratios of two 64-bit integers carried in double precision. Each operation
//! here rounds once, to the nearest 53-bit mantissa with ties going to the even one, so a
//! result is the very number that hardware following IEEE 754 delivers.

use crate::rounding::{
    converted, distance, double_on_scale, in_binade, integer_part, is_nearest,
    law_conversion_keeps_order, law_converts_to_the_nearest, law_rounds_to_the_nearest_double,
    lemma_binade_unique,
    lemma_conversion_error, lemma_converted_max, lemma_exponent_of_integer, lemma_mantissa_range,
    lemma_pow2_exceeds, lemma_quotient_at_most_one, lemma_quotient_exponent,
    lemma_quotient_exponent_max, lemma_relative_error, lemma_rounds_within, nearest, no_nearer,
    on_scale, MANTISSA_END, MANTISSA_MIN,
};
use vstd::arithmetic::div_mod::lemma_fundamental_div_mod;
use vstd::arithmetic::power2::{
    lemma2_to64, lemma2_to64_rest, lemma_pow2_adds, lemma_pow2_pos, lemma_pow2_strictly_increases,
    lemma_pow2_unfold, pow2,
};
use vstd::prelude::*;

verus! {

/// A non-negative double: `mantissa` times two to the `exponent`, or one of the two values
/// that a division by zero gives.
#[derive(Clone, Copy, Debug, PartialEq, Eq, Structural)]
pub enum Binary64 {
    Finite { mantissa: u64, exponent: i32 },
    Infinity,
    NotANumber,
}

/// The double `a / b`, where `a` and `b` are integers that doubles hold.
pub open spec fn quotient(a: nat, b: nat) -> Binary64 {
    if b == 0 {
        if a == 0 {
            Binary64::NotANumber
        } else {
            Binary64::Infinity
        }
    } else if a == 0 {
        Binary64::Finite { mantissa: 0, exponent: 0 }
    } else {
        let (m, e) = nearest(a, b);
        Binary64::Finite { mantissa: m as u64, exponent: e as i32 }
    }
}

/// The double `x * factor`, for a positive `factor`.
pub open spec fn product(x: Binary64, factor: nat) -> Binary64 {
    match x {
        Binary64::Finite { mantissa, exponent } => if mantissa == 0 {
            x
        } else {
            let (m, e) = nearest(mantissa as nat * factor, 1);
            Binary64::Finite { mantissa: m as u64, exponent: (exponent + e) as i32 }
        },
        _ => x,
    }
}

/// `numerator / denominator * factor` in double precision.
pub open spec fn ratio_times(numerator: nat, denominator: nat, factor: nat) -> Binary64 {
    product(quotient(converted(numerator), converted(denominator)), factor)
}

/// What a conversion to an integer type with the greatest value `max` gives: the integer
/// part, or the end of the range where that lies beyond it, and zero for no number.
pub open spec fn saturated(x: Binary64, max: nat) -> nat {
    match x {
        Binary64::Finite { mantissa, exponent } => {
            let whole = integer_part(mantissa as nat, exponent as int);
            if whole <= max {
                whole
            } else {
                max
            }
        },
        Binary64::Infinity => max,
        Binary64::NotANumber => 0,
    }
}

/// The double is a number, and at most `bound`.
pub open spec fn at_most(x: Binary64, bound: nat) -> bool {
    x matches Binary64::Finite { mantissa, exponent } && if exponent >= 0 {
        mantissa * pow2(exponent as nat) <= bound
    } else {
        mantissa <= bound * pow2((-exponent) as nat)
    }
}

/// Two to the `k`.
fn power_of_two(k: u32) -> (r: u128)
    requires
        k < 127,
    ensures
        r == pow2(k as nat),
{
    proof {
        lemma2_to64();
        lemma2_to64_rest();
        lemma_pow2_adds(64, 62);
    }
    let mut r: u128 = 1;
    let mut i: u32 = 0;
    while i < k
        invariant
            i <= k < 127,
            r == pow2(i as nat),
            pow2(126) == 0x4000_0000_0000_0000_0000_0000_0000_0000,
        decreases k - i,
    {
        proof {
            lemma_pow2_unfold((i + 1) as nat);
            if i + 1 < 126 {
                lemma_pow2_strictly_increases((i + 1) as nat, 126);
            }
        }
        r = r * 2;
        i = i + 1;
    }
    r
}

/// Rounds `p / q` to the nearest double.
fn round_ratio(p: u128, q: u128) -> (r: (u64, i32))
    requires
        0 < p < 0x10_0000_0000_0000_0000,
        0 < q <= 0x1_0000_0000_0000_0000,
    ensures
        (r.0 as nat, r.1 as int) == nearest(p as nat, q as nat),
        MANTISSA_MIN <= r.0 <= MANTISSA_END,
        -117 <= r.1 <= 15,
        in_binade(p as nat, q as nat, r.1 as int),
{
    proof {
        lemma2_to64();
        lemma2_to64_rest();
        lemma_pow2_adds(64, 4);
        lemma_pow2_adds(64, 53);
    }
    let mut n: u128 = p;
    let mut d: u128 = q;
    let mut e: i32 = 0;
    proof {
        assert(q * 1 == q && p * 1 == p) by (nonlinear_arith);
    }
    while n / d >= MANTISSA_END as u128
        invariant
            n == p,
            0 < p < 0x10_0000_0000_0000_0000,
            0 < q <= d,
            q <= 0x1_0000_0000_0000_0000,
            0 <= e <= 68,
            d == q * pow2(e as nat),
            e > 0 ==> d <= n && n / d >= MANTISSA_MIN as u128,
            pow2(68) == 0x10_0000_0000_0000_0000,
        decreases n - d,
    {
        proof {
            lemma_fundamental_div_mod(n as int, d as int);
            let f = n as int / d as int;
            assert(d * f >= d * MANTISSA_END) by (nonlinear_arith)
                requires
                    f >= MANTISSA_END,
                    d > 0,
            ;
            lemma_pow2_unfold((e + 1) as nat);
            let a = pow2(e as nat);
            assert(q * (2 * a) == 2 * (q * a)) by (nonlinear_arith);
            assert(pow2((e + 1) as nat) <= 2 * d) by (nonlinear_arith)
                requires
                    pow2((e + 1) as nat) == 2 * a,
                    d == q * a,
                    q >= 1,
            ;
            if e == 68 {
                assert(false);
            }
            assert((n as int) / (2 * d) >= MANTISSA_MIN) by (nonlinear_arith)
                requires
                    n as int >= (d as int) * MANTISSA_END,
                    d > 0,
                    MANTISSA_END == 2 * MANTISSA_MIN,
            ;
        }
        d = d * 2;
        e = e + 1;
    }
    if e == 0 {
        while n / d < MANTISSA_MIN as u128
            invariant
                d == q,
                0 < p < 0x10_0000_0000_0000_0000,
                0 < q <= 0x1_0000_0000_0000_0000,
                -117 <= e <= 0,
                p <= n,
                n == p * pow2((-e) as nat),
                n / d < MANTISSA_END as u128,
                pow2(117) == 0x20_0000_0000_0000_0000_0000_0000_0000,
            decreases 0x20_0000_0000_0000_0000_0000_0000_0000 - n,
        {
            proof {
                lemma_fundamental_div_mod(n as int, d as int);
                let f = n as int / d as int;
                assert(n < MANTISSA_MIN * d) by (nonlinear_arith)
                    requires
                        n as int == d * f + n as int % d as int,
                        0 <= n as int % d as int,
                        (n as int % d as int) < d,
                        f <= MANTISSA_MIN - 1,
                ;
                lemma_pow2_unfold((1 - e) as nat);
                let a = pow2((-e) as nat);
                assert(p * (2 * a) == 2 * (p * a)) by (nonlinear_arith);
                assert(a <= n) by (nonlinear_arith)
                    requires
                        n == p * a,
                        p >= 1,
                ;
                assert(MANTISSA_MIN * d <= 0x10_0000_0000_0000_0000_0000_0000_0000);
                if e == -117 {
                    assert(false);
                }
                assert((2 * n) / (d as int) < MANTISSA_END) by (nonlinear_arith)
                    requires
                        n < MANTISSA_MIN * d,
                        d > 0,
                        MANTISSA_END == 2 * MANTISSA_MIN,
                ;
            }
            n = n * 2;
            e = e - 1;
        }
    }
    let below: u128 = n / d;
    let rest: u128 = n % d;
    proof {
        lemma_fundamental_div_mod(n as int, d as int);
        let f = n as int / d as int;
        assert(MANTISSA_MIN * d <= n && n < MANTISSA_END * d) by (nonlinear_arith)
            requires
                n as int == d * f + n as int % d as int,
                0 <= n as int % d as int,
                (n as int % d as int) < d,
                MANTISSA_MIN <= f <= MANTISSA_END - 1,
        ;
        assert(in_binade(p as nat, q as nat, e as int));
        lemma_binade_unique(p as nat, q as nat, e as int);
        if e > 15 {
            lemma_pow2_exceeds(e as nat, 15);
            let a = pow2(e as nat);
            assert(MANTISSA_MIN * d >= MANTISSA_MIN * 0x10000) by (nonlinear_arith)
                requires
                    d == q * a,
                    q >= 1,
                    a >= 0x10000,
            ;
        }
    }
    if rest < d - rest || (rest == d - rest && below % 2 == 0) {
        (below as u64, e)
    } else {
        ((below + 1) as u64, e)
    }
}

/// Converts an unsigned 64-bit integer to a double, which is an integer again.
fn convert(n: u64) -> (r: u128)
    ensures
        r == converted(n as nat),
        r <= 0x1_0000_0000_0000_0000,
        n > 0 ==> r > 0,
{
    if n < MANTISSA_END {
        n as u128
    } else {
        let (m, e) = round_ratio(n as u128, 1);
        proof {
            lemma_exponent_of_integer(n as nat);
            lemma_converted_max(n as nat);
            law_conversion_keeps_order(1, n as nat);
        }
        m as u128 * power_of_two(e as u32)
    }
}

impl Binary64 {
    /// The mantissa has at most 53 bits, or is two to the 53rd, and the exponent lies in the
    /// range that ratios of 64-bit integers reach.
    pub open spec fn well_formed(self) -> bool {
        self matches Binary64::Finite { mantissa, exponent } ==> mantissa <= MANTISSA_END && -117
            <= exponent <= 30
    }

    /// Divides two integers in double precision and multiplies the quotient by `factor`.
    pub fn from_ratio(numerator: u64, denominator: u64, factor: u16) -> (r: Self)
        requires
            0 < factor <= 10000,
        ensures
            r == ratio_times(numerator as nat, denominator as nat, factor as nat),
            r.well_formed(),
            denominator > 0 ==> r is Finite,
    {
        let a: u128 = convert(numerator);
        let b: u128 = convert(denominator);
        if b == 0 {
            if a == 0 {
                Binary64::NotANumber
            } else {
                Binary64::Infinity
            }
        } else if a == 0 {
            Binary64::Finite { mantissa: 0, exponent: 0 }
        } else {
            let (m1, e1) = round_ratio(a, b);
            proof {
                assert(0 < m1 * factor <= MANTISSA_END * 10000) by (nonlinear_arith)
                    requires
                        0 < m1 <= MANTISSA_END,
                        0 < factor <= 10000,
                ;
            }
            let p: u128 = m1 as u128 * factor as u128;
            let (m2, e2) = round_ratio(p, 1);
            proof {
                assert(m1 * factor >= MANTISSA_MIN) by (nonlinear_arith)
                    requires
                        m1 >= MANTISSA_MIN,
                        factor >= 1,
                ;
                lemma_exponent_of_integer(p as nat);
            }
            Binary64::Finite { mantissa: m2, exponent: e1 + e2 }
        }
    }

    /// The integer part, as a conversion to a 128-bit integer delivers it.
    pub fn to_u128(self) -> (r: u128)
        requires
            self.well_formed(),
        ensures
            r == saturated(self, u128::MAX as nat),
    {
        match self {
            Binary64::Finite { mantissa, exponent } => {
                proof {
                    lemma_integer_part_bound(mantissa, exponent);
                }
                if exponent >= 0 {
                    mantissa as u128 * power_of_two(exponent as u32)
                } else {
                    proof {
                        lemma_pow2_pos((-exponent) as nat);
                    }
                    mantissa as u128 / power_of_two((-exponent) as u32)
                }
            },
            Binary64::Infinity => u128::MAX,
            Binary64::NotANumber => 0,
        }
    }

    /// The integer part, as a conversion to a 64-bit integer delivers it.
    pub fn to_u64(self) -> (r: u64)
        requires
            self.well_formed(),
        ensures
            r == saturated(self, u64::MAX as nat),
    {
        let whole: u128 = self.to_u128();
        proof {
            if let Binary64::Finite { mantissa, exponent } = self {
                lemma_integer_part_bound(mantissa, exponent);
            }
        }
        if whole <= u64::MAX as u128 {
            whole as u64
        } else {
            u64::MAX
        }
    }
}

proof fn lemma_integer_part_bound(mantissa: u64, exponent: i32)
    requires
        mantissa <= MANTISSA_END,
        -117 <= exponent <= 30,
    ensures
        integer_part(mantissa as nat, exponent as int) < u128::MAX,
{
    lemma2_to64();
    lemma2_to64_rest();
    if exponent >= 0 {
        if exponent < 30 {
            lemma_pow2_strictly_increases(exponent as nat, 30);
        }
        let a = pow2(exponent as nat);
        assert(mantissa * a <= MANTISSA_END * 0x4000_0000) by (nonlinear_arith)
            requires
                mantissa <= MANTISSA_END,
                a <= 0x4000_0000,
        ;
    } else {
        let a = pow2((-exponent) as nat);
        lemma_pow2_pos((-exponent) as nat);
        assert(mantissa as int / a as int <= mantissa) by (nonlinear_arith)
            requires
                mantissa >= 0,
                a >= 1,
        ;
    }
}

/// A ratio of at most one, taken as so many parts of a whole, is at most the whole: the double
/// itself is, and so is its integer part.
pub proof fn law_ratio_stays_within_the_whole(numerator: nat, denominator: nat, factor: nat)
    requires
        numerator <= denominator,
        0 < denominator <= u64::MAX,
        0 < factor <= 10000,
    ensures
        at_most(ratio_times(numerator, denominator, factor), factor),
        saturated(ratio_times(numerator, denominator, factor), u128::MAX as nat) <= factor,
{
    let a = converted(numerator);
    let b = converted(denominator);
    law_conversion_keeps_order(numerator, denominator);
    law_conversion_keeps_order(1, denominator);
    lemma_converted_max(denominator);
    lemma2_to64();
    lemma2_to64_rest();
    if a == 0 {
        assert(0 * pow2(0) == 0) by (nonlinear_arith);
    } else {
        lemma_mantissa_range(a, b);
        lemma_quotient_at_most_one(a, b);
        lemma_quotient_exponent(a, b);
        let (m1, e1) = nearest(a, b);
        let k = (-e1) as nat;
        let t: nat = if k == 52 {
            52
        } else {
            53
        };
        let p = m1 * factor;
        assert(p <= factor * pow2(t) && p >= MANTISSA_MIN) by (nonlinear_arith)
            requires
                p == m1 * factor,
                MANTISSA_MIN <= m1 <= pow2(t),
                factor >= 1,
        ;
        lemma_rounds_within(p, factor, t);
        lemma_mantissa_range(p, 1);
        lemma_exponent_of_integer(p);
        let (m2, e2) = nearest(p, 1);
        let s2 = pow2(e2 as nat);
        if k > t {
            lemma_pow2_exceeds(k, t);
        }
        let sk = pow2(k);
        let st = pow2(t);
        assert(m2 * s2 <= factor * sk) by (nonlinear_arith)
            requires
                m2 * s2 <= factor * st,
                st <= sk,
        ;
        if e2 > 15 {
            lemma_pow2_exceeds(e2 as nat, 15);
            assert(MANTISSA_MIN * s2 > MANTISSA_END * 10000) by (nonlinear_arith)
                requires
                    s2 >= 0x10000,
                    MANTISSA_END == 2 * MANTISSA_MIN,
            ;
            assert(p <= MANTISSA_END * 10000) by (nonlinear_arith)
                requires
                    p == m1 * factor,
                    m1 <= MANTISSA_END,
                    factor <= 10000,
            ;
        }
        let e = e2 - k;
        lemma_pow2_pos(e2 as nat);
        lemma_pow2_pos(k);
        if e >= 0 {
            let g = pow2(e as nat);
            lemma_pow2_adds(e as nat, k);
            assert(m2 * g <= factor) by (nonlinear_arith)
                requires
                    m2 * (g * sk) <= factor * sk,
                    sk > 0,
            ;
        } else {
            let g = pow2((-e) as nat);
            lemma_pow2_pos((-e) as nat);
            lemma_pow2_adds((-e) as nat, e2 as nat);
            assert(m2 <= factor * g) by (nonlinear_arith)
                requires
                    m2 * s2 <= factor * (g * s2),
                    s2 > 0,
            ;
            assert(m2 / g <= factor) by (nonlinear_arith)
                requires
                    m2 <= factor * g,
                    g > 0,
            ;
        }
    }
}

/// The value of a finite double, counted in units of two to the minus 117th.
pub open spec fn units(x: Binary64) -> nat {
    match x {
        Binary64::Finite { mantissa, exponent } => mantissa as nat * pow2((exponent + 117) as nat),
        _ => 0,
    }
}

/// What a ratio of positive 64-bit integers times a factor is made of.
proof fn lemma_ratio_parts(numerator: nat, denominator: nat, factor: nat) -> (r: (
    nat,
    int,
    nat,
    int,
))
    requires
        0 < numerator <= u64::MAX,
        0 < denominator <= u64::MAX,
        0 < factor <= 10000,
    ensures
        converted(numerator) > 0,
        converted(denominator) > 0,
        (r.0, r.1) == nearest(converted(numerator), converted(denominator)),
        (r.2, r.3) == nearest(r.0 * factor, 1),
        r.0 * factor > 0,
        -117 <= r.1 <= 12,
        0 <= r.3 <= 15,
        r.2 <= MANTISSA_END,
        ratio_times(numerator, denominator, factor) == (Binary64::Finite {
            mantissa: r.2 as u64,
            exponent: (r.1 + r.3) as i32,
        }),
{
    let a = converted(numerator);
    let b = converted(denominator);
    law_conversion_keeps_order(1, numerator);
    law_conversion_keeps_order(1, denominator);
    lemma_converted_max(numerator);
    lemma_converted_max(denominator);
    lemma_mantissa_range(a, b);
    lemma_quotient_exponent(a, b);
    lemma_quotient_exponent_max(a, b);
    let (m1, e1) = nearest(a, b);
    let p = m1 * factor;
    assert(MANTISSA_MIN <= p <= MANTISSA_END * 10000) by (nonlinear_arith)
        requires
            p == m1 * factor,
            MANTISSA_MIN <= m1 <= MANTISSA_END,
            1 <= factor <= 10000,
    ;
    lemma_mantissa_range(p, 1);
    lemma_exponent_of_integer(p);
    let (m2, e2) = nearest(p, 1);
    if e2 > 15 {
        lemma2_to64();
        lemma_pow2_exceeds(e2 as nat, 15);
        let s = pow2(e2 as nat);
        assert(MANTISSA_MIN * s > MANTISSA_END * 10000) by (nonlinear_arith)
            requires
                s >= 0x10000,
                MANTISSA_END == 2 * MANTISSA_MIN,
        ;
    }
    (m1, e1, m2, e2)
}

/// A ratio times a factor is rounded twice, and in no other way: it is the double nearest to
/// the factor times the double nearest to the ratio of the converted integers, which is the
/// result here.
pub proof fn law_a_ratio_is_rounded_twice(numerator: nat, denominator: nat, factor: nat) -> (q: (
    nat,
    int,
))
    requires
        0 < numerator <= u64::MAX,
        0 < denominator <= u64::MAX,
        0 < factor <= 10000,
    ensures
        is_nearest(q.0, q.1, converted(numerator), converted(denominator)),
        ratio_times(numerator, denominator, factor) matches Binary64::Finite { mantissa, exponent }
            && is_nearest(mantissa as nat, exponent - q.1, q.0 * factor, 1),
{
    let (m1, e1, m2, e2) = lemma_ratio_parts(numerator, denominator, factor);
    law_rounds_to_the_nearest_double(converted(numerator), converted(denominator));
    law_rounds_to_the_nearest_double(m1 * factor, 1);
    (m1, e1)
}

proof fn lemma_units_of_parts(m1: nat, e1: int, m2: nat, e2: int, factor: nat)
    requires
        -117 <= e1,
        0 <= e2,
    ensures
        m2 * pow2((e1 + e2 + 117) as nat) == double_on_scale(m2, e2, 1, (e1 + 117) as nat),
        on_scale(m1 * factor, (e1 + 117) as nat) == factor * (m1 * pow2((e1 + 117) as nat)),
{
    let w = pow2((e1 + 117) as nat);
    let v = pow2((e1 + e2 + 117) as nat);
    assert(m2 * v * 1 == m2 * v) by (nonlinear_arith);
    assert((m1 * factor) * w == factor * (m1 * w)) by (nonlinear_arith);
}

proof fn lemma_errors_add_up(u: int, x: int, a: int, b: int, n: int, d: int, factor: int, one: int)
    requires
        u >= 0,
        x >= 0,
        a >= 0,
        b > 0,
        n >= 0,
        d > 0,
        factor > 0,
        one > 0,
        distance(u, factor * x) * 0x20_0000_0000_0000 <= factor * x,
        distance(x * b, a * one) * 0x20_0000_0000_0000 <= a * one,
        distance(a, n) * 0x20_0000_0000_0000 <= n,
        distance(b, d) * 0x20_0000_0000_0000 <= d,
    ensures
        distance(u * d, factor * n * one) * 0x4_0000_0000_0000 <= factor * n * one,
{
    let h: int = 0x20_0000_0000_0000;
    let t = factor * n * one;
    // The bounds that each rounding keeps.
    assert(u * h <= factor * x * (h + 1)) by (nonlinear_arith)
        requires
            distance(u, factor * x) * h <= factor * x,
            u - factor * x <= distance(u, factor * x),
            h == 0x20_0000_0000_0000,
    ;
    assert(u * h >= factor * x * (h - 1)) by (nonlinear_arith)
        requires
            distance(u, factor * x) * h <= factor * x,
            factor * x - u <= distance(u, factor * x),
            h == 0x20_0000_0000_0000,
    ;
    assert(x * b * h <= a * one * (h + 1)) by (nonlinear_arith)
        requires
            distance(x * b, a * one) * h <= a * one,
            x * b - a * one <= distance(x * b, a * one),
            h == 0x20_0000_0000_0000,
    ;
    assert(x * b * h >= a * one * (h - 1)) by (nonlinear_arith)
        requires
            distance(x * b, a * one) * h <= a * one,
            a * one - x * b <= distance(x * b, a * one),
            h == 0x20_0000_0000_0000,
    ;
    assert(a * h <= n * (h + 1) && a * h >= n * (h - 1));
    assert(b * h <= d * (h + 1) && b * h >= d * (h - 1));
    // The product of `u` and `b`.
    let ub = u * b;
    let fa = factor * a * one;
    assert(ub * h * h <= fa * (h + 1) * (h + 1)) by {
        assert((u * h) * (b * h) <= (factor * x * (h + 1)) * (b * h)) by (nonlinear_arith)
            requires
                u * h <= factor * x * (h + 1),
                b > 0,
                h > 0,
        ;
        assert((factor * x * (h + 1)) * (b * h) == factor * (h + 1) * (x * b * h))
            by (nonlinear_arith);
        assert(factor * (h + 1) * (x * b * h) <= factor * (h + 1) * (a * one * (h + 1)))
            by (nonlinear_arith)
            requires
                x * b * h <= a * one * (h + 1),
                factor > 0,
                h > 0,
        ;
        assert((u * h) * (b * h) == u * b * h * h) by (nonlinear_arith);
        assert(factor * (h + 1) * (a * one * (h + 1)) == factor * a * one * (h + 1) * (h + 1))
            by (nonlinear_arith);
    }
    assert(ub * h * h >= fa * (h - 1) * (h - 1)) by {
        assert((u * h) * (b * h) >= (factor * x * (h - 1)) * (b * h)) by (nonlinear_arith)
            requires
                u * h >= factor * x * (h - 1),
                b > 0,
                h > 0,
        ;
        assert((factor * x * (h - 1)) * (b * h) == factor * (h - 1) * (x * b * h))
            by (nonlinear_arith);
        assert(factor * (h - 1) * (x * b * h) >= factor * (h - 1) * (a * one * (h - 1)))
            by (nonlinear_arith)
            requires
                x * b * h >= a * one * (h - 1),
                factor > 0,
                h > 1,
        ;
        assert((u * h) * (b * h) == u * b * h * h) by (nonlinear_arith);
        assert(factor * (h - 1) * (a * one * (h - 1)) == factor * a * one * (h - 1) * (h - 1))
            by (nonlinear_arith);
    }
    // From the converted integers to the integers.
    assert(fa * h <= t * (h + 1)) by {
        assert(factor * one * (a * h) <= factor * one * (n * (h + 1))) by (nonlinear_arith)
            requires
                a * h <= n * (h + 1),
                factor > 0,
                one > 0,
        ;
        assert(factor * one * (a * h) == factor * a * one * h) by (nonlinear_arith);
        assert(factor * one * (n * (h + 1)) == factor * n * one * (h + 1)) by (nonlinear_arith);
    }
    assert(fa * h >= t * (h - 1)) by {
        assert(factor * one * (a * h) >= factor * one * (n * (h - 1))) by (nonlinear_arith)
            requires
                a * h >= n * (h - 1),
                factor > 0,
                one > 0,
        ;
        assert(factor * one * (a * h) == factor * a * one * h) by (nonlinear_arith);
        assert(factor * one * (n * (h - 1)) == factor * n * one * (h - 1)) by (nonlinear_arith);
    }
    let ud = u * d;
    assert(ud * (h - 1) <= ub * h && ud * (h + 1) >= ub * h) by {
        assert(u * (b * h) <= u * (d * (h + 1)) && u * (b * h) >= u * (d * (h - 1)))
            by (nonlinear_arith)
            requires
                b * h <= d * (h + 1),
                b * h >= d * (h - 1),
                u >= 0,
        ;
        assert(u * (b * h) == u * b * h && u * (d * (h + 1)) == u * d * (h + 1) && u * (d * (h
            - 1)) == u * d * (h - 1)) by (nonlinear_arith);
    }
    assert(t >= 0) by (nonlinear_arith)
        requires
            t == factor * n * one,
            factor > 0,
            n >= 0,
            one > 0,
    ;
}

/// A ratio times a factor is that product, off by no more than one part in two to the 50th.
pub proof fn law_a_ratio_is_accurate(numerator: nat, denominator: nat, factor: nat)
    requires
        numerator <= u64::MAX,
        0 < denominator <= u64::MAX,
        0 < factor <= 10000,
    ensures
        ratio_times(numerator, denominator, factor) is Finite,
        ratio_times(numerator, denominator, factor).well_formed(),
        distance(
            (units(ratio_times(numerator, denominator, factor)) * denominator) as int,
            (factor * numerator * pow2(117)) as int,
        ) * 0x4_0000_0000_0000 <= factor * numerator * pow2(117),
{
    lemma_pow2_pos(117);
    if numerator == 0 {
        law_conversion_keeps_order(1, denominator);
        let w = pow2(117);
        assert(0 * w == 0 && 0 * denominator == 0 && factor * 0 * w == 0) by (nonlinear_arith);
    } else {
        let (m1, e1, m2, e2) = lemma_ratio_parts(numerator, denominator, factor);
        let a = converted(numerator);
        let b = converted(denominator);
        let k = (e1 + 117) as nat;
        let x = m1 * pow2(k);
        lemma_relative_error(a, b, 117);
        lemma_relative_error(m1 * factor, 1, k);
        lemma_units_of_parts(m1, e1, m2, e2, factor);
        lemma_conversion_error(numerator);
        lemma_conversion_error(denominator);
        lemma_errors_add_up(
            units(ratio_times(numerator, denominator, factor)) as int,
            x as int,
            a as int,
            b as int,
            numerator as int,
            denominator as int,
            factor as int,
            pow2(117) as int,
        );
    }
}

/// A ratio that is `c` parts of two to the `j`, times a factor, is exact as long as the product
/// has no more than 53 bits.
pub proof fn law_a_short_ratio_is_exact(
    numerator: nat,
    denominator: nat,
    factor: nat,
    c: nat,
    j: nat,
)
    requires
        numerator <= 0x20_0000_0000_0000,
        0 < denominator <= 0x20_0000_0000_0000,
        0 < factor <= 10000,
        numerator * pow2(j) == c * denominator,
        c * factor <= 0x20_0000_0000_0000,
        j <= 117,
    ensures
        ratio_times(numerator, denominator, factor) is Finite,
        units(ratio_times(numerator, denominator, factor)) * pow2(j) == c * factor * pow2(117),
{
    lemma_pow2_pos(j);
    lemma_pow2_pos(117);
    let one = pow2(117);
    lemma2_to64();
    lemma2_to64_rest();
    law_converts_to_the_nearest(numerator, 0, 0);
    law_converts_to_the_nearest(denominator, 0, 0);
    if numerator == 0 {
        assert(c == 0) by (nonlinear_arith)
            requires
                0 * pow2(j) == c * denominator,
                denominator > 0,
        ;
        assert(0 * one == 0 && 0 * pow2(j) == 0 && 0 * factor * one == 0) by (nonlinear_arith);
    } else {
        let (m1, e1, m2, e2) = lemma_ratio_parts(numerator, denominator, factor);
        let k = (e1 + 117) as nat;
        let i = (117 - j) as nat;
        lemma_pow2_adds(j, i);
        let g = pow2(j);
        let w = pow2(i);
        assert(c <= 0x20_0000_0000_0000) by (nonlinear_arith)
            requires
                c * factor <= 0x20_0000_0000_0000,
                factor >= 1,
        ;
        law_rounds_to_the_nearest_double(numerator, denominator);
        assert(no_nearer(m1, e1, numerator, denominator, c, -(j as int), 117));
        assert(c * w * denominator == numerator * one) by (nonlinear_arith)
            requires
                numerator * g == c * denominator,
                one == g * w,
        ;
        let x = m1 * pow2(k);
        assert(x * denominator == c * w * denominator);
        assert(x == c * w) by (nonlinear_arith)
            requires
                x * denominator == c * w * denominator,
                denominator > 0,
        ;
        law_rounds_to_the_nearest_double(m1 * factor, 1);
        assert(no_nearer(m2, e2, m1 * factor, 1, c * factor, -(j as int) - e1, k));
        lemma_units_of_parts(m1, e1, m2, e2, factor);
        assert((c * factor) * w * 1 == factor * (c * w)) by (nonlinear_arith);
        let u = units(ratio_times(numerator, denominator, factor));
        assert(u == factor * (c * w));
        assert(factor * (c * w) * g == c * factor * (g * w)) by (nonlinear_arith);
    }
}

/// No ratio of 64-bit integers times a factor is too large for a 128-bit integer.
pub proof fn lemma_ratio_fits(numerator: nat, denominator: nat, factor: nat)
    requires
        numerator <= u64::MAX,
        0 < denominator <= u64::MAX,
        0 < factor <= 10000,
    ensures
        saturated(ratio_times(numerator, denominator, factor), u128::MAX as nat) < u128::MAX,
        ratio_times(numerator, denominator, factor) is Finite,
        ratio_times(numerator, denominator, factor)->exponent >= -117,
{
    law_a_ratio_is_accurate(numerator, denominator, factor);
    let x = ratio_times(numerator, denominator, factor);
    lemma_integer_part_bound(x->mantissa, x->exponent);
}

/// A ratio that a double holds, times a factor, is exactly that product as long as that has no
/// more than 53 bits.
pub proof fn law_an_exact_division_gives_an_exact_product(
    numerator: nat,
    denominator: nat,
    factor: nat,
    c: nat,
    j: nat,
)
    requires
        numerator <= 0x20_0000_0000_0000,
        0 < denominator <= 0x20_0000_0000_0000,
        0 < factor <= 10000,
        numerator * pow2(j) == c * denominator,
        c * factor <= 0x20_0000_0000_0000,
        j <= 117,
    ensures
        units(ratio_times(numerator, denominator, factor)) * denominator == factor * numerator
            * pow2(117),
{
    law_a_short_ratio_is_exact(numerator, denominator, factor, c, j);
    lemma_pow2_pos(j);
    let u = units(ratio_times(numerator, denominator, factor));
    let g = pow2(j);
    let one = pow2(117);
    assert((u * denominator) * g == (factor * numerator * one) * g) by {
        assert((u * denominator) * g == (u * g) * denominator) by (nonlinear_arith);
        assert((c * factor * one) * denominator == (c * denominator) * (factor * one))
            by (nonlinear_arith);
        assert((numerator * g) * (factor * one) == (factor * numerator * one) * g)
            by (nonlinear_arith);
    }
    assert(u * denominator == factor * numerator * one) by (nonlinear_arith)
        requires
            (u * denominator) * g == (factor * numerator * one) * g,
            g > 0,
    ;
}

/// The conversion to an integer cuts off what follows the point, and stops at the greatest
/// value that the integer type has.
pub proof fn law_conversion_cuts_off_the_fraction(x: Binary64, max: nat)
    requires
        x is Finite,
        x->exponent >= -117,
    ensures
        saturated(x, max) <= max,
        saturated(x, max) * pow2(117) <= units(x),
        saturated(x, max) < max ==> units(x) < (saturated(x, max) + 1) * pow2(117),
{
    let m = x->mantissa as nat;
    let e = x->exponent as int;
    let one = pow2(117);
    lemma_pow2_pos(117);
    let whole = integer_part(m, e);
    if e >= 0 {
        lemma_pow2_adds(e as nat, 117);
        let a = pow2(e as nat);
        assert(m * (a * one) == (m * a) * one) by (nonlinear_arith);
        assert((whole + 1) * one > whole * one) by (nonlinear_arith)
            requires
                one > 0,
        ;
    } else {
        let g = pow2((-e) as nat);
        let w = pow2((e + 117) as nat);
        lemma_pow2_pos((-e) as nat);
        lemma_pow2_pos((e + 117) as nat);
        lemma_pow2_adds((-e) as nat, (e + 117) as nat);
        lemma_fundamental_div_mod(m as int, g as int);
        assert(whole * (g * w) <= m * w && m * w < (whole + 1) * (g * w)) by (nonlinear_arith)
            requires
                m == g * whole + m as int % g as int,
                0 <= m as int % g as int,
                (m as int % g as int) < g,
                w > 0,
        ;
    }
    if whole > max {
        assert(max * one <= whole * one) by (nonlinear_arith)
            requires
                max <= whole,
        ;
    }
}

/// A ratio with nothing below the line is no number where there is nothing above it either, and
/// infinite otherwise. As an integer the one is zero and the other the greatest there is.
pub proof fn law_division_by_zero(numerator: nat, factor: nat, max: nat)
    ensures
        ratio_times(0, 0, factor) == Binary64::NotANumber,
        numerator > 0 ==> ratio_times(numerator, 0, factor) == Binary64::Infinity,
        saturated(Binary64::NotANumber, max) == 0,
        saturated(Binary64::Infinity, max) == max,
{
    if numerator > 0 {
        law_conversion_keeps_order(1, numerator);
    }
}

} // verus!
