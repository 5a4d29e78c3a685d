//! Rounding ratios of integers to 53 significant bits.

use vstd::arithmetic::div_mod::{lemma_fundamental_div_mod, lemma_fundamental_div_mod_converse};
use vstd::arithmetic::power2::{
    lemma2_to64, lemma2_to64_rest, lemma_pow2_adds, lemma_pow2_pos, lemma_pow2_strictly_increases,
    lemma_pow2_unfold, pow2,
};
use vstd::prelude::*;

verus! {

/// The smallest mantissa of a normalised number, two to the 52nd.
pub const MANTISSA_MIN: u64 = 0x10_0000_0000_0000;

/// Twice the smallest mantissa. Rounding up may reach it.
pub const MANTISSA_END: u64 = 0x20_0000_0000_0000;

/// The numerator of `p / q` divided by two to the `e`.
pub open spec fn scaled_num(p: nat, e: int) -> nat {
    if e >= 0 {
        p
    } else {
        p * pow2((-e) as nat)
    }
}

/// The denominator of `p / q` divided by two to the `e`.
pub open spec fn scaled_den(q: nat, e: int) -> nat {
    if e >= 0 {
        q * pow2(e as nat)
    } else {
        q
    }
}

/// Dividing `p / q` by two to the `e` leaves a number with exactly 53 bits before the point.
pub open spec fn in_binade(p: nat, q: nat, e: int) -> bool {
    MANTISSA_MIN * scaled_den(q, e) <= scaled_num(p, e) < MANTISSA_END * scaled_den(q, e)
}

/// The exponent of `p / q`.
pub open spec fn binade(p: nat, q: nat) -> int {
    choose|e: int| in_binade(p, q, e)
}

/// `n / d` rounded to the nearest integer, a tie to the even one.
pub open spec fn half_even(n: nat, d: nat) -> nat {
    let below = n / d;
    let rest = n % d;
    if 2 * rest < d || (2 * rest == d && below % 2 == 0) {
        below
    } else {
        below + 1
    }
}

/// The double nearest to `p / q`, for positive `p` and `q`.
pub open spec fn nearest(p: nat, q: nat) -> (nat, int) {
    let e = binade(p, q);
    (half_even(scaled_num(p, e), scaled_den(q, e)), e)
}

/// The integer part of `m` times two to the `e`.
pub open spec fn integer_part(m: nat, e: int) -> nat {
    if e >= 0 {
        m * pow2(e as nat)
    } else {
        m / pow2((-e) as nat)
    }
}

/// The integer that `n` becomes when it is converted to a double.
pub open spec fn converted(n: nat) -> nat {
    if n < MANTISSA_END {
        n
    } else {
        let (m, e) = nearest(n, 1);
        integer_part(m, e)
    }
}

/// How far two integers are apart.
pub open spec fn distance(a: int, b: int) -> int {
    if a >= b {
        a - b
    } else {
        b - a
    }
}

/// A greater power of two is at least twice the lesser one.
pub proof fn lemma_pow2_exceeds(k: nat, floor: nat)
    requires
        k > floor,
    ensures
        pow2(k) >= 2 * pow2(floor),
{
    lemma_pow2_unfold(floor + 1);
    if k > floor + 1 {
        lemma_pow2_strictly_increases(floor + 1, k);
    }
}

proof fn lemma_scaling(p: nat, q: nat, e1: int, e2: int)
    requires
        e1 <= e2,
    ensures
        scaled_num(p, e1) * scaled_den(q, e2) == scaled_num(p, e2) * scaled_den(q, e1) * pow2(
            (e2 - e1) as nat,
        ),
{
    let k = (e2 - e1) as nat;
    if e1 >= 0 {
        lemma_pow2_adds(e1 as nat, k);
        let a = pow2(e1 as nat);
        let b = pow2(k);
        assert(p * (q * (a * b)) == p * (q * a) * b) by (nonlinear_arith);
    } else if e2 < 0 {
        lemma_pow2_adds((-e2) as nat, k);
        let a = pow2((-e2) as nat);
        let b = pow2(k);
        assert((p * (a * b)) * q == p * a * q * b) by (nonlinear_arith);
    } else {
        lemma_pow2_adds((-e1) as nat, e2 as nat);
        let a = pow2((-e1) as nat);
        let b = pow2(e2 as nat);
        assert((p * a) * (q * b) == p * q * (a * b)) by (nonlinear_arith);
    }
}

proof fn lemma_binade_below(p: nat, q: nat, e1: int, e2: int)
    requires
        in_binade(p, q, e1),
        in_binade(p, q, e2),
        q > 0,
    ensures
        e1 >= e2,
{
    if e1 < e2 {
        lemma_scaling(p, q, e1, e2);
        let n1 = scaled_num(p, e1);
        let d1 = scaled_den(q, e1);
        let n2 = scaled_num(p, e2);
        let d2 = scaled_den(q, e2);
        let k = (e2 - e1) as nat;
        lemma_pow2_unfold(k);
        lemma_pow2_pos((k - 1) as nat);
        let g = pow2(k);
        assert(d2 > 0) by {
            lemma_pow2_pos(e2 as nat);
            assert(e2 >= 0 ==> q * pow2(e2 as nat) > 0) by (nonlinear_arith)
                requires
                    q > 0,
                    pow2(e2 as nat) > 0,
            ;
        }
        assert(n1 * d2 < MANTISSA_END * d1 * d2) by (nonlinear_arith)
            requires
                n1 < MANTISSA_END * d1,
                d2 > 0,
        ;
        assert(n2 * d1 * g >= MANTISSA_END * d1 * d2) by (nonlinear_arith)
            requires
                n2 >= MANTISSA_MIN * d2,
                g >= 2,
                MANTISSA_END == 2 * MANTISSA_MIN,
        ;
    }
}

/// The exponent of a positive ratio is the only one that leaves 53 bits before the point.
pub proof fn lemma_binade_unique(p: nat, q: nat, e: int)
    requires
        in_binade(p, q, e),
        q > 0,
    ensures
        binade(p, q) == e,
{
    let c = binade(p, q);
    assert(in_binade(p, q, c));
    lemma_binade_below(p, q, c, e);
    lemma_binade_below(p, q, e, c);
}

proof fn lemma_binade_above(p: nat, q: nat, e: nat) -> (found: int)
    requires
        q > 0,
        MANTISSA_MIN * (q * pow2(e)) <= p,
    ensures
        found >= e,
        in_binade(p, q, found),
    decreases p - q * pow2(e),
{
    let d = q * pow2(e);
    lemma_pow2_pos(e);
    assert(d > 0) by (nonlinear_arith)
        requires
            d == q * pow2(e),
            q > 0,
            pow2(e) > 0,
    ;
    if p < MANTISSA_END * d {
        e as int
    } else {
        lemma_pow2_unfold(e + 1);
        assert(q * (2 * pow2(e)) == 2 * (q * pow2(e))) by (nonlinear_arith);
        lemma_binade_above(p, q, e + 1)
    }
}

proof fn lemma_binade_under(p: nat, q: nat, k: nat) -> (found: int)
    requires
        p > 0,
        p * pow2(k) < MANTISSA_END * q,
    ensures
        in_binade(p, q, found),
    decreases MANTISSA_END * q - p * pow2(k),
{
    let n = p * pow2(k);
    lemma_pow2_pos(k);
    assert(n > 0) by (nonlinear_arith)
        requires
            n == p * pow2(k),
            p > 0,
            pow2(k) > 0,
    ;
    if n >= MANTISSA_MIN * q {
        if k == 0 {
            lemma2_to64();
            assert(q * 1 == q && p * 1 == p) by (nonlinear_arith);
        }
        -(k as int)
    } else {
        lemma_pow2_unfold(k + 1);
        assert(p * (2 * pow2(k)) == 2 * (p * pow2(k))) by (nonlinear_arith);
        lemma_binade_under(p, q, k + 1)
    }
}

/// Every positive ratio has an exponent.
proof fn lemma_binade_exists(p: nat, q: nat)
    requires
        p > 0,
        q > 0,
    ensures
        in_binade(p, q, binade(p, q)),
{
    lemma2_to64();
    assert(q * 1 == q && p * 1 == p) by (nonlinear_arith);
    if p >= MANTISSA_MIN * q {
        let e = lemma_binade_above(p, q, 0);
        assert(in_binade(p, q, e));
    } else {
        let e = lemma_binade_under(p, q, 0);
        assert(in_binade(p, q, e));
    }
}

proof fn lemma_scaled_den_positive(q: nat, e: int)
    requires
        q > 0,
    ensures
        scaled_den(q, e) > 0,
{
    if e >= 0 {
        lemma_pow2_pos(e as nat);
        assert(q * pow2(e as nat) > 0) by (nonlinear_arith)
            requires
                q > 0,
                pow2(e as nat) > 0,
        ;
    }
}

proof fn lemma_half_even_at_most(n: nat, d: nat, k: nat)
    requires
        d > 0,
        n <= k * d,
    ensures
        half_even(n, d) <= k,
{
    lemma_fundamental_div_mod(n as int, d as int);
    let f = n / d;
    let r = n % d;
    assert(f < k || (f == k && r == 0)) by (nonlinear_arith)
        requires
            n == d * f + r,
            n <= k * d,
            d > 0,
            0 <= r < d,
    ;
}

proof fn lemma_half_even_at_least(n: nat, d: nat, k: nat)
    requires
        d > 0,
        n >= k * d,
    ensures
        half_even(n, d) >= k,
{
    lemma_fundamental_div_mod(n as int, d as int);
    let f = n / d;
    let r = n % d;
    assert(f >= k) by (nonlinear_arith)
        requires
            n == d * f + r,
            n >= k * d,
            d > 0,
            0 <= r < d,
    ;
}

proof fn lemma_half_even_monotone(n1: nat, n2: nat, d: nat)
    requires
        d > 0,
        n1 <= n2,
    ensures
        half_even(n1, d) <= half_even(n2, d),
{
    lemma_fundamental_div_mod(n1 as int, d as int);
    lemma_fundamental_div_mod(n2 as int, d as int);
    let f1 = n1 / d;
    let f2 = n2 / d;
    let r1 = n1 % d;
    let r2 = n2 % d;
    assert(f1 < f2 || (f1 == f2 && r1 <= r2)) by (nonlinear_arith)
        requires
            n1 == d * f1 + r1,
            n2 == d * f2 + r2,
            n1 <= n2,
            d > 0,
            0 <= r1 < d,
            0 <= r2 < d,
    ;
}

/// No integer is nearer to a ratio than the one to which the ratio is rounded.
pub proof fn law_rounding_is_to_the_nearest(n: nat, d: nat, other: int)
    requires
        d > 0,
    ensures
        distance(n as int, (half_even(n, d) * d) as int) <= distance(n as int, other * d),
{
    lemma_fundamental_div_mod(n as int, d as int);
    let f = (n / d) as int;
    let r = (n % d) as int;
    assert(f * d == d * f && (f + 1) * d == d * f + d) by (nonlinear_arith);
    if other <= f {
        assert(other * d <= f * d) by (nonlinear_arith)
            requires
                other <= f,
                d > 0,
        ;
    } else {
        assert(other * d >= (f + 1) * d) by (nonlinear_arith)
            requires
                other >= f + 1,
                d > 0,
        ;
    }
}

/// A mantissa has 53 bits, or rounding has carried it to two to the 53rd.
pub proof fn lemma_mantissa_range(p: nat, q: nat)
    requires
        p > 0,
        q > 0,
    ensures
        MANTISSA_MIN <= nearest(p, q).0 <= MANTISSA_END,
        in_binade(p, q, nearest(p, q).1),
{
    lemma_binade_exists(p, q);
    let e = binade(p, q);
    let n = scaled_num(p, e);
    let d = scaled_den(q, e);
    lemma_scaled_den_positive(q, e);
    lemma_half_even_at_least(n, d, MANTISSA_MIN as nat);
    lemma_half_even_at_most(n, d, MANTISSA_END as nat);
}

/// The exponent of an integer with at least 53 bits is not negative.
pub proof fn lemma_exponent_of_integer(n: nat)
    requires
        n >= MANTISSA_MIN,
    ensures
        nearest(n, 1).1 >= 0,
        MANTISSA_MIN * pow2(nearest(n, 1).1 as nat) <= n < MANTISSA_END * pow2(
            nearest(n, 1).1 as nat,
        ),
        nearest(n, 1).0 == half_even(n, pow2(nearest(n, 1).1 as nat)),
{
    lemma_mantissa_range(n, 1);
    let e = nearest(n, 1).1;
    if e < 0 {
        let a = pow2((-e) as nat);
        lemma_pow2_unfold((-e) as nat);
        lemma_pow2_pos((-e - 1) as nat);
        assert(n * a >= MANTISSA_END) by (nonlinear_arith)
            requires
                n >= MANTISSA_MIN,
                a >= 2,
                MANTISSA_END == 2 * MANTISSA_MIN,
        ;
    }
    assert(1 * pow2(e as nat) == pow2(e as nat)) by (nonlinear_arith);
}

/// Rounding an integer does not pass a bound that a double can hold.
pub proof fn lemma_rounds_within(p: nat, c: nat, t: nat)
    requires
        MANTISSA_MIN <= p <= c * pow2(t),
        c < MANTISSA_END,
    ensures
        nearest(p, 1).1 >= 0,
        nearest(p, 1).0 * pow2(nearest(p, 1).1 as nat) <= c * pow2(t),
{
    lemma_exponent_of_integer(p);
    let (m, e) = nearest(p, 1);
    let s = pow2(e as nat);
    lemma_pow2_pos(e as nat);
    lemma_pow2_pos(t);
    if e > t {
        lemma_pow2_exceeds(e as nat, t);
        let st = pow2(t);
        assert(c * st < MANTISSA_MIN * s) by (nonlinear_arith)
            requires
                c < 2 * MANTISSA_MIN,
                2 * st <= s,
                st > 0,
        ;
    } else {
        let g = pow2((t - e) as nat);
        lemma_pow2_adds(e as nat, (t - e) as nat);
        assert(c * (s * g) == (c * g) * s) by (nonlinear_arith);
        lemma_half_even_at_most(p, s, c * g);
        assert(m * s <= (c * g) * s) by (nonlinear_arith)
            requires
                m <= c * g,
        ;
    }
}

/// A 64-bit integer becomes at most two to the 64th.
pub proof fn lemma_converted_max(n: nat)
    requires
        n <= u64::MAX,
    ensures
        converted(n) <= 0x1_0000_0000_0000_0000,
{
    if n >= MANTISSA_END {
        lemma2_to64();
        lemma2_to64_rest();
        lemma_pow2_adds(52, 12);
        lemma_rounds_within(n, MANTISSA_MIN as nat, 12);
    }
}

/// Conversion to a double keeps the order of integers.
pub proof fn law_conversion_keeps_order(a: nat, b: nat)
    requires
        a <= b,
    ensures
        converted(a) <= converted(b),
{
    if b >= MANTISSA_END {
        lemma_exponent_of_integer(b);
        lemma_mantissa_range(b, 1);
        let (m2, e2) = nearest(b, 1);
        let s2 = pow2(e2 as nat);
        if a < MANTISSA_END {
            if e2 == 0 {
                lemma2_to64();
            }
            lemma_pow2_unfold(e2 as nat);
            lemma_pow2_pos((e2 - 1) as nat);
            assert(m2 * s2 >= MANTISSA_END) by (nonlinear_arith)
                requires
                    m2 >= MANTISSA_MIN,
                    s2 >= 2,
                    MANTISSA_END == 2 * MANTISSA_MIN,
            ;
        } else {
            lemma_exponent_of_integer(a);
            lemma_mantissa_range(a, 1);
            let (m1, e1) = nearest(a, 1);
            let s1 = pow2(e1 as nat);
            lemma_pow2_pos(e1 as nat);
            lemma_pow2_pos(e2 as nat);
            if e1 == e2 {
                lemma_half_even_monotone(a, b, s1);
                assert(m1 * s1 <= m2 * s1) by (nonlinear_arith)
                    requires
                        m1 <= m2,
                ;
            } else if e1 < e2 {
                lemma_pow2_exceeds(e2 as nat, e1 as nat);
                assert(m1 * s1 <= m2 * s2) by (nonlinear_arith)
                    requires
                        m1 <= 2 * m2,
                        2 * s1 <= s2,
                ;
            } else {
                lemma_pow2_exceeds(e1 as nat, e2 as nat);
                assert(MANTISSA_END * s2 <= MANTISSA_MIN * s1) by (nonlinear_arith)
                    requires
                        2 * s2 <= s1,
                        MANTISSA_END == 2 * MANTISSA_MIN,
                ;
            }
        }
    }
}

/// A ratio of at most one has a value of at most one.
pub proof fn lemma_quotient_at_most_one(a: nat, b: nat)
    requires
        0 < a <= b,
    ensures
        nearest(a, b).1 <= -52,
        nearest(a, b).1 == -52 ==> nearest(a, b).0 == MANTISSA_MIN,
{
    lemma_mantissa_range(a, b);
    let (m, e) = nearest(a, b);
    lemma2_to64();
    lemma2_to64_rest();
    if e >= 0 {
        let s = pow2(e as nat);
        lemma_pow2_pos(e as nat);
        assert(MANTISSA_MIN * (b * s) > a) by (nonlinear_arith)
            requires
                s >= 1,
                b >= a,
                b > 0,
        ;
    } else {
        let s = pow2((-e) as nat);
        if -e < 52 {
            lemma_pow2_exceeds(52, (-e) as nat);
            assert(MANTISSA_MIN * b > a * s) by (nonlinear_arith)
                requires
                    2 * s <= MANTISSA_MIN,
                    a <= b,
                    b > 0,
            ;
        } else if -e == 52 {
            assert(a * s <= MANTISSA_MIN * b) by (nonlinear_arith)
                requires
                    s == MANTISSA_MIN,
                    a <= b,
            ;
            lemma_half_even_at_most(a * s, b, MANTISSA_MIN as nat);
        }
    }
}

/// The exponent of a ratio of integers that 64-bit ones become is within reach.
pub proof fn lemma_quotient_exponent(a: nat, b: nat)
    requires
        0 < a,
        0 < b <= 0x1_0000_0000_0000_0000,
    ensures
        nearest(a, b).1 >= -117,
{
    lemma_mantissa_range(a, b);
    let e = nearest(a, b).1;
    if e < -117 {
        lemma2_to64();
        lemma2_to64_rest();
        lemma_pow2_adds(64, 53);
        let s = pow2((-e) as nat);
        lemma_pow2_exceeds((-e) as nat, 117);
        assert(a * s >= s) by (nonlinear_arith)
            requires
                a >= 1,
        ;
    }
}

proof fn lemma_half_even_common_factor(n: nat, d: nat, c: nat)
    requires
        d > 0,
        c > 0,
    ensures
        half_even(n * c, d * c) == half_even(n, d),
{
    lemma_fundamental_div_mod(n as int, d as int);
    let f = n / d;
    let r = n % d;
    assert((n * c) as int == (f * (d * c) + r * c) as int && r * c < d * c && d * c > 0)
        by (nonlinear_arith)
        requires
            n == d * f + r,
            0 <= r < d,
            c > 0,
    ;
    lemma_fundamental_div_mod_converse(
        (n * c) as int,
        (d * c) as int,
        f as int,
        (r * c) as int,
    );
    assert((2 * r < d <==> 2 * (r * c) < d * c) && (2 * r == d <==> 2 * (r * c) == d * c))
        by (nonlinear_arith)
        requires
            c > 0,
    ;
}

/// Multiplying by a power of two is exact: it shifts the exponent and keeps the mantissa. So a
/// product may be rounded on the scale of its mantissas.
pub proof fn law_power_of_two_shifts_the_exponent(p: nat, q: nat, k: nat)
    requires
        p > 0,
        q > 0,
    ensures
        nearest(p * pow2(k), q) == (nearest(p, q).0, nearest(p, q).1 + k),
{
    lemma_binade_exists(p, q);
    let e = binade(p, q);
    let e2 = e + k;
    let n = scaled_num(p, e);
    let d = scaled_den(q, e);
    let n2 = scaled_num(p * pow2(k), e2);
    let d2 = scaled_den(q, e2);
    let c = if e >= 0 {
        pow2(k)
    } else if e2 >= 0 {
        pow2(e2 as nat)
    } else {
        1
    };
    lemma_pow2_pos(k);
    lemma_pow2_pos(e2 as nat);
    lemma_scaled_den_positive(q, e);
    if e >= 0 {
        lemma_pow2_adds(e as nat, k);
        let a = pow2(e as nat);
        assert(q * (a * c) == (q * a) * c) by (nonlinear_arith);
    } else if e2 >= 0 {
        lemma_pow2_adds((-e) as nat, e2 as nat);
        let a = pow2((-e) as nat);
        assert(p * (a * c) == (p * a) * c) by (nonlinear_arith);
    } else {
        lemma_pow2_adds(k, (-e2) as nat);
        let a = pow2(k);
        let b = pow2((-e2) as nat);
        assert((p * a) * b == p * (a * b)) by (nonlinear_arith);
        assert((p * (a * b)) * 1 == p * (a * b) && q * 1 == q) by (nonlinear_arith);
    }
    assert(n2 == n * c && d2 == d * c);
    assert(MANTISSA_MIN * (d * c) <= n * c && n * c < MANTISSA_END * (d * c)) by (nonlinear_arith)
        requires
            MANTISSA_MIN * d <= n,
            n < MANTISSA_END * d,
            c > 0,
    ;
    assert(in_binade(p * pow2(k), q, e2));
    lemma_binade_unique(p * pow2(k), q, e2);
    lemma_half_even_common_factor(n, d, c);
}

proof fn lemma_tie_goes_to_the_even_one(n: nat, d: nat, other: int)
    requires
        d > 0,
        other != half_even(n, d),
        distance(n as int, (half_even(n, d) * d) as int) == distance(n as int, other * d),
    ensures
        half_even(n, d) % 2 == 0,
{
    lemma_fundamental_div_mod(n as int, d as int);
    let f = (n / d) as int;
    let r = (n % d) as int;
    assert(f * d == d * f && (f + 1) * d == d * f + d) by (nonlinear_arith);
    if other < f {
        assert(other * d <= (f - 1) * d && (f - 1) * d == f * d - d) by (nonlinear_arith)
            requires
                other <= f - 1,
                d > 0,
        ;
    } else if other > f + 1 {
        assert(other * d >= (f + 2) * d && (f + 2) * d == f * d + 2 * d) by (nonlinear_arith)
            requires
                other >= f + 2,
                d > 0,
        ;
    }
}

/// The ratio `p / q` on a scale of two to the `k` for one, in parts of `q`.
pub open spec fn on_scale(p: nat, k: nat) -> int {
    (p * pow2(k)) as int
}

/// The number `m` times two to the `e` on a scale of two to the `k` for one, in parts of `q`.
pub open spec fn double_on_scale(m: nat, e: int, q: nat, k: nat) -> int {
    (m * pow2((e + k) as nat) * q) as int
}

/// The number `m` times two to the `e`, with 53 bits in `m`, is not nearer to `p / q` than `c`
/// times two to the `f` is; where both are equally near and differ, `c` is even.
pub open spec fn no_nearer(c: nat, f: int, p: nat, q: nat, m: nat, e: int, k: nat) -> bool {
    m <= 0x20_0000_0000_0000 && f + k >= 0 && e + k >= 0 ==> {
        let mine = double_on_scale(c, f, q, k);
        let other = double_on_scale(m, e, q, k);
        let exact = on_scale(p, k);
        &&& distance(mine, exact) <= distance(other, exact)
        &&& distance(mine, exact) == distance(other, exact) && mine != other ==> c % 2 == 0
    }
}

/// `c` times two to the `f` is the double nearest to `p / q`: of all numbers with a mantissa of
/// 53 bits none is nearer, and a tie went to the even mantissa.
pub open spec fn is_nearest(c: nat, f: int, p: nat, q: nat) -> bool {
    forall|m: nat, e: int, k: nat| #[trigger] no_nearer(c, f, p, q, m, e, k)
}

proof fn lemma_distance_scales(a: int, b: int, s: nat)
    ensures
        distance(a * s, b * s) == distance(a, b) * s,
{
    if a >= b {
        assert(a * s >= b * s && a * s - b * s == (a - b) * s) by (nonlinear_arith)
            requires
                a >= b,
        ;
    } else {
        assert(a * s <= b * s && b * s - a * s == (b - a) * s) by (nonlinear_arith)
            requires
                a <= b,
        ;
    }
}

/// On the scale of two to the `k`, a ratio and its double are the scaled ones times a common
/// power of two.
proof fn lemma_common_scale(p: nat, q: nat, f: int, k: nat) -> (s: nat)
    requires
        f + k >= 0,
    ensures
        s > 0,
        on_scale(p, k) == scaled_num(p, f) * s,
        forall|e: int, m: nat|
            e >= f ==> #[trigger] double_on_scale(m, e, q, k) == m * pow2((e - f) as nat)
                * scaled_den(q, f) * s,
        forall|e: int, m: nat|
            -(k as int) <= e < f ==> #[trigger] double_on_scale(m, e, q, k) * pow2((f - e) as nat)
                == m * scaled_den(q, f) * s,
{
    let s = if f >= 0 {
        pow2(k)
    } else {
        pow2((f + k) as nat)
    };
    lemma_pow2_pos(k);
    lemma_pow2_pos((f + k) as nat);
    if f < 0 {
        lemma_pow2_adds((-f) as nat, (f + k) as nat);
        let a = pow2((-f) as nat);
        assert(p * (a * s) == p * a * s) by (nonlinear_arith);
    } else {
        lemma_pow2_adds(f as nat, k);
    }
    let d = scaled_den(q, f);
    assert(pow2((f + k) as nat) * q == d * s) by {
        if f >= 0 {
            let a = pow2(f as nat);
            assert(a * s * q == q * a * s) by (nonlinear_arith);
        } else {
            assert(s * q == q * s) by (nonlinear_arith);
        }
    }
    let w = pow2((f + k) as nat);
    assert forall|e: int, m: nat| e >= f implies #[trigger] double_on_scale(m, e, q, k) == m * pow2(
        (e - f) as nat,
    ) * d * s by {
        lemma_pow2_adds((e - f) as nat, (f + k) as nat);
        let g = pow2((e - f) as nat);
        assert(m * (g * w) * q == m * g * (w * q)) by (nonlinear_arith);
        assert(m * g * (d * s) == m * g * d * s) by (nonlinear_arith);
    }
    assert forall|e: int, m: nat| -(k as int) <= e < f implies #[trigger] double_on_scale(
        m,
        e,
        q,
        k,
    ) * pow2((f - e) as nat) == m * d * s by {
        lemma_pow2_adds((e + k) as nat, (f - e) as nat);
        let g = pow2((f - e) as nat);
        let v = pow2((e + k) as nat);
        assert(m * v * q * g == m * ((v * g) * q)) by (nonlinear_arith);
        assert(m * (d * s) == m * d * s) by (nonlinear_arith);
    }
    s
}

proof fn lemma_no_nearer(p: nat, q: nat, m: nat, e: int, k: nat)
    requires
        p > 0,
        q > 0,
    ensures
        no_nearer(nearest(p, q).0, nearest(p, q).1, p, q, m, e, k),
{
    let (c, f) = nearest(p, q);
    if m <= 0x20_0000_0000_0000 && f + k >= 0 && e + k >= 0 {
        lemma_mantissa_range(p, q);
        let n = scaled_num(p, f);
        let d = scaled_den(q, f);
        lemma_scaled_den_positive(q, f);
        let s = lemma_common_scale(p, q, f, k);
        let mine = double_on_scale(c, f, q, k);
        let other = double_on_scale(m, e, q, k);
        let exact = on_scale(p, k);
        lemma2_to64();
        assert(c * 1 * d * s == (c * d) * s) by (nonlinear_arith);
        assert(mine == (c * d) * s);
        lemma_distance_scales(n as int, (c * d) as int, s);
        if e >= f {
            let j = m * pow2((e - f) as nat);
            assert(j * d * s == (j * d) * s) by (nonlinear_arith);
            law_rounding_is_to_the_nearest(n, d, j as int);
            lemma_distance_scales(n as int, (j * d) as int, s);
            let x = distance(n as int, (c * d) as int);
            let y = distance(n as int, (j * d) as int);
            assert(x * s <= y * s && (x * s == y * s ==> x == y)) by (nonlinear_arith)
                requires
                    x <= y,
                    s > 0,
            ;
            if distance(mine, exact) == distance(other, exact) && mine != other {
                lemma_tie_goes_to_the_even_one(n, d, j as int);
            }
        } else {
            let g = pow2((f - e) as nat);
            lemma_pow2_unfold((f - e) as nat);
            lemma_pow2_pos((f - e - 1) as nat);
            let j = MANTISSA_MIN as int;
            let jd = (j * d) as nat;
            let jds = jd * s;
            assert(other <= jds) by (nonlinear_arith)
                requires
                    other * g == m * d * s,
                    m <= 2 * j,
                    g >= 2,
                    jds == (j * d) * s,
                    other >= 0,
                    d > 0,
                    s > 0,
            ;
            assert(jds <= n * s) by (nonlinear_arith)
                requires
                    jds == jd * s,
                    jd <= n,
            ;
            law_rounding_is_to_the_nearest(n, d, j);
            lemma_distance_scales(n as int, jd as int, s);
            let x = distance(n as int, (c * d) as int);
            let y = distance(n as int, jd as int);
            assert(x * s <= y * s && (x * s == y * s ==> x == y)) by (nonlinear_arith)
                requires
                    x <= y,
                    s > 0,
            ;
            if distance(mine, exact) == distance(other, exact) && mine != other {
                assert(other == jds);
                lemma_tie_goes_to_the_even_one(n, d, j);
            }
        }
    }
}

/// A ratio is rounded to the double nearest to it, a tie to the even mantissa.
pub proof fn law_rounds_to_the_nearest_double(p: nat, q: nat)
    requires
        p > 0,
        q > 0,
    ensures
        is_nearest(nearest(p, q).0, nearest(p, q).1, p, q),
{
    let (c, f) = nearest(p, q);
    assert forall|m: nat, e: int, k: nat| #[trigger] no_nearer(c, f, p, q, m, e, k) by {
        lemma_no_nearer(p, q, m, e, k);
    }
}

/// An integer becomes the nearest one that a double can hold; one of at most 53 bits stays.
pub proof fn law_converts_to_the_nearest(n: nat, m: nat, e: nat)
    requires
        m <= 0x20_0000_0000_0000,
    ensures
        distance(converted(n) as int, n as int) <= distance((m * pow2(e)) as int, n as int),
        n <= 0x20_0000_0000_0000 ==> converted(n) == n,
{
    lemma2_to64();
    lemma2_to64_rest();
    if n >= MANTISSA_END {
        lemma_exponent_of_integer(n);
        let (c, f) = nearest(n, 1);
        lemma_no_nearer(n, 1, m, e as int, 0);
        lemma_no_nearer(n, 1, MANTISSA_END as nat, 0, 0);
        assert(n * 1 == n && m * pow2(e) * 1 == m * pow2(e) && c * pow2(f as nat) * 1 == c * pow2(
            f as nat,
        ) && MANTISSA_END * 1 * 1 == MANTISSA_END) by (nonlinear_arith);
    }
}

/// A rounded ratio differs from the ratio by at most one part in two to the 53rd.
pub proof fn lemma_relative_error(p: nat, q: nat, k: nat)
    requires
        p > 0,
        q > 0,
        nearest(p, q).1 + k >= 0,
    ensures
        distance(
            double_on_scale(nearest(p, q).0, nearest(p, q).1, q, k),
            on_scale(p, k),
        ) * 0x20_0000_0000_0000 <= on_scale(p, k),
{
    let (c, f) = nearest(p, q);
    lemma_mantissa_range(p, q);
    let n = scaled_num(p, f);
    let d = scaled_den(q, f);
    lemma_scaled_den_positive(q, f);
    let s = lemma_common_scale(p, q, f, k);
    lemma2_to64();
    assert(c * 1 * d * s == (c * d) * s) by (nonlinear_arith);
    lemma_distance_scales((c * d) as int, n as int, s);
    let x = distance((c * d) as int, n as int);
    lemma_fundamental_div_mod(n as int, d as int);
    let below = (n / d) as int;
    assert(below * d == d * below && (below + 1) * d == d * below + d) by (nonlinear_arith);
    assert(double_on_scale(c, f, q, k) == (c * d) * s);
    assert(2 * x <= d);
    assert(x * s * 0x20_0000_0000_0000 <= n * s) by (nonlinear_arith)
        requires
            2 * x <= d,
            0x10_0000_0000_0000 * d <= n,
            s > 0,
    ;
}

/// The exponent of a ratio of at most two to the 64th is within reach.
pub proof fn lemma_quotient_exponent_max(a: nat, b: nat)
    requires
        0 < a <= 0x1_0000_0000_0000_0000,
        0 < b,
    ensures
        nearest(a, b).1 <= 12,
{
    lemma_mantissa_range(a, b);
    let e = nearest(a, b).1;
    if e > 12 {
        lemma2_to64();
        lemma_pow2_exceeds(e as nat, 12);
        let s = pow2(e as nat);
        assert(MANTISSA_MIN * (b * s) > 0x1_0000_0000_0000_0000) by (nonlinear_arith)
            requires
                b >= 1,
                s >= 0x2000,
                MANTISSA_MIN == 0x10_0000_0000_0000,
        ;
    }
}

/// The conversion of a positive integer is off by at most one part in two to the 53rd.
pub proof fn lemma_conversion_error(n: nat)
    ensures
        distance(converted(n) as int, n as int) * 0x20_0000_0000_0000 <= n,
{
    if n >= MANTISSA_END {
        lemma2_to64();
        lemma_exponent_of_integer(n);
        let (c, f) = nearest(n, 1);
        lemma_relative_error(n, 1, 0);
        assert(n * 1 == n && c * pow2(f as nat) * 1 == c * pow2(f as nat)) by (nonlinear_arith);
    }
}

} // verus!
