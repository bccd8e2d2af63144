//! Proportional scaling, with the exact rounding of double precision arithmetic.
use vstd::arithmetic::power2::{lemma_pow2_adds, lemma_pow2_pos, lemma_pow2_unfold, pow2};
use vstd::prelude::*;

verus! {

/// Two to the power of 52: a double has 53 significant bits.
pub const TWO_52: u64 = 0x10_0000_0000_0000;

/// How often `n` is to be doubled until it is at least `d`.
pub open spec fn doublings(n: nat, d: nat) -> nat
    decreases
            if n < d {
                d - n
            } else {
                0
            },
{
    if n == 0 || n >= d {
        0
    } else {
        1 + doublings(2 * n, d)
    }
}

/// The integer nearest to `n / d`, the even one of two that are equally near.
pub open spec fn div_even(n: nat, d: nat) -> nat {
    if 2 * (n % d) < d || (2 * (n % d) == d && (n / d) % 2 == 0) {
        n / d
    } else {
        n / d + 1
    }
}

/// The integer nearest to `n / d`, the larger one of two that are equally near.
pub open spec fn div_half_up(n: nat, d: nat) -> nat {
    (2 * n + d) / (2 * d)
}

/// How often `a / span` is to be doubled until it has 53 bits before the point.
pub open spec fn fraction_exponent(a: nat, span: nat) -> nat {
    doublings(a, span * TWO_52 as nat)
}

/// The 53 bits of the double nearest to `a / span`, as a whole number: the double itself is smaller
/// by two to the power of [`fraction_exponent`].
pub open spec fn fraction_mantissa(a: nat, span: nat) -> nat {
    div_even(a * pow2(fraction_exponent(a, span)), span)
}

/// The number nearest to `p` that has no more than 53 significant bits.
pub open spec fn round_53_bits(p: nat) -> nat {
    let j = doublings(2 * TWO_52 as nat, p + 1);
    div_even(p, pow2(j)) * pow2(j)
}

/// The position on a scale of length `max` that stands where `a` stands on a scale of length
/// `span`: zero below the scale, `max` beyond its end, and between them the fraction, its product
/// with `max` and the nearest integer, each rounded in turn.
pub open spec fn scaled(a: int, span: nat, max: nat) -> nat {
    if a <= 0 {
        0
    } else if a >= span {
        max
    } else {
        div_half_up(
            round_53_bits(fraction_mantissa(a as nat, span) * max),
            pow2(fraction_exponent(a as nat, span)),
        )
    }
}

proof fn lemma_doublings(n: nat, d: nat)
    requires
        0 < n < d,
    ensures
        d <= n * pow2(doublings(n, d)) < 2 * d,
        doublings(n, d) >= 1,
    decreases d - n,
{
    let k = doublings(n, d);
    lemma_pow2_unfold(k);
    let rest = doublings(2 * n, d);
    assert(k == 1 + rest);
    if 2 * n < d {
        lemma_doublings(2 * n, d);
        assert(n * pow2(k) == (2 * n) * pow2(rest)) by (nonlinear_arith)
            requires
                pow2(k) == 2 * pow2(rest),
        ;
    } else {
        assert(rest == 0);
        vstd::arithmetic::power2::lemma2_to64();
        assert(pow2(k) == 2);
        assert(n * pow2(k) == 2 * n) by (nonlinear_arith)
            requires
                pow2(k) == 2,
        ;
    }
}

/// Double `n` until it is at least `d`; the result is the power of two that it took.
fn double_until(n: u128, d: u128) -> (power: u128)
    requires
        0 < n,
        d < 0x1000_0000_0000_0000_0000_0000u128,
        n < 0x1000_0000_0000_0000_0000_0000u128,
    ensures
        power == pow2(doublings(n as nat, d as nat)),
        power >= 1,
        power < 2 * d || power == 1,
        n < d ==> n * power < 2 * d,
{
    let mut m: u128 = n;
    let mut power: u128 = 1;
    let ghost mut k: nat = 0;
    proof {
        vstd::arithmetic::power2::lemma2_to64();
        assert(n * 1 == n);
    }
    while m < d
        invariant
            d < 0x1000_0000_0000_0000_0000_0000u128,
            0 < n,
            m == n * power,
            power == pow2(k),
            power >= 1,
            power <= m,
            m < 2 * d || m == n,
            m < 0x2000_0000_0000_0000_0000_0000u128,
            m == n ==> power == 1,
            doublings(n as nat, d as nat) == k + doublings(m as nat, d as nat),
        decreases
                if m < d {
                    d - m
                } else {
                    0
                },
    {
        proof {
            lemma_pow2_unfold(k + 1);
            assert(2 * (n * power) == n * (2 * power)) by (nonlinear_arith);
            k = k + 1;
        }
        m = 2 * m;
        power = 2 * power;
        proof {
            assert(power <= m && m != n) by (nonlinear_arith)
                requires
                    m == n * power,
                    0 < n,
                    power >= 2,
            ;
        }
    }
    power
}

/// The integer nearest to `n / d`, the even one of two that are equally near.
fn divide_even(n: u128, d: u128) -> (q: u128)
    requires
        0 < d < 0x1000_0000_0000_0000_0000_0000u128,
        n < 0x1000_0000_0000_0000_0000_0000u128,
    ensures
        q == div_even(n as nat, d as nat),
{
    let q: u128 = n / d;
    let r: u128 = n % d;
    proof {
        vstd::arithmetic::div_mod::lemma_div_is_ordered_by_denominator(n as int, 1, d as int);
    }
    if 2 * r < d || (2 * r == d && q % 2 == 0) {
        q
    } else {
        q + 1
    }
}

proof fn lemma_div_even_bound(n: nat, d: nat, bound: nat)
    requires
        0 < d,
        n <= bound * d,
    ensures
        div_even(n, d) <= bound,
{
    let q = n / d;
    let r = n % d;
    vstd::arithmetic::div_mod::lemma_fundamental_div_mod(n as int, d as int);
    assert(n == d * q + r);
    if q >= bound {
        assert(d * q >= bound * d) by (nonlinear_arith)
            requires
                q >= bound,
        ;
        assert(r == 0 && d * q == bound * d);
        assert(q == bound) by (nonlinear_arith)
            requires
                d * q == bound * d,
                d > 0,
        ;
    }
}

/// Rounding to 53 bits does not pass a multiple of `power` that is less than `power` times two to
/// the power of 32.
proof fn lemma_round_53_bound(p: nat, k: nat, max: nat)
    requires
        p <= pow2(k) * max,
        max < 0x1_0000_0000,
    ensures
        round_53_bits(p) <= pow2(k) * max,
{
    let limit = 2 * TWO_52 as nat;
    let j = doublings(limit, p + 1);
    let step = pow2(j);
    let power = pow2(k);
    lemma_pow2_pos(j);
    lemma_pow2_pos(k);
    if p + 1 <= limit {
        assert(j == 0);
        vstd::arithmetic::power2::lemma2_to64();
        assert(p / 1 == p && p % 1 == 0) by (nonlinear_arith);
        assert(div_even(p, 1) * 1 == p);
    } else {
        lemma_doublings(limit, p + 1);
        assert(limit * step < 2 * (p + 1));
        assert(step < power) by (nonlinear_arith)
            requires
                limit * step < 2 * (p + 1),
                p <= power * max,
                max < 0x1_0000_0000,
                limit == 0x20_0000_0000_0000,
                power >= 1,
        ;
        if j >= k {
            if j > k {
                vstd::arithmetic::power2::lemma_pow2_strictly_increases(k, j);
            }
            assert(false);
        }
        let rest = pow2((k - j) as nat);
        lemma_pow2_adds(j, (k - j) as nat);
        assert(power == step * rest);
        assert(power * max == (rest * max) * step) by (nonlinear_arith)
            requires
                power == step * rest,
        ;
        lemma_div_even_bound(p, step, rest * max);
        assert(div_even(p, step) * step <= (rest * max) * step) by (nonlinear_arith)
            requires
                div_even(p, step) <= rest * max,
        ;
    }
}

proof fn lemma_half_up_bound(n: nat, d: nat, max: nat)
    requires
        0 < d,
        n <= d * max,
    ensures
        div_half_up(n, d) <= max,
{
    assert((2 * n + d) / (2 * d) <= max) by (nonlinear_arith)
        requires
            0 < d,
            n <= d * max,
    ;
}

/// The position on a scale of length `max` that stands where `a` stands on a scale of length
/// `span`. It lies on the scale, and the ends of the one scale go to the ends of the other.
pub fn scale_position(a: i32, span: u32, max: u32) -> (res: u32)
    ensures
        res == scaled(a as int, span as nat, max as nat),
        res <= max,
{
    if a <= 0 {
        return 0;
    }
    if a as u32 >= span {
        return max;
    }
    let n: u128 = a as u128;
    let d: u128 = span as u128 * 0x10_0000_0000_0000;
    let power: u128 = double_until(n, d);
    let ghost k = fraction_exponent(n as nat, span as nat);
    proof {
        lemma_pow2_pos(k);
        assert(n < d) by (nonlinear_arith)
            requires
                n < span,
                d == span * TWO_52,
                TWO_52 == 0x10_0000_0000_0000,
        ;
        assert(n * power <= 0x20_0000_0000_0000 * span) by (nonlinear_arith)
            requires
                n * power < 2 * d,
                d == span * TWO_52,
                TWO_52 == 0x10_0000_0000_0000,
        ;
        lemma_div_even_bound((n * power) as nat, span as nat, 0x20_0000_0000_0000);
        assert(n * power <= power * span) by (nonlinear_arith)
            requires
                n <= span,
        ;
        lemma_div_even_bound((n * power) as nat, span as nat, power as nat);
    }
    let mantissa: u128 = divide_even(n * power, span as u128);
    proof {
        assert(mantissa * max <= 0x20_0000_0000_0000 * 0xffff_ffff) by (nonlinear_arith)
            requires
                mantissa <= 0x20_0000_0000_0000,
                max <= 0xffff_ffff,
        ;
        assert(mantissa * max <= power * max) by (nonlinear_arith)
            requires
                mantissa <= power,
        ;
        lemma_round_53_bound((mantissa * max) as nat, k, max as nat);
        lemma_half_up_bound(
            round_53_bits((mantissa * max) as nat),
            power as nat,
            max as nat,
        );
        assert(power * max <= 0x20_0000_0000_0000_0000_0000_0000_0000) by (nonlinear_arith)
            requires
                n * power < 2 * d,
                n >= 1,
                d == span * TWO_52,
                TWO_52 == 0x10_0000_0000_0000,
                span <= 0xffff_ffff,
                max <= 0xffff_ffff,
        ;
    }
    let product: u128 = mantissa * max as u128;
    let step: u128 = double_until(2 * TWO_52 as u128, product + 1);
    let rounded: u128 = divide_even(product, step) * step;
    ((2 * rounded + power) / (2 * power)) as u32
}

proof fn lemma_div_even_near(n: nat, d: nat)
    requires
        0 < d,
    ensures
        -d <= 2 * (div_even(n, d) * d - n) <= d,
{
    let q = n / d;
    let r = n % d;
    vstd::arithmetic::div_mod::lemma_fundamental_div_mod(n as int, d as int);
    assert(n == d * q + r);
    assert((q + 1) * d == d * q + d) by (nonlinear_arith);
    assert(q * d == d * q) by (nonlinear_arith);
}

proof fn lemma_half_up_near(n: nat, d: nat)
    requires
        0 < d,
    ensures
        -d <= 2 * (div_half_up(n, d) * d - n) <= d,
{
    let q = div_half_up(n, d);
    let r = (2 * n + d) % (2 * d);
    vstd::arithmetic::div_mod::lemma_fundamental_div_mod((2 * n + d) as int, (2 * d) as int);
    assert(2 * n + d == (2 * d) * q + r);
    assert((2 * d) * q == 2 * (q * d)) by (nonlinear_arith);
}

proof fn lemma_round_53_near(p: nat)
    ensures
        ({
            let step = pow2(doublings(2 * TWO_52 as nat, p + 1));
            &&& -step <= 2 * (round_53_bits(p) - p) <= step
            &&& step == 1 || 2 * TWO_52 * step < 2 * (p + 1)
        }),
{
    let limit = 2 * TWO_52 as nat;
    let j = doublings(limit, p + 1);
    lemma_pow2_pos(j);
    if p + 1 <= limit {
        vstd::arithmetic::power2::lemma2_to64();
    } else {
        lemma_doublings(limit, p + 1);
    }
    lemma_div_even_near(p, pow2(j));
}

/// With all its roundings, the scaled position is at most one step away from the exact proportion.
pub proof fn law_scaled_is_proportional(a: int, span: nat, max: nat)
    requires
        0 <= a <= span,
        0 < span < 0x1_0000_0000,
        max < 0x1_0000_0000,
    ensures
        -span <= scaled(a, span, max) * span - a * max <= span,
{
    if a == 0 {
        assert(0 * span == 0 && 0 * max == 0) by (nonlinear_arith);
    } else if a == span {
        assert(max * span == a * max) by (nonlinear_arith)
            requires
                a == span,
        ;
    } else {
        let n = a as nat;
        let k = fraction_exponent(n, span);
        let power = pow2(k);
        let mantissa = fraction_mantissa(n, span);
        let p = mantissa * max;
        let rounded = round_53_bits(p);
        let step = pow2(doublings(2 * TWO_52 as nat, p + 1));
        let res = div_half_up(rounded, power);
        lemma_pow2_pos(k);
        assert(n < span * TWO_52) by (nonlinear_arith)
            requires
                n < span,
                TWO_52 == 0x10_0000_0000_0000,
        ;
        lemma_doublings(n, span * TWO_52 as nat);
        assert(power > 0x10_0000_0000_0000) by (nonlinear_arith)
            requires
                span * TWO_52 <= n * power,
                0 < n < span,
                TWO_52 == 0x10_0000_0000_0000,
        ;
        lemma_div_even_near(n * power, span);
        lemma_round_53_near(p);
        lemma_half_up_near(rounded, power);
        assert(n * power <= power * span) by (nonlinear_arith)
            requires
                n <= span,
        ;
        lemma_div_even_bound(n * power, span, power);
        assert(step + max <= power) by {
            assert(p <= power * max) by (nonlinear_arith)
                requires
                    p == mantissa * max,
                    mantissa <= power,
            ;
            assert(0x20_0000_0000_0000 * step <= 2 * (power * max) + 0x20_0000_0000_0000);
            assert(power * max <= power * 0xffff_ffff) by (nonlinear_arith)
                requires
                    max <= 0xffff_ffff,
            ;
        }
        let e1 = mantissa * span - n * power;
        let e2 = rounded - p;
        let e3 = res * power - rounded;
        assert(power * (res * span - a * max) == span * e3 + span * e2 + max * e1)
            by (nonlinear_arith)
            requires
                e1 == mantissa * span - n * power,
                e2 == rounded - p,
                e3 == res * power - rounded,
                p == mantissa * max,
                n == a,
        ;
        assert(-(span * (power + step + max)) <= 2 * (span * e3 + span * e2 + max * e1) <= span * (
        power + step + max)) by (nonlinear_arith)
            requires
                -span <= 2 * e1 <= span,
                -step <= 2 * e2 <= step,
                -power <= 2 * e3 <= power,
                span >= 0,
                max >= 0,
        ;
        assert(-span <= res * span - a * max <= span) by (nonlinear_arith)
            requires
                power * (res * span - a * max) == span * e3 + span * e2 + max * e1,
                -(span * (power + step + max)) <= 2 * (span * e3 + span * e2 + max * e1) <= span * (
                power + step + max),
                step + max <= power,
                power > 0,
                span > 0,
        ;
    }
}

/// Scaling a position and scaling the result back gives the position again, up to one step of each
/// of the two scales.
pub proof fn law_scaled_round_trip(a: int, span: nat, max: nat)
    requires
        0 <= a <= span,
        0 < span < 0x1_0000_0000,
        0 < max < 0x1_0000_0000,
    ensures
        scaled(a, span, max) <= max,
        -(max + span) <= (scaled(scaled(a, span, max) as int, max, span) - a) * max <= max + span,
{
    let there = scaled(a, span, max);
    let back = scaled(there as int, max, span);
    lemma_scaled_in_range(a, span, max);
    law_scaled_is_proportional(a, span, max);
    law_scaled_is_proportional(there as int, max, span);
    assert((back - a) * max == (back * max - there * span) + (there * span - a * max))
        by (nonlinear_arith);
}

/// The largest scale on which positions are scaled to the nearest one.
pub const FINE_MAX: u64 = 65535;

/// Before the last rounding, the scaled position is very near to the exact proportion.
proof fn lemma_product_near(a: int, span: nat, max: nat)
    requires
        0 < a < span <= FINE_MAX,
        max <= FINE_MAX,
    ensures
        ({
            let power = pow2(fraction_exponent(a as nat, span));
            let rounded = round_53_bits(fraction_mantissa(a as nat, span) * max);
            &&& power > 0
            &&& -power < 2 * (rounded * span - (a * max) * power) < power
        }),
{
    let n = a as nat;
    let k = fraction_exponent(n, span);
    let power = pow2(k);
    let mantissa = fraction_mantissa(n, span);
    let p = mantissa * max;
    let rounded = round_53_bits(p);
    let step = pow2(doublings(2 * TWO_52 as nat, p + 1));
    lemma_pow2_pos(k);
    assert(n < span * TWO_52) by (nonlinear_arith)
        requires
            n < span,
            TWO_52 == 0x10_0000_0000_0000,
    ;
    lemma_doublings(n, span * TWO_52 as nat);
    assert(power > 0x10_0000_0000_0000) by (nonlinear_arith)
        requires
            span * TWO_52 <= n * power,
            0 < n < span,
            TWO_52 == 0x10_0000_0000_0000,
    ;
    lemma_div_even_near(n * power, span);
    lemma_round_53_near(p);
    assert(n * power <= power * span) by (nonlinear_arith)
        requires
            n <= span,
    ;
    lemma_div_even_bound(n * power, span, power);
    assert(0x4_0000_0000 * (step + max) <= power) by {
        assert(p <= power * max) by (nonlinear_arith)
            requires
                p == mantissa * max,
                mantissa <= power,
        ;
        assert(power * max <= power * 0xffff) by (nonlinear_arith)
            requires
                max <= 0xffff,
        ;
        assert(0x20_0000_0000_0000 * step <= 2 * (power * max) + 0x20_0000_0000_0000);
    }
    let e1 = mantissa * span - n * power;
    let e2 = rounded - p;
    let d = rounded * span - (a * max) * power;
    assert(d == span * e2 + max * e1) by (nonlinear_arith)
        requires
            d == rounded * span - (a * max) * power,
            e1 == mantissa * span - n * power,
            e2 == rounded - p,
            p == mantissa * max,
            n == a,
    ;
    assert(-(span * (step + max)) <= 2 * (span * e2 + max * e1) <= span * (step + max))
        by (nonlinear_arith)
        requires
            -span <= 2 * e1 <= span,
            -step <= 2 * e2 <= step,
            span >= 0,
            max >= 0,
    ;
    assert(span * (step + max) <= 0xffff * (step + max)) by (nonlinear_arith)
        requires
            span <= 0xffff,
            step + max >= 0,
    ;
    assert(-power < 2 * d < power);
}

/// On scales of no more than [`FINE_MAX`] steps, the scaled position is the nearest to the exact
/// proportion, one of the two nearest where those are equally near.
pub proof fn law_scaled_is_nearest(a: int, span: nat, max: nat)
    requires
        0 <= a <= span,
        0 < span <= FINE_MAX,
        max <= FINE_MAX,
    ensures
        -span <= 2 * (scaled(a, span, max) * span - a * max) <= span,
{
    if a == 0 {
        assert(0 * span == 0 && 0 * max == 0) by (nonlinear_arith);
    } else if a == span {
        assert(max * span == a * max) by (nonlinear_arith)
            requires
                a == span,
        ;
    } else {
        let power = pow2(fraction_exponent(a as nat, span));
        let rounded = round_53_bits(fraction_mantissa(a as nat, span) * max);
        let res = div_half_up(rounded, power);
        lemma_product_near(a, span, max);
        lemma_half_up_near(rounded, power);
        let d = rounded * span - (a * max) * power;
        let e3 = res * power - rounded;
        let off = res * span - a * max;
        assert(power * off == span * e3 + d) by (nonlinear_arith)
            requires
                d == rounded * span - (a * max) * power,
                e3 == res * power - rounded,
                off == res * span - a * max,
        ;
        assert(-(span * power) <= 2 * (span * e3) <= span * power) by (nonlinear_arith)
            requires
                -power <= 2 * e3 <= power,
                span >= 0,
        ;
        assert(-span <= 2 * off <= span) by (nonlinear_arith)
            requires
                power * off == span * e3 + d,
                -(span * power) <= 2 * (span * e3) <= span * power,
                -power < 2 * d < power,
                power > 0,
        ;
    }
}

/// On scales of no more than [`FINE_MAX`] steps, a position that is nearer than any other to the
/// exact proportion is the scaled position.
pub proof fn law_nearest_is_scaled(a: int, span: nat, max: nat, r: int)
    requires
        0 <= a <= span,
        0 < span <= FINE_MAX,
        max <= FINE_MAX,
        -span < 2 * (r * span - a * max) < span,
    ensures
        scaled(a, span, max) == r,
{
    let res = scaled(a, span, max) as int;
    law_scaled_is_nearest(a, span, max);
    assert(-1 < res - r < 1) by (nonlinear_arith)
        requires
            -span <= 2 * (res * span - a * max) <= span,
            -span < 2 * (r * span - a * max) < span,
            span > 0,
    ;
}

/// Scaling a position to a scale that is at least as long, and scaling the result back, gives the
/// position again, on scales of no more than [`FINE_MAX`] steps.
pub proof fn law_position_is_kept(a: int, span: nat, max: nat)
    requires
        0 <= a <= span,
        0 < span <= max <= FINE_MAX,
    ensures
        scaled(scaled(a, span, max) as int, max, span) == a,
{
    let there = scaled(a, span, max) as int;
    lemma_scaled_in_range(a, span, max);
    law_scaled_is_nearest(a, span, max);
    if span == max {
        assert(there == a) by (nonlinear_arith)
            requires
                -span <= 2 * (there * span - a * max) <= span,
                span == max,
                span > 0,
        ;
        assert(a * max - there * span == 0) by (nonlinear_arith)
            requires
                there == a,
                span == max,
        ;
    }
    law_nearest_is_scaled(there, max, span, a);
}

/// A scaled position lies on the scale.
pub proof fn lemma_scaled_in_range(a: int, span: nat, max: nat)
    requires
        0 < span < 0x1_0000_0000,
        max < 0x1_0000_0000,
    ensures
        scaled(a, span, max) <= max,
{
    if 0 < a < span {
        let n = a as nat;
        let k = fraction_exponent(n, span);
        let power = pow2(k);
        lemma_pow2_pos(k);
        assert(n * power <= power * span) by (nonlinear_arith)
            requires
                n <= span,
        ;
        lemma_div_even_bound(n * power, span, power);
        assert(fraction_mantissa(n, span) * max <= power * max) by (nonlinear_arith)
            requires
                fraction_mantissa(n, span) <= power,
        ;
        lemma_round_53_bound(fraction_mantissa(n, span) * max, k, max);
        lemma_half_up_bound(
            round_53_bits(fraction_mantissa(n, span) * max),
            power,
            max,
        );
    }
}

/// The ends of the one scale go to the ends of the other, and what lies beyond an end goes to it.
pub proof fn law_ends_go_to_ends(a: int, span: nat, max: nat)
    ensures
        a <= 0 ==> scaled(a, span, max) == 0,
        a > 0 && a >= span ==> scaled(a, span, max) == max,
{
}

} // verus!
