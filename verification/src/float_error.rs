//! How far operations on numbers are off.

use crate::float64::Value;
use crate::rounding::HIDDEN;
use vstd::arithmetic::div_mod::*;
use vstd::arithmetic::mul::*;
use vstd::arithmetic::power2::*;
use vstd::prelude::*;

verus! {

/// Two to the power 50: errors are counted in parts of that.
pub const PARTS: u64 = 0x4_0000_0000_0000;

/// The first number is off the second by at most `k` parts in `2^50`.
pub open spec fn near(a: nat, b: nat, k: nat) -> bool {
    &&& PARTS * a <= PARTS * b + k * b
    &&& PARTS * b <= PARTS * a + k * b
}

pub proof fn lemma_near_same(a: nat)
    ensures
        near(a, a, 0),
{
}

pub proof fn lemma_near_weaker(a: nat, b: nat, j: nat, k: nat)
    requires
        near(a, b, j),
        j <= k,
    ensures
        near(a, b, k),
{
    lemma_mul_inequality(j as int, k as int, b as int);
}

/// A common factor changes nothing.
pub proof fn lemma_near_scaled(a: nat, b: nat, c: nat, k: nat)
    requires
        near(a, b, k),
    ensures
        near(a * c, b * c, k),
{
    assert(PARTS * (a * c) <= PARTS * (b * c) + k * (b * c)) by (nonlinear_arith)
        requires
            PARTS * a <= PARTS * b + k * b,
    ;
    assert(PARTS * (b * c) <= PARTS * (a * c) + k * (b * c)) by (nonlinear_arith)
        requires
            PARTS * b <= PARTS * a + k * b,
    ;
}

/// A common factor may be left out.
pub proof fn lemma_near_unscaled(a: nat, b: nat, c: nat, k: nat)
    requires
        c > 0,
        near(a * c, b * c, k),
    ensures
        near(a, b, k),
{
    assert(PARTS * a <= PARTS * b + k * b) by (nonlinear_arith)
        requires
            c > 0,
            PARTS * (a * c) <= PARTS * (b * c) + k * (b * c),
    ;
    assert(PARTS * b <= PARTS * a + k * b) by (nonlinear_arith)
        requires
            c > 0,
            PARTS * (b * c) <= PARTS * (a * c) + k * (b * c),
    ;
}

/// Errors add up, with one part to spare.
pub proof fn lemma_near_chain(a: nat, b: nat, c: nat, j: nat, k: nat)
    requires
        near(a, b, j),
        near(b, c, k),
        j <= 100,
        k <= 100,
    ensures
        near(a, c, j + k + 1),
{
    assert(j * b <= j * c + c) by (nonlinear_arith)
        requires
            PARTS * b <= PARTS * c + k * c,
            j <= 100,
            k <= 100,
            PARTS > 10_000,
    ;
    assert((j + k + 1) * c == j * c + k * c + c) by (nonlinear_arith);
}

/// The second number is off the first by hardly more.
pub proof fn lemma_near_swapped(a: nat, b: nat, k: nat)
    requires
        near(a, b, k),
        k <= 100,
    ensures
        near(b, a, k + 1),
{
    assert(k * b <= (k + 1) * a) by (nonlinear_arith)
        requires
            PARTS * b <= PARTS * a + k * b,
            k <= 100,
            PARTS > 20_000,
    ;
}

/// Both sides may grow by the same amount.
pub proof fn lemma_near_shifted(a: nat, b: nat, c: nat, k: nat)
    requires
        near(a, b, k),
    ensures
        near(c + a, c + b, k),
{
    assert(k * (c + b) >= k * b) by (nonlinear_arith);
}

/// Rounding a number that is not tiny is off by less than one part.
pub proof fn lemma_round_near(num: nat, den: nat)
    requires
        den > 0,
        num >= HIDDEN * den,
    ensures
        near(crate::rounding::round_units(num, den) * den, num, 1),
{
    crate::rounding::lemma_precision_exists(num, den);
    let e = crate::rounding::precision(num, den);
    lemma_pow2_pos(e);
    lemma2_to64();
    let d = den * pow2(e);
    lemma_mul_strictly_positive(den as int, pow2(e) as int);
    lemma_fundamental_div_mod(num as int, d as int);
    let q = num / d;
    let r = num % d;
    assert(q >= HIDDEN) by {
        if e == 0 {
            lemma_mul_basics(den as int);
            assert(d == den);
            lemma_div_is_ordered((HIDDEN * den) as int, num as int, den as int);
            lemma_div_multiples_vanish(HIDDEN as int, den as int);
        }
    }
    assert(d * HIDDEN <= num) by (nonlinear_arith)
        requires
            num == d * q + r,
            r >= 0,
            q >= HIDDEN,
            d > 0,
    ;
    let n = crate::rounding::nearest(num, d);
    assert((n == q ==> n * d == d * q) && (n == q + 1 ==> n * d == d * q + d)) by (nonlinear_arith);
    assert(-d <= 2 * (n * d - num) <= d);
    assert((n * pow2(e)) * den == n * d) by (nonlinear_arith)
        requires
            d == den * pow2(e),
    ;
}

/// Rounding a whole number of units is off by less than one part.
pub proof fn lemma_round_whole_near(num: nat)
    ensures
        near(crate::rounding::round_units(num, 1), num, 1),
{
    if num >= HIDDEN {
        lemma_round_near(num, 1);
    } else {
        lemma2_to64();
        lemma_mul_basics(num as int);
        crate::rounding::lemma_round_exact(num, 0);
    }
}

/// Rounding anything is off by at most one part and one unit.
pub proof fn lemma_round_off(num: nat, den: nat)
    requires
        den > 0,
    ensures
        ({
            let r = crate::rounding::round_units(num, den);
            -(num + PARTS * den) <= PARTS * (r * den - num) <= num + PARTS * den
        }),
{
    if num >= HIDDEN * den {
        lemma_round_near(num, den);
        assert(PARTS * den >= 0) by (nonlinear_arith)
            requires
                den > 0,
        ;
    } else {
        lemma2_to64();
        lemma_mul_basics(den as int);
        crate::rounding::lemma_round_error(num, den, 0);
    }
}

/// Twice a number that is not tiny rounds to twice as much.
pub proof fn lemma_round_doubled(num: nat, den: nat)
    requires
        den > 0,
        num >= HIDDEN * den,
    ensures
        crate::rounding::round_units(2 * num, den) == 2 * crate::rounding::round_units(num, den),
{
    crate::rounding::lemma_precision_exists(num, den);
    let e = crate::rounding::precision(num, den);
    let d = den * pow2(e);
    lemma_pow2_pos(e);
    lemma_pow2_unfold(e + 1);
    lemma2_to64();
    lemma_mul_strictly_positive(den as int, pow2(e) as int);
    crate::rounding::lemma_nearest_scaled(num, d, 2);
    assert(den * pow2(e + 1) == d * 2) by (nonlinear_arith)
        requires
            d == den * pow2(e),
            pow2(e + 1) == 2 * pow2(e),
    ;
    assert(num / d >= HIDDEN) by {
        if e == 0 {
            lemma_mul_basics(den as int);
            assert(d == den);
            lemma_div_is_ordered((HIDDEN * den) as int, num as int, den as int);
            lemma_div_multiples_vanish(HIDDEN as int, den as int);
        }
    }
    crate::rounding::lemma_precision_unique(2 * num, den, e + 1);
    let n = crate::rounding::nearest(num, d);
    assert(n * pow2(e + 1) == 2 * (n * pow2(e))) by (nonlinear_arith)
        requires
            pow2(e + 1) == 2 * pow2(e),
    ;
}

/// The number has a size between `2^-k` and `2^k`.
pub open spec fn sized(units: nat, k: nat) -> bool {
    pow2(1074) <= units * pow2(k) && units <= pow2(1074) * pow2(k)
}

pub proof fn lemma_sized_wider(units: nat, j: nat, k: nat)
    requires
        sized(units, j),
        j <= k,
    ensures
        sized(units, k),
{
    lemma_pow2_pos(1074);
    if j < k {
        lemma_pow2_strictly_increases(j, k);
    }
    lemma_mul_inequality(pow2(j) as int, pow2(k) as int, units as int);
    lemma_mul_inequality(pow2(j) as int, pow2(k) as int, pow2(1074) as int);
    lemma_mul_is_commutative(pow2(j) as int, units as int);
    lemma_mul_is_commutative(pow2(k) as int, units as int);
    lemma_mul_is_commutative(pow2(j) as int, pow2(1074) as int);
    lemma_mul_is_commutative(pow2(k) as int, pow2(1074) as int);
}

/// What lies within a factor of two of a sized number is sized one step wider.
proof fn lemma_near_sized(r: nat, v: nat, scale: nat, k: nat)
    requires
        scale > 0,
        near(r * scale, v, 1),
        pow2(1074) * scale <= v * pow2(k),
        v <= pow2(1074) * scale * pow2(k),
    ensures
        sized(r, k + 1),
{
    lemma_pow2_unfold(k + 1);
    lemma_pow2_pos(k);
    let one = pow2(1074);
    let f = pow2(k);
    assert(v <= 2 * (r * scale) && r * scale <= 2 * v);
    assert(one * scale <= (r * (2 * f)) * scale) by (nonlinear_arith)
        requires
            one * scale <= v * f,
            v <= 2 * (r * scale),
    ;
    assert(r * scale <= (one * (2 * f)) * scale) by (nonlinear_arith)
        requires
            v <= one * scale * f,
            r * scale <= 2 * v,
    ;
    assert(one <= r * (2 * f)) by (nonlinear_arith)
        requires
            one * scale <= (r * (2 * f)) * scale,
            scale > 0,
    ;
    assert(r <= one * (2 * f)) by (nonlinear_arith)
        requires
            r * scale <= (one * (2 * f)) * scale,
            scale > 0,
    ;
}

/// A sized number is positive and in range.
pub proof fn lemma_sized_in_range(units: nat, k: nat)
    requires
        sized(units, k),
        k <= 900,
    ensures
        units < pow2(2098),
        units > 0,
{
    lemma_pow2_adds(1074, k);
    lemma_pow2_strictly_increases(1074 + k, 2098);
    lemma_pow2_pos(1074);
    if units == 0 {
        lemma_mul_basics(pow2(k) as int);
    }
}

/// The product of two plain numbers, and how far it is off.
pub proof fn lemma_times_near(a: Value, b: Value, i: nat, j: nat)
    requires
        a is Finite,
        b is Finite,
        !a.is_negative(),
        !b.is_negative(),
        sized(a->units, i),
        sized(b->units, j),
        i + j <= 800,
    ensures
        a.times(b) is Finite,
        !a.times(b).is_negative(),
        near(a.times(b)->units * pow2(1074), a->units * b->units, 1),
        sized(a.times(b)->units, i + j + 1),
{
    let one = pow2(1074);
    let (x, y) = (a->units, b->units);
    lemma_pow2_adds(i, j);
    lemma_pow2_pos(i + j);
    lemma_pow2_pos(i);
    lemma_pow2_pos(j);
    lemma_pow2_pos(1074);
    let (f, g) = (pow2(i), pow2(j));
    assert(one * one <= (x * y) * (f * g)) by (nonlinear_arith)
        requires
            one <= x * f,
            one <= y * g,
    ;
    assert(x * y <= one * one * (f * g)) by (nonlinear_arith)
        requires
            x <= one * f,
            y <= one * g,
    ;
    // Not tiny.
    lemma2_to64_rest();
    lemma_pow2_adds(52, i + j);
    lemma_pow2_strictly_increases(52 + (i + j), 1074);
    assert(x * y >= HIDDEN * one) by (nonlinear_arith)
        requires
            one * one <= (x * y) * (f * g),
            HIDDEN * (f * g) <= one,
            f * g > 0,
    ;
    lemma_round_near(x * y, one);
    lemma_near_sized(crate::rounding::round_units(x * y, one), x * y, one, i + j);
    lemma_sized_in_range(crate::rounding::round_units(x * y, one), i + j + 1);
}

/// Twice one factor makes twice the product.
pub proof fn lemma_times_doubled(a: Value, b: Value, c: Value, i: nat, j: nat)
    requires
        a is Finite,
        b is Finite,
        c is Finite,
        !a.is_negative(),
        !b.is_negative(),
        !c.is_negative(),
        sized(a->units, i),
        sized(b->units, j),
        c->units == 2 * b->units,
        i + j <= 800,
    ensures
        sized(c->units, j + 1),
        a.times(c) is Finite,
        c.times(a) == a.times(c),
        b.times(a) == a.times(b),
        !a.times(c).is_negative(),
        a.times(c)->units == 2 * a.times(b)->units,
{
    let one = pow2(1074);
    let (x, y) = (a->units, b->units);
    lemma_times_near(a, b, i, j);
    lemma_pow2_unfold(j + 1);
    lemma_pow2_pos(j);
    lemma_pow2_pos(1074);
    assert(one <= c->units * pow2(j + 1) && c->units <= one * pow2(j + 1)) by (nonlinear_arith)
        requires
            c->units == 2 * y,
            one <= y * pow2(j),
            y <= one * pow2(j),
            pow2(j + 1) == 2 * pow2(j),
    ;
    lemma_product_not_tiny(a, b, i, j);
    lemma_round_doubled(x * y, one);
    assert(x * (2 * y) == 2 * (x * y) && (2 * y) * x == x * (2 * y) && y * x == x * y)
        by (nonlinear_arith);
    let r = a.times(b)->units;
    lemma_pow2_adds(1074, i + j + 1);
    lemma_pow2_unfold(1074 + i + j + 2);
    lemma_pow2_strictly_increases(1074 + i + j + 2, 2098);
    assert(2 * r < pow2(2098));
}

/// The product of two numbers of moderate size is rounded to full precision.
proof fn lemma_product_not_tiny(a: Value, b: Value, i: nat, j: nat)
    requires
        sized(a->units, i),
        sized(b->units, j),
        i + j <= 800,
    ensures
        a->units * b->units >= HIDDEN * pow2(1074),
{
    let one = pow2(1074);
    let (x, y) = (a->units, b->units);
    lemma_pow2_adds(i, j);
    lemma_pow2_pos(i + j);
    let (f, g) = (pow2(i), pow2(j));
    assert(one * one <= (x * y) * (f * g)) by (nonlinear_arith)
        requires
            one <= x * f,
            one <= y * g,
    ;
    lemma2_to64_rest();
    lemma_pow2_adds(52, i + j);
    lemma_pow2_strictly_increases(52 + (i + j), 1074);
    assert(x * y >= HIDDEN * one) by (nonlinear_arith)
        requires
            one * one <= (x * y) * (f * g),
            HIDDEN * (f * g) <= one,
            f * g > 0,
    ;
}

/// The product of two plain numbers of any size is off by at most one part and one unit.
pub proof fn lemma_times_off(a: Value, b: Value)
    requires
        a is Finite,
        b is Finite,
        !a.is_negative(),
        !b.is_negative(),
        a->units <= 2 * pow2(1074),
        b->units < pow2(2090),
    ensures
        a.times(b) is Finite,
        !a.times(b).is_negative(),
        a.times(b)->units < pow2(2096),
        ({
            let exact = a->units * b->units;
            let off = PARTS * (a.times(b)->units * pow2(1074) - exact);
            -(exact + PARTS * pow2(1074)) <= off <= exact + PARTS * pow2(1074)
        }),
{
    let one = pow2(1074);
    let (x, y) = (a->units, b->units);
    lemma_pow2_pos(1074);
    lemma_pow2_pos(2090);
    lemma_round_off(x * y, one);
    let r = crate::rounding::round_units(x * y, one);
    lemma2_to64();
    lemma_pow2_adds(6, 2090);
    lemma_pow2_strictly_increases(2096, 2098);
    assert(r < pow2(2096)) by (nonlinear_arith)
        requires
            x <= 2 * one,
            y < pow2(2090),
            one > 0,
            pow2(2090) > 0,
            PARTS * (r * one - x * y) <= x * y + PARTS * one,
            pow2(2096) == 64 * pow2(2090),
            PARTS == 0x4_0000_0000_0000,
    ;
}

/// The quotient of two plain numbers, and how far it is off.
pub proof fn lemma_over_near(a: Value, b: Value, i: nat, j: nat)
    requires
        a is Finite,
        b is Finite,
        !a.is_negative(),
        !b.is_negative(),
        sized(a->units, i),
        sized(b->units, j),
        i + j <= 800,
    ensures
        a.over(b) is Finite,
        !a.over(b).is_negative(),
        near(a.over(b)->units * b->units, a->units * pow2(1074), 1),
        sized(a.over(b)->units, i + j + 1),
{
    let one = pow2(1074);
    let (x, y) = (a->units, b->units);
    lemma_pow2_adds(i, j);
    lemma_pow2_pos(i + j);
    lemma_pow2_pos(i);
    lemma_pow2_pos(j);
    lemma_pow2_pos(1074);
    lemma_sized_in_range(y, j);
    let (f, g) = (pow2(i), pow2(j));
    assert(one * y <= (x * one) * (f * g)) by (nonlinear_arith)
        requires
            one <= x * f,
            y <= one * g,
    ;
    assert(x * one <= one * y * (f * g)) by (nonlinear_arith)
        requires
            x <= one * f,
            one <= y * g,
    ;
    lemma2_to64_rest();
    lemma_pow2_adds(52, i + j);
    lemma_pow2_strictly_increases(52 + (i + j), 1074);
    assert(x * one >= HIDDEN * y) by (nonlinear_arith)
        requires
            one * y <= (x * one) * (f * g),
            HIDDEN * (f * g) <= one,
            f * g > 0,
    ;
    lemma_round_near(x * one, y);
    lemma_near_sized(crate::rounding::round_units(x * one, y), x * one, y, i + j);
    lemma_sized_in_range(crate::rounding::round_units(x * one, y), i + j + 1);
}

/// A sum of plain numbers, and how far it is off.
pub proof fn lemma_plus_near(a: Value, b: Value)
    requires
        a is Finite,
        b is Finite,
        !a.is_negative(),
        !b.is_negative(),
        a->units < pow2(2096),
        b->units < pow2(2096),
    ensures
        a.plus(b) is Finite,
        !a.plus(b).is_negative(),
        near(a.plus(b)->units, a->units + b->units, 1),
{
    let sum = a->units + b->units;
    lemma_round_whole_near(sum);
    lemma_pow2_unfold(2098);
    lemma_pow2_unfold(2097);
    lemma_pow2_pos(2096);
    crate::float64::lemma_round_zero(1);
}

/// A difference of plain numbers, and how far it is off.
pub proof fn lemma_minus_near(a: Value, b: Value)
    requires
        a is Finite,
        b is Finite,
        !a.is_negative(),
        !b.is_negative(),
        a->units < pow2(2096),
        b->units < pow2(2096),
    ensures
        a.minus(b) is Finite,
        a->units >= b->units ==> !a.minus(b).is_negative() && near(
            a.minus(b)->units,
            (a->units - b->units) as nat,
            1,
        ),
        a->units < b->units ==> a.minus(b).is_negative() && near(
            a.minus(b)->units,
            (b->units - a->units) as nat,
            1,
        ),
{
    let sum = a->units - b->units;
    lemma_pow2_unfold(2098);
    lemma_pow2_unfold(2097);
    lemma_pow2_pos(2096);
    if sum < 0 {
        lemma_round_whole_near((-sum) as nat);
    } else {
        lemma_round_whole_near(sum as nat);
        lemma_near_same(0);
        lemma_near_weaker(0, 0, 0, 1);
    }
}

/// A sum of any two numbers lies off the exact one by at most one part.
pub proof fn lemma_sum_error(a: Value, b: Value)
    requires
        a is Finite,
        b is Finite,
        a->units < pow2(2096),
        b->units < pow2(2096),
    ensures
        a.plus(b) is Finite,
        ({
            let exact = a.rank() + b.rank();
            let size = if exact >= 0 {
                exact
            } else {
                -exact
            };
            -size <= PARTS * (a.plus(b).rank() - exact) <= size
        }),
{
    let exact = a.rank() + b.rank();
    lemma_pow2_unfold(2098);
    lemma_pow2_unfold(2097);
    lemma_pow2_pos(2096);
    if exact < 0 {
        lemma_round_whole_near((-exact) as nat);
    } else if exact > 0 {
        lemma_round_whole_near(exact as nat);
    }
}

/// The number nearest to a positive integer of at most 64 bits.
pub proof fn lemma_integer_near(n: nat)
    requires
        0 < n <= u64::MAX,
    ensures
        Value::of_integer(n) is Finite,
        !Value::of_integer(n).is_negative(),
        near(Value::of_integer(n)->units, n * pow2(1074), 1),
        sized(Value::of_integer(n)->units, 65),
{
    let one = pow2(1074);
    lemma2_to64();
    lemma_pow2_pos(1074);
    lemma_round_whole_near(n * one);
    let r = crate::rounding::round_units(n * one, 1);
    assert(one <= n * one <= one * pow2(64)) by (nonlinear_arith)
        requires
            0 < n < pow2(64),
            one > 0,
    ;
    assert(one * 1 <= (n * one) * pow2(64)) by (nonlinear_arith)
        requires
            0 < n,
            one > 0,
            pow2(64) > 0,
    ;
    lemma_near_sized(r, n * one, 1, 64);
    lemma_sized_in_range(r, 65);
}

/// A positive fraction of small numbers.
pub proof fn lemma_ratio_near(n: nat, d: nat)
    requires
        0 < n <= u32::MAX,
        0 < d <= u32::MAX,
    ensures
        Value::of_ratio(n, d) is Finite,
        !Value::of_ratio(n, d).is_negative(),
        near(Value::of_ratio(n, d)->units * d, n * pow2(1074), 1),
        sized(Value::of_ratio(n, d)->units, 33),
{
    let one = pow2(1074);
    lemma2_to64();
    lemma2_to64_rest();
    lemma_pow2_pos(1074);
    lemma_pow2_adds(52, 32);
    lemma_pow2_strictly_increases(84, 1074);
    assert(n * one >= HIDDEN * d) by (nonlinear_arith)
        requires
            n > 0,
            d <= u32::MAX,
            one >= HIDDEN * u32::MAX,
    ;
    lemma_round_near(n * one, d);
    let r = crate::rounding::round_units(n * one, d);
    assert(one * d <= (n * one) * pow2(32)) by (nonlinear_arith)
        requires
            n > 0,
            d <= pow2(32),
            one > 0,
    ;
    assert(n * one <= one * d * pow2(32)) by (nonlinear_arith)
        requires
            n <= pow2(32),
            d > 0,
            one > 0,
    ;
    lemma_near_sized(r, n * one, d, 32);
    lemma_sized_in_range(r, 33);
}

/// The whole part of a plain number lies less than one below it.
pub proof fn lemma_truncated(v: Value)
    requires
        v is Finite,
        !v.is_negative(),
    ensures
        v->units < pow2(64) * pow2(1074) ==> v.truncated() * pow2(1074) <= v->units < (
        v.truncated() + 1) * pow2(1074),
        v->units >= pow2(64) * pow2(1074) ==> v.truncated() == u64::MAX,
{
    let one = pow2(1074);
    lemma2_to64();
    lemma_pow2_pos(1074);
    let q = v->units / one;
    lemma_fundamental_div_mod(v->units as int, one as int);
    assert((q + 1) * one == one * q + one) by (nonlinear_arith);
    if v->units < pow2(64) * one {
        assert(q < pow2(64)) by (nonlinear_arith)
            requires
                v->units < pow2(64) * one,
                v->units >= one * q,
                one > 0,
        ;
        lemma_mul_is_commutative(one as int, q as int);
    } else {
        assert(q >= pow2(64)) by (nonlinear_arith)
            requires
                v->units >= pow2(64) * one,
                v->units < (q + 1) * one,
                one > 0,
        ;
    }
}

/// Spans in seconds: a number of nanoseconds, divided by a billion.
pub proof fn lemma_seconds_near(nanos: nat)
    requires
        0 < nanos <= crate::time::MAX_NANOS,
    ensures
        crate::time::seconds_of(nanos) is Finite,
        !crate::time::seconds_of(nanos).is_negative(),
        near(crate::time::seconds_of(nanos)->units * 1_000_000_000, nanos * pow2(1074), 5),
        sized(crate::time::seconds_of(nanos)->units, 70),
{
    let one = pow2(1074);
    let billion = Value::of_integer(1_000_000_000);
    let whole = nanos / 1_000_000_000;
    let part = nanos % 1_000_000_000;
    lemma2_to64();
    lemma2_to64_rest();
    lemma_pow2_pos(1074);
    lemma_fundamental_div_mod(nanos as int, 1_000_000_000);
    crate::float64::lemma_integer_exact(0);
    crate::float64::lemma_integer_exact(1_000_000_000);
    crate::float64::lemma_integer_exact(part);
    lemma_mul_basics(one as int);
    lemma_pow2_pos(2098);
    let w = Value::of_integer(whole);
    if whole > 0 {
        lemma_integer_near(whole);
    }
    assert(w is Finite && !w.is_negative() && near(w->units, whole * one, 1));
    // The fraction.
    let p = Value::of_integer(part).over(billion);
    let x = w->units * 1_000_000_000;
    if part == 0 {
        lemma_mul_strictly_positive(1_000_000_000, one as int);
        crate::float64::lemma_round_zero(1_000_000_000 * one);
    } else {
        lemma_pow2_adds(30, 1);
        assert(sized(Value::of_integer(part)->units, 30)) by (nonlinear_arith)
            requires
                Value::of_integer(part)->units == part * one,
                0 < part < 1_000_000_000,
                pow2(30) == 0x4000_0000,
                one > 0,
                pow2(1074) == one,
        ;
        assert(sized(billion->units, 30)) by (nonlinear_arith)
            requires
                billion->units == 1_000_000_000 * one,
                pow2(30) == 0x4000_0000,
                one > 0,
                pow2(1074) == one,
        ;
        lemma_over_near(Value::of_integer(part), billion, 30, 30);
    }
    assert(near(p->units * 1_000_000_000, part * one, 1)) by {
        if part > 0 {
            assert((p->units * 1_000_000_000) * one == p->units * (1_000_000_000 * one)
                && (part * one) * one == (part * one) * pow2(1074)) by (nonlinear_arith)
                requires
                    one == pow2(1074),
            ;
            lemma_near_unscaled(p->units * 1_000_000_000, part * one, one, 1);
        }
    }
    // Both.
    lemma_near_scaled(w->units, whole * one, 1_000_000_000, 1);
    let exact = (whole * one) * 1_000_000_000 + part * one;
    let sum = w->units + p->units;
    assert(exact == nanos * one) by (nonlinear_arith)
        requires
            exact == (whole * one) * 1_000_000_000 + part * one,
            nanos == 1_000_000_000 * whole + part,
    ;
    assert(near(sum * 1_000_000_000, exact, 1));
    lemma_round_whole_near(sum);
    let r = crate::rounding::round_units(sum, 1);
    lemma_near_scaled(r, sum, 1_000_000_000, 1);
    lemma_near_chain(r * 1_000_000_000, sum * 1_000_000_000, exact, 1, 1);
    lemma_near_weaker(r * 1_000_000_000, exact, 3, 5);
    // The size.
    lemma_pow2_adds(64, 6);
    assert(one <= (r * pow2(70)) && r <= one * pow2(70)) by (nonlinear_arith)
        requires
            PARTS * (r * 1_000_000_000) <= PARTS * exact + 5 * exact,
            PARTS * exact <= PARTS * (r * 1_000_000_000) + 5 * exact,
            exact == nanos * one,
            0 < nanos <= 18_446_744_073_709_551_615_999_999_999,
            pow2(70) == 64 * 0x1_0000_0000_0000_0000,
            one > 0,
            PARTS == 0x4_0000_0000_0000,
    ;
    lemma_sized_in_range(r, 70);
    assert(r > 0);
}

} // verus!
