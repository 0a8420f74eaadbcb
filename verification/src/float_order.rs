//! Which operations keep the order of numbers.

use crate::float64::{Float64, Value};
use crate::rounding::HIDDEN;
use vstd::arithmetic::mul::*;
use vstd::arithmetic::power2::*;
use vstd::prelude::*;

verus! {

/// A number in range that is not below zero and carries no minus sign.
pub open spec fn is_plain(v: Value) -> bool {
    match v {
        Value::NotANumber => false,
        Value::Infinite { negative } => !negative,
        Value::Finite { negative, units } => !negative && units < pow2(2098),
    }
}

/// The number that a pattern stands for is in range, and rounding leaves it as it is.
pub proof fn lemma_pattern_exact(f: Float64)
    requires
        f.value() is Finite,
    ensures
        f.value()->units < pow2(2098),
        crate::rounding::round_units(f.value()->units, 1) == f.value()->units,
{
    let field = (f.bits / HIDDEN) % 2048;
    let fraction = f.bits % HIDDEN;
    lemma2_to64();
    if field == 0 {
        crate::float64::lemma_in_range(fraction as nat, 0);
        lemma_mul_basics(fraction as int);
        crate::rounding::lemma_round_exact(fraction as nat, 0);
    } else {
        crate::float64::lemma_in_range((HIDDEN + fraction) as nat, (field - 1) as nat);
        crate::rounding::lemma_round_exact((HIDDEN + fraction) as nat, (field - 1) as nat);
    }
}

/// Nothing but zero rounds to zero.
pub proof fn lemma_round_positive(n: nat)
    requires
        n > 0,
    ensures
        crate::rounding::round_units(n, 1) > 0,
{
    lemma2_to64();
    crate::rounding::lemma_round_exact(1, 0);
    crate::rounding::lemma_round_ordered(1, 1, n, 1);
}

/// Of plain values the one with fewer units ranks lower, also where both leave the range.
pub proof fn lemma_limited_ordered(a: nat, b: nat)
    requires
        a <= b,
    ensures
        crate::float64::limited(false, a).le(crate::float64::limited(false, b)),
        is_plain(crate::float64::limited(false, a)),
        is_plain(crate::float64::limited(false, b)),
{
}

/// A fraction is a plain number, and a larger fraction is no smaller one.
pub proof fn lemma_ratio_ordered(n1: nat, d1: nat, n2: nat, d2: nat)
    requires
        d1 > 0,
        d2 > 0,
        n1 * d2 <= n2 * d1,
    ensures
        Value::of_ratio(n1, d1).le(Value::of_ratio(n2, d2)),
        is_plain(Value::of_ratio(n1, d1)),
        is_plain(Value::of_ratio(n2, d2)),
{
    let unit = pow2(1074);
    assert((n1 * unit) * d2 <= (n2 * unit) * d1) by (nonlinear_arith)
        requires
            n1 * d2 <= n2 * d1,
    ;
    crate::rounding::lemma_round_ordered(n1 * unit, d1, n2 * unit, d2);
    lemma_limited_ordered(
        crate::rounding::round_units(n1 * unit, d1),
        crate::rounding::round_units(n2 * unit, d2),
    );
}

/// An integer is a plain number, and a larger integer is no smaller one.
pub proof fn lemma_integer_ordered(a: nat, b: nat)
    requires
        a <= b,
    ensures
        Value::of_integer(a).le(Value::of_integer(b)),
        is_plain(Value::of_integer(a)),
        is_plain(Value::of_integer(b)),
{
    lemma_ratio_ordered(a, 1, b, 1);
}

/// Sums of plain numbers are plain, and grow with both sides.
pub proof fn lemma_plus_ordered(a1: Value, b1: Value, a2: Value, b2: Value)
    requires
        is_plain(a1),
        is_plain(b1),
        a1.le(a2),
        b1.le(b2),
        is_plain(a2),
        is_plain(b2),
    ensures
        a1.plus(b1).le(a2.plus(b2)),
        is_plain(a1.plus(b1)),
        is_plain(a2.plus(b2)),
{
    if let (Value::Finite { units: u1, .. }, Value::Finite { units: v1, .. }) = (a1, b1) {
        crate::float64::lemma_round_zero(1);
        if let (Value::Finite { units: u2, .. }, Value::Finite { units: v2, .. }) = (a2, b2) {
            crate::rounding::lemma_round_ordered(u1 + v1, 1, u2 + v2, 1);
            crate::rounding::lemma_round_ordered(0, 1, u2 + v2, 1);
            lemma_limited_ordered(
                crate::rounding::round_units(u1 + v1, 1),
                crate::rounding::round_units(u2 + v2, 1),
            );
        }
    }
}

/// A smaller plain number divided by the same divisor takes no longer, as a span.
pub proof fn lemma_over_ordered(a: Value, b: Value, divisor: Value)
    requires
        is_plain(a),
        is_plain(b),
        a.le(b),
        crate::time::nanos_of_seconds(b.over(divisor)) is Some,
    ensures
        crate::time::nanos_of_seconds(a.over(divisor)) is Some,
        crate::time::nanos_of_seconds(a.over(divisor))->0 <= crate::time::nanos_of_seconds(
            b.over(divisor),
        )->0,
{
    let unit = pow2(1074);
    lemma_pow2_pos(1074);
    if let Value::Finite { units: d, .. } = divisor {
        let (x, y) = (a->units, b->units);
        lemma_mul_inequality(x as int, y as int, unit as int);
        lemma_mul_inequality((x * unit) as int, (y * unit) as int, d as int);
        crate::rounding::lemma_round_ordered(x * unit, d, y * unit, d);
        let (p, q) = (
            crate::rounding::round_units(x * unit, d),
            crate::rounding::round_units(y * unit, d),
        );
        lemma_mul_inequality(
            p as int,
            q as int,
            crate::time::NANOS_PER_SEC as int,
        );
        crate::rounding::lemma_nearest_ordered(
            p * crate::time::NANOS_PER_SEC as nat,
            q * crate::time::NANOS_PER_SEC as nat,
            unit,
        );
    }
}

} // verus!
