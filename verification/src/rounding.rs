//! Rounding of exact rationals to binary64 precision.
//!
//! Every finite binary64 number is a natural multiple of the smallest positive one. The
//! functions here count in that unit: the rational `num / den` stands for that many units, and
//! [`round_units`] is the number of units of the binary64 number nearest to it.

use vstd::arithmetic::div_mod::*;
use vstd::arithmetic::mul::*;
use vstd::arithmetic::power2::*;
use vstd::prelude::*;

verus! {

/// Two to the power 52: the least significand of a normal number.
pub const HIDDEN: u64 = 0x10_0000_0000_0000;

/// Two to the power 53: the first significand that is too wide.
pub const WIDE: u64 = 0x20_0000_0000_0000;

/// The integer nearest to `num / den`; of two that are equally near, the even one.
pub open spec fn nearest(num: nat, den: nat) -> nat {
    let q = num / den;
    let r = num % den;
    if 2 * r > den || (2 * r == den && q % 2 == 1) {
        q + 1
    } else {
        q
    }
}

/// `num / den` has an integer part of at most 53 bits in steps of `2^e`, and `2^e` is the
/// finest step for which that holds.
pub open spec fn fits_at(num: nat, den: nat, e: nat) -> bool {
    let q = num / (den * pow2(e));
    q < WIDE && (e == 0 || q >= HIDDEN)
}

/// The step at which `num / den` is rounded, as a power of two.
pub open spec fn precision(num: nat, den: nat) -> nat {
    choose|e: nat| fits_at(num, den, e)
}

/// `num / den` rounded to 53 significant bits, ties to even.
pub open spec fn round_units(num: nat, den: nat) -> nat {
    let e = precision(num, den);
    nearest(num, den * pow2(e)) * pow2(e)
}

proof fn lemma_steps(num: nat, den: nat, e: nat, k: nat)
    requires
        den > 0,
    ensures
        den * pow2(e) > 0,
        num / (den * pow2(e + k)) == (num / (den * pow2(e))) / pow2(k),
{
    lemma_pow2_pos(e);
    lemma_pow2_pos(k);
    lemma_pow2_adds(e, k);
    lemma_mul_strictly_positive(den as int, pow2(e) as int);
    lemma_div_denominator(num as int, (den * pow2(e)) as int, pow2(k) as int);
    lemma_mul_is_associative(den as int, pow2(e) as int, pow2(k) as int);
}

/// At most one step fits.
pub proof fn lemma_precision_unique(num: nat, den: nat, e: nat)
    requires
        den > 0,
        fits_at(num, den, e),
    ensures
        precision(num, den) == e,
{
    let p = precision(num, den);
    assert(fits_at(num, den, p));
    lemma_precision_order(num, den, p, e);
    lemma_precision_order(num, den, e, p);
}

proof fn lemma_precision_order(num: nat, den: nat, e1: nat, e2: nat)
    requires
        den > 0,
        fits_at(num, den, e1),
        fits_at(num, den, e2),
    ensures
        e1 >= e2,
{
    if e1 < e2 {
        let k = (e2 - e1) as nat;
        lemma_steps(num, den, e1, k);
        let q1 = num / (den * pow2(e1));
        lemma_pow2_pos((k - 1) as nat);
        lemma_pow2_unfold(k);
        assert(pow2(k) >= 2);
        lemma_pow2_pos(e1);
        lemma_pow2_pos(e2);
        lemma_div_is_ordered_by_denominator(q1 as int, 2, pow2(k) as int);
    }
}

proof fn lemma_precision_from(num: nat, den: nat, e: nat)
    requires
        den > 0,
        fits_at(num, den, e) || num / (den * pow2(e)) >= WIDE,
    ensures
        exists|f: nat| fits_at(num, den, f),
    decreases num / (den * pow2(e)),
{
    if !fits_at(num, den, e) {
        lemma_steps(num, den, e, 1);
        lemma2_to64();
        lemma_precision_from(num, den, e + 1);
    }
}

/// Every rational has a step that fits.
pub proof fn lemma_precision_exists(num: nat, den: nat)
    requires
        den > 0,
    ensures
        fits_at(num, den, precision(num, den)),
{
    lemma_precision_from(num, den, 0);
}

pub proof fn lemma_nearest_scaled(num: nat, den: nat, c: nat)
    requires
        den > 0,
        c > 0,
    ensures
        (num * c) / (den * c) == num / den,
        nearest(num * c, den * c) == nearest(num, den),
{
    let q = num / den;
    let r = num % den;
    lemma_fundamental_div_mod(num as int, den as int);
    assert(num * c == q * (den * c) + r * c) by (nonlinear_arith)
        requires
            num == den * q + r,
    ;
    assert(0 <= r * c < den * c) by (nonlinear_arith)
        requires
            0 <= r < den,
            c > 0,
    ;
    lemma_fundamental_div_mod_converse((num * c) as int, (den * c) as int, q as int, (r * c) as int);
    assert(2 * (r * c) > den * c <==> 2 * r > den) by (nonlinear_arith)
        requires
            c > 0,
    ;
    assert(2 * (r * c) == den * c <==> 2 * r == den) by (nonlinear_arith)
        requires
            c > 0,
    ;
}

/// Rounding depends on the rational, not on how the fraction is written.
pub proof fn lemma_round_scaled(num: nat, den: nat, c: nat)
    requires
        den > 0,
        c > 0,
    ensures
        precision(num * c, den * c) == precision(num, den),
        round_units(num * c, den * c) == round_units(num, den),
{
    lemma_precision_exists(num, den);
    let e = precision(num, den);
    lemma_pow2_pos(e);
    lemma_mul_strictly_positive(den as int, pow2(e) as int);
    lemma_nearest_scaled(num, den * pow2(e), c);
    assert((den * pow2(e)) * c == (den * c) * pow2(e)) by (nonlinear_arith);
    lemma_mul_strictly_positive(den as int, c as int);
    lemma_precision_unique(num * c, den * c, e);
}

/// A number of at most 53 significant bits is rounded to itself.
pub proof fn lemma_round_exact(mant: nat, e: nat)
    requires
        mant < WIDE,
        e == 0 || mant >= HIDDEN,
    ensures
        precision(mant * pow2(e), 1) == e,
        round_units(mant * pow2(e), 1) == mant * pow2(e),
{
    lemma_pow2_pos(e);
    let d = 1 * pow2(e);
    lemma_fundamental_div_mod_converse((mant * pow2(e)) as int, d as int, mant as int, 0);
    lemma_precision_unique(mant * pow2(e), 1, e);
}

/// Rounding of `p * 2^x / 2^y` comes down to a division by one power of two.
pub proof fn lemma_round_dyadic(p: nat, x: nat, y: nat, e: nat, t: nat)
    requires
        y + e == x + t,
        p / pow2(t) < WIDE,
        e == 0 || p / pow2(t) >= HIDDEN,
    ensures
        precision(p * pow2(x), pow2(y)) == e,
        round_units(p * pow2(x), pow2(y)) == nearest(p, pow2(t)) * pow2(e),
{
    lemma_pow2_pos(x);
    lemma_pow2_pos(y);
    lemma_pow2_pos(t);
    lemma_pow2_adds(y, e);
    lemma_pow2_adds(t, x);
    lemma_nearest_scaled(p, pow2(t), pow2(x));
    lemma_precision_unique(p * pow2(x), pow2(y), e);
}

proof fn lemma_nearest_sticky(q: nat, r: nat, m: nat, h: nat)
    requires
        r < m,
        h > 0,
    ensures
        (q * m + r) / (m * (2 * h)) == q / (2 * h),
        nearest(q * m + r, m * (2 * h)) == nearest(
            2 * q + (if r > 0 { 1nat } else { 0nat }),
            2 * (2 * h),
        ),
        (2 * q + (if r > 0 { 1nat } else { 0nat })) / (2 * (2 * h)) == q / (2 * h),
{
    let w = 2 * h;
    let s: nat = if r > 0 { 1 } else { 0 };
    let a = q / w;
    let b = q % w;
    lemma_fundamental_div_mod(q as int, w as int);
    assert(q * m + r == a * (m * w) + (b * m + r)) by (nonlinear_arith)
        requires
            q == w * a + b,
    ;
    assert(0 <= b * m + r < m * w) by (nonlinear_arith)
        requires
            0 <= b <= w - 1,
            0 <= r < m,
    ;
    lemma_fundamental_div_mod_converse((q * m + r) as int, (m * w) as int, a as int, (b * m + r) as int);
    assert(2 * q + s == a * (2 * w) + (2 * b + s)) by (nonlinear_arith)
        requires
            q == w * a + b,
    ;
    lemma_fundamental_div_mod_converse((2 * q + s) as int, (2 * w) as int, a as int, (2 * b + s) as int);
    assert(m * w == 2 * (m * h)) by (nonlinear_arith)
        requires
            w == 2 * h,
    ;
    if b > h {
        assert(b * m >= h * m + m) by (nonlinear_arith)
            requires
                b >= h + 1,
        ;
    } else if b < h {
        assert(h * m >= b * m + m) by (nonlinear_arith)
            requires
                h >= b + 1,
        ;
    }
    lemma_mul_is_commutative(m as int, h as int);
}

/// A quotient may be rounded from its integer part and one bit that tells whether anything is
/// left over, as long as rounding cuts off more than that bit.
pub proof fn lemma_round_sticky(q: nat, r: nat, m: nat, x: nat, y: nat)
    requires
        r < m,
        q >= 2 * WIDE,
    ensures
        round_units((q * m + r) * pow2(x), m * pow2(y)) == round_units(
            (2 * q + (if r > 0 { 1nat } else { 0nat })) * pow2(x),
            pow2(y + 1),
        ),
{
    let n = q * m + r;
    let s: nat = if r > 0 { 1 } else { 0 };
    let num = n * pow2(x);
    let den = m * pow2(y);
    lemma_pow2_pos(x);
    lemma_pow2_pos(y);
    lemma_mul_strictly_positive(m as int, pow2(y) as int);
    lemma_precision_exists(num, den);
    let e = precision(num, den);
    lemma_pow2_pos(e);
    lemma_pow2_adds(y, e);
    assert(den * pow2(e) == m * pow2(y + e)) by (nonlinear_arith)
        requires
            den == m * pow2(y),
            pow2(y + e) == pow2(y) * pow2(e),
    ;
    if x >= y + e {
        let k = (x - (y + e)) as nat;
        lemma_pow2_pos(y + e);
        lemma_pow2_pos(k);
        lemma_pow2_adds(y + e, k);
        let c = pow2(y + e);
        assert(num == (n * pow2(k)) * c) by (nonlinear_arith)
            requires
                num == n * pow2(x),
                pow2(x) == c * pow2(k),
        ;
        lemma_nearest_scaled(n * pow2(k), m, c);
        assert(n * pow2(k) >= q * m) by (nonlinear_arith)
            requires
                n >= q * m,
                pow2(k) >= 1,
        ;
        lemma_div_is_ordered((q * m) as int, (n * pow2(k)) as int, m as int);
        lemma_div_multiples_vanish(q as int, m as int);
        lemma_mul_is_commutative(q as int, m as int);
        assert(num / (den * pow2(e)) >= q);
    }
    let t = (y + e - x) as nat;
    let h = pow2((t - 1) as nat);
    lemma_pow2_pos((t - 1) as nat);
    lemma_pow2_unfold(t);
    lemma_pow2_adds(t, x);
    lemma_nearest_sticky(q, r, m, h);
    assert(den * pow2(e) == (m * pow2(t)) * pow2(x)) by (nonlinear_arith)
        requires
            den * pow2(e) == m * pow2(y + e),
            pow2(y + e) == pow2(t) * pow2(x),
    ;
    lemma_mul_strictly_positive(m as int, pow2(t) as int);
    lemma_nearest_scaled(n, m * pow2(t), pow2(x));
    lemma_pow2_unfold(t + 1);
    lemma_round_dyadic(2 * q + s, x, y + 1, e, t + 1);
}

/// Adding or taking away less than an eighth of a step does not change a number of 53 bits.
pub proof fn lemma_round_absorb(mant: nat, e: nat, b: nat)
    requires
        HIDDEN <= mant < WIDE,
        e > 0,
        8 * b < pow2(e),
    ensures
        round_units(mant * pow2(e) + b, 1) == mant * pow2(e),
        b <= mant * pow2(e),
        round_units((mant * pow2(e) - b) as nat, 1) == mant * pow2(e),
{
    let d = pow2(e);
    let a = mant * d;
    lemma_pow2_pos(e);
    lemma_mul_basics(d as int);
    lemma_fundamental_div_mod_converse((a + b) as int, d as int, mant as int, b as int);
    lemma_precision_unique(a + b, 1, e);
    assert(b <= a) by (nonlinear_arith)
        requires
            a == mant * d,
            mant >= 1,
            b <= d,
    ;
    if b == 0 {
    } else if mant > HIDDEN {
        assert(a - b == (mant - 1) * d + (d - b)) by (nonlinear_arith)
            requires
                a == mant * d,
        ;
        lemma_fundamental_div_mod_converse((a - b) as int, d as int, mant - 1, d - b);
        lemma_precision_unique((a - b) as nat, 1, e);
    } else {
        let h = pow2((e - 1) as nat);
        lemma_pow2_pos((e - 1) as nat);
        lemma_pow2_unfold(e);
        lemma_mul_basics(h as int);
        assert(a - b == (WIDE - 1) * h + (h - b)) by (nonlinear_arith)
            requires
                a == mant * d,
                d == 2 * h,
                WIDE == 2 * mant,
        ;
        lemma_fundamental_div_mod_converse((a - b) as int, h as int, WIDE - 1, h - b);
        lemma_precision_unique((a - b) as nat, 1, (e - 1) as nat);
        assert(WIDE * h == a) by (nonlinear_arith)
            requires
                a == mant * d,
                d == 2 * h,
                WIDE == 2 * mant,
        ;
    }
}

/// Rounding to whole numbers keeps the order.
pub proof fn lemma_nearest_ordered(a: nat, b: nat, d: nat)
    requires
        d > 0,
        a <= b,
    ensures
        a / d <= b / d,
        nearest(a, d) <= nearest(b, d),
{
    lemma_div_is_ordered(a as int, b as int, d as int);
    lemma_fundamental_div_mod(a as int, d as int);
    lemma_fundamental_div_mod(b as int, d as int);
}

proof fn lemma_round_ordered_common(a: nat, b: nat, d: nat)
    requires
        d > 0,
        a <= b,
    ensures
        round_units(a, d) <= round_units(b, d),
{
    lemma_precision_exists(a, d);
    lemma_precision_exists(b, d);
    let (e, f) = (precision(a, d), precision(b, d));
    lemma_pow2_pos(e);
    lemma_pow2_pos(f);
    lemma_mul_strictly_positive(d as int, pow2(e) as int);
    lemma_mul_strictly_positive(d as int, pow2(f) as int);
    lemma_nearest_ordered(a, b, d * pow2(f));
    if e > f {
        let k = (e - f) as nat;
        lemma_steps(a, d, f, k);
        lemma_pow2_pos((k - 1) as nat);
        lemma_pow2_unfold(k);
        lemma_div_is_ordered_by_denominator((a / (d * pow2(f))) as int, 2, pow2(k) as int);
    } else if e == f {
        lemma_mul_inequality(
            nearest(a, d * pow2(e)) as int,
            nearest(b, d * pow2(e)) as int,
            pow2(e) as int,
        );
    } else {
        let k = (f - e) as nat;
        lemma_pow2_pos((k - 1) as nat);
        lemma_pow2_unfold(k);
        lemma_pow2_adds(e, k);
        let (na, nb) = (nearest(a, d * pow2(e)), nearest(b, d * pow2(f)));
        assert(na * pow2(e) <= nb * pow2(f)) by (nonlinear_arith)
            requires
                na <= 2 * HIDDEN,
                nb >= HIDDEN,
                pow2(f) == pow2(e) * pow2(k),
                pow2(k) >= 2,
                pow2(e) > 0,
        ;
    }
}

/// Rounding keeps the order of numbers.
pub proof fn lemma_round_ordered(n1: nat, d1: nat, n2: nat, d2: nat)
    requires
        d1 > 0,
        d2 > 0,
        n1 * d2 <= n2 * d1,
    ensures
        round_units(n1, d1) <= round_units(n2, d2),
{
    lemma_round_scaled(n1, d1, d2);
    lemma_round_scaled(n2, d2, d1);
    lemma_mul_strictly_positive(d1 as int, d2 as int);
    lemma_mul_is_commutative(d1 as int, d2 as int);
    lemma_round_ordered_common(n1 * d2, n2 * d1, d1 * d2);
}

/// Rounding a number below `2^(53 + k)` is off by at most half of `2^k`.
pub proof fn lemma_round_error(num: nat, den: nat, k: nat)
    requires
        den > 0,
        num < WIDE * (pow2(k) * den),
    ensures
        -(pow2(k) * den) <= 2 * (round_units(num, den) * den - num) <= pow2(k) * den,
{
    lemma_precision_exists(num, den);
    let e = precision(num, den);
    lemma_pow2_pos(e);
    lemma_pow2_pos(k);
    let d = den * pow2(e);
    lemma_mul_strictly_positive(den as int, pow2(e) as int);
    lemma_fundamental_div_mod(num as int, d as int);
    let q = num / d;
    if e > k {
        lemma_pow2_unfold(e);
        if e - 1 > k {
            lemma_pow2_strictly_increases(k, (e - 1) as nat);
        }
        assert(num >= WIDE * (pow2(k) * den)) by (nonlinear_arith)
            requires
                num == d * q + num % d,
                num % d >= 0,
                q >= HIDDEN,
                WIDE == 2 * HIDDEN,
                d == den * pow2(e),
                pow2(e) == 2 * pow2((e - 1) as nat),
                pow2((e - 1) as nat) >= pow2(k),
                den > 0,
        ;
    }
    if e < k {
        lemma_pow2_strictly_increases(e, k);
    }
    lemma_mul_inequality(pow2(e) as int, pow2(k) as int, den as int);
    let n = nearest(num, d);
    let r = num % d;
    assert(0 <= r < d);
    assert((n == q ==> n * d == d * q) && (n == q + 1 ==> n * d == d * q + d)) by (nonlinear_arith);
    assert(-d <= 2 * (n * d - num) <= d);
    assert((n * pow2(e)) * den == n * d && d == pow2(e) * den) by (nonlinear_arith)
        requires
            d == den * pow2(e),
    ;
}

} // verus!
