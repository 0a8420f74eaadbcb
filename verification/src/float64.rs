//! Double-precision arithmetic on bit patterns.

use crate::rounding::{HIDDEN, WIDE};
use vstd::arithmetic::div_mod::*;
use vstd::arithmetic::mul::*;
use vstd::arithmetic::power2::*;
use vstd::prelude::*;

verus! {

/// The sign bit.
pub const SIGN: u64 = 0x8000_0000_0000_0000;

/// The pattern of positive infinity.
pub const INFINITY_BITS: u64 = 0x7FF0_0000_0000_0000;

/// The pattern of the quiet not-a-number that operations give.
pub const NAN_BITS: u64 = 0x7FF8_0000_0000_0000;

/// What a bit pattern stands for. A finite number is its sign and how many times the smallest
/// positive number, `2^-1074`, its magnitude holds.
#[verifier::ext_equal]
pub enum Value {
    NotANumber,
    Infinite { negative: bool },
    Finite { negative: bool, units: nat },
}

/// The value of the given magnitude, or infinity where it leaves the range.
pub open spec fn limited(negative: bool, units: nat) -> Value {
    if units >= pow2(2098) {
        Value::Infinite { negative }
    } else {
        Value::Finite { negative, units }
    }
}

/// The value nearest to `num / den` units.
pub open spec fn rounded(negative: bool, num: nat, den: nat) -> Value {
    limited(negative, crate::rounding::round_units(num, den))
}

/// A sum, given as the exact signed number of units.
pub open spec fn rounded_sum(both_negative: bool, sum: int) -> Value {
    if sum == 0 {
        Value::Finite { negative: both_negative, units: 0 }
    } else if sum < 0 {
        rounded(true, (-sum) as nat, 1)
    } else {
        rounded(false, sum as nat, 1)
    }
}

impl Value {
    pub open spec fn is_zero(self) -> bool {
        self matches Value::Finite { units, .. } && units == 0
    }

    pub open spec fn is_negative(self) -> bool {
        match self {
            Value::NotANumber => false,
            Value::Infinite { negative } => negative,
            Value::Finite { negative, .. } => negative,
        }
    }

    /// The place on the number line, in units; infinity stands just outside the finite range.
    pub open spec fn rank(self) -> int {
        match self {
            Value::NotANumber => 0,
            Value::Infinite { negative } => if negative {
                -pow2(2098)
            } else {
                pow2(2098) as int
            },
            Value::Finite { negative, units } => if negative {
                -units
            } else {
                units as int
            },
        }
    }

    /// Strictly smaller; never where one of the two is not a number.
    pub open spec fn lt(self, other: Value) -> bool {
        self !is NotANumber && other !is NotANumber && self.rank() < other.rank()
    }

    /// Smaller or equal; never where one of the two is not a number.
    pub open spec fn le(self, other: Value) -> bool {
        self !is NotANumber && other !is NotANumber && self.rank() <= other.rank()
    }

    pub open spec fn negated(self) -> Value {
        match self {
            Value::NotANumber => Value::NotANumber,
            Value::Infinite { negative } => Value::Infinite { negative: !negative },
            Value::Finite { negative, units } => Value::Finite { negative: !negative, units },
        }
    }

    pub open spec fn plus(self, other: Value) -> Value {
        match (self, other) {
            (Value::NotANumber, _) => Value::NotANumber,
            (_, Value::NotANumber) => Value::NotANumber,
            (Value::Infinite { negative: a }, Value::Infinite { negative: b }) => if a == b {
                self
            } else {
                Value::NotANumber
            },
            (Value::Infinite { .. }, _) => self,
            (_, Value::Infinite { .. }) => other,
            (Value::Finite { negative: a, .. }, Value::Finite { negative: b, .. }) => rounded_sum(
                a && b,
                self.rank() + other.rank(),
            ),
        }
    }

    pub open spec fn minus(self, other: Value) -> Value {
        self.plus(other.negated())
    }

    pub open spec fn times(self, other: Value) -> Value {
        let negative = self.is_negative() != other.is_negative();
        match (self, other) {
            (Value::NotANumber, _) => Value::NotANumber,
            (_, Value::NotANumber) => Value::NotANumber,
            (Value::Finite { units: a, .. }, Value::Finite { units: b, .. }) => rounded(
                negative,
                a * b,
                pow2(1074),
            ),
            _ => if self.is_zero() || other.is_zero() {
                Value::NotANumber
            } else {
                Value::Infinite { negative }
            },
        }
    }

    pub open spec fn over(self, other: Value) -> Value {
        let negative = self.is_negative() != other.is_negative();
        match (self, other) {
            (Value::NotANumber, _) => Value::NotANumber,
            (_, Value::NotANumber) => Value::NotANumber,
            (Value::Infinite { .. }, Value::Infinite { .. }) => Value::NotANumber,
            (Value::Infinite { .. }, _) => Value::Infinite { negative },
            (_, Value::Infinite { .. }) => Value::Finite { negative, units: 0 },
            (Value::Finite { units: a, .. }, Value::Finite { units: b, .. }) => if b != 0 {
                rounded(negative, a * pow2(1074), b)
            } else if a != 0 {
                Value::Infinite { negative }
            } else {
                Value::NotANumber
            },
        }
    }

    /// The larger of the two; of a number and something that is none, the number.
    pub open spec fn max(self, other: Value) -> Value {
        if self is NotANumber || self.lt(other) {
            other
        } else {
            self
        }
    }

    /// The smaller of the two; of a number and something that is none, the number.
    pub open spec fn min(self, other: Value) -> Value {
        if self is NotANumber || other.lt(self) {
            other
        } else {
            self
        }
    }

    /// Brought into the range from `low` to `high`; what is not a number stays as it is.
    pub open spec fn clamp(self, low: Value, high: Value) -> Value {
        if self.lt(low) {
            low
        } else if high.lt(self) {
            high
        } else {
            self
        }
    }

    /// The integer part, cut off at the ends of the range of `u64`; nothing counts as zero.
    pub open spec fn truncated(self) -> u64 {
        match self {
            Value::NotANumber => 0,
            Value::Infinite { negative } => if negative {
                0
            } else {
                u64::MAX
            },
            Value::Finite { negative, units } => if negative {
                0
            } else if units / pow2(1074) > u64::MAX {
                u64::MAX
            } else {
                (units / pow2(1074)) as u64
            },
        }
    }

    /// The number nearest to an integer.
    pub open spec fn of_integer(n: nat) -> Value {
        rounded(false, n * pow2(1074), 1)
    }

    /// The number nearest to a fraction.
    pub open spec fn of_ratio(n: nat, d: nat) -> Value {
        rounded(false, n * pow2(1074), d)
    }
}

/// A double-precision number, as its bit pattern.
#[derive(Clone, Copy, Debug)]
pub struct Float64 {
    pub bits: u64,
}

/// A significand of at most 53 bits stays in range with every step.
pub proof fn lemma_in_range(mant: nat, e: nat)
    ensures
        mant < WIDE && e <= 2045 ==> mant * pow2(e) < pow2(2098),
{
    if mant < WIDE && e <= 2045 {
        lemma2_to64_rest();
        lemma_pow2_adds(53, 2045);
        if e < 2045 {
            lemma_pow2_strictly_increases(e, 2045);
        }
        lemma_pow2_pos(e);
        lemma_mul_strict_inequality(mant as int, WIDE as int, pow2(e) as int);
        lemma_mul_left_inequality(WIDE as int, pow2(e) as int, pow2(2045) as int);
    }
}

impl Float64 {
    /// The number that the pattern stands for.
    pub open spec fn value(self) -> Value {
        let negative = self.bits >= SIGN;
        let field = (self.bits / HIDDEN) % 2048;
        let fraction = self.bits % HIDDEN;
        if field == 2047 {
            if fraction == 0 {
                Value::Infinite { negative }
            } else {
                Value::NotANumber
            }
        } else if field == 0 {
            Value::Finite { negative, units: fraction as nat }
        } else {
            Value::Finite {
                negative,
                units: (HIDDEN + fraction) as nat * pow2((field - 1) as nat),
            }
        }
    }

    /// The power of two by which the significand of a finite number counts.
    pub(crate) closed spec fn step(self) -> nat {
        let field = (self.bits / HIDDEN) % 2048;
        if field == 0 {
            0
        } else {
            (field - 1) as nat
        }
    }

    /// Sign, significand and step of a finite number.
    pub(crate) fn unpack(&self) -> (r: (bool, u64, u32))
        requires
            self.value() is Finite,
        ensures
            self.value() == (Value::Finite { negative: r.0, units: r.1 as nat * pow2(r.2 as nat) }),
            r.1 < WIDE,
            r.2 <= 2045,
            r.2 == 0 || r.1 >= HIDDEN,
            r.1 as nat * pow2(r.2 as nat) < pow2(2098),
            r.2 == self.step(),
    {
        let negative = self.bits >= SIGN;
        let field: u64 = (self.bits / HIDDEN) % 2048;
        let fraction: u64 = self.bits % HIDDEN;
        proof {
            lemma2_to64();
            lemma_mul_basics(fraction as int);
            lemma_in_range((HIDDEN + fraction) as nat, (field - 1) as nat);
            lemma_in_range(fraction as nat, 0);
        }
        if field == 0 {
            (negative, fraction, 0)
        } else {
            (negative, HIDDEN + fraction, (field - 1) as u32)
        }
    }

    fn pack(negative: bool, mant: u64, e: u32) -> (r: Float64)
        requires
            mant < WIDE,
            e <= 2045,
            e == 0 || mant >= HIDDEN,
        ensures
            r.value() == (Value::Finite { negative, units: mant as nat * pow2(e as nat) }),
    {
        proof {
            lemma2_to64();
            lemma_mul_basics(mant as int);
        }
        let magnitude: u64 = if mant < HIDDEN {
            mant
        } else {
            (e as u64 + 1) * HIDDEN + (mant - HIDDEN)
        };
        assert(magnitude < SIGN);
        let bits: u64 = if negative {
            SIGN + magnitude
        } else {
            magnitude
        };
        Float64 { bits }
    }

    /// Packs a significand that rounding may have made one bit too wide.
    fn assemble(negative: bool, mant: u64, e: u32) -> (r: Float64)
        requires
            mant <= WIDE,
            e == 0 || mant >= HIDDEN,
            e < u32::MAX,
        ensures
            r.value() == limited(negative, mant as nat * pow2(e as nat)),
    {
        let (m, f): (u64, u32) = if mant == WIDE {
            (HIDDEN, e + 1)
        } else {
            (mant, e)
        };
        proof {
            lemma2_to64_rest();
            lemma_pow2_pos(e as nat);
            lemma_pow2_unfold(e as nat + 1);
            assert(m as nat * pow2(f as nat) == mant as nat * pow2(e as nat)) by {
                if mant == WIDE {
                    assert(HIDDEN * pow2(f as nat) == WIDE * pow2(e as nat)) by (nonlinear_arith)
                        requires
                            pow2(f as nat) == 2 * pow2(e as nat),
                            WIDE == 2 * HIDDEN,
                    ;
                }
            }
        }
        if f > 2045 {
            proof {
                lemma_pow2_adds(52, f as nat);
                if f as nat + 52 > 2098 {
                    lemma_pow2_strictly_increases(2098, f as nat + 52);
                }
                lemma_mul_inequality(HIDDEN as int, m as int, pow2(f as nat) as int);
            }
            Float64 {
                bits: if negative {
                    SIGN + INFINITY_BITS
                } else {
                    INFINITY_BITS
                },
            }
        } else {
            proof {
                lemma_in_range(m as nat, f as nat);
            }
            Float64::pack(negative, m, f)
        }
    }
}

/// Two to the power `t`.
pub(crate) fn power_of_two(t: u32) -> (r: u128)
    requires
        t < 128,
    ensures
        r == pow2(t as nat),
{
    let mut r: u128 = 1;
    let mut i: u32 = 0;
    proof {
        lemma2_to64();
    }
    while i < t
        invariant
            i <= t < 128,
            r == pow2(i as nat),
        decreases t - i,
    {
        proof {
            lemma_pow2_unfold((i + 1) as nat);
            lemma_pow2_adds(64, 64);
            lemma2_to64();
            if i + 1 < 127 {
                lemma_pow2_strictly_increases((i + 1) as nat, 127);
            }
            lemma_pow2_unfold(128);
            assert(0x1_0000_0000_0000_0000 * 0x1_0000_0000_0000_0000 == 2 * pow2(127));
        }
        r = r * 2;
        i = i + 1;
    }
    r
}

/// The number nearest to `p * 2^x / 2^y` units.
fn round_dyadic(negative: bool, p: u128, x: u32, y: u32) -> (r: Float64)
    requires
        p < 0x8000_0000_0000_0000_0000_0000_0000_0000,
        x <= 100_000,
        y <= 100_000,
    ensures
        r.value() == rounded(negative, p as nat * pow2(x as nat), pow2(y as nat)),
{
    let ghost num = p as nat * pow2(x as nat);
    let mut p: u128 = p;
    let mut x: u32 = x;
    while p < HIDDEN as u128 && x > y
        invariant
            p < 0x8000_0000_0000_0000_0000_0000_0000_0000,
            x <= 100_000,
            y <= 100_000,
            num == p as nat * pow2(x as nat),
        decreases x,
    {
        proof {
            lemma_pow2_unfold(x as nat);
            assert(p as nat * pow2(x as nat) == (2 * p) as nat * pow2((x - 1) as nat)) by (nonlinear_arith)
                requires
                    pow2(x as nat) == 2 * pow2((x - 1) as nat),
            ;
        }
        p = 2 * p;
        x = x - 1;
    }
    let mut s: u32 = 0;
    let mut d: u128 = 1;
    proof {
        lemma2_to64();
    }
    while p / d >= WIDE as u128
        invariant
            p < 0x8000_0000_0000_0000_0000_0000_0000_0000,
            d == pow2(s as nat),
            d >= 1,
            s <= 80,
            s == 0 || p / ((d / 2) as u128) >= WIDE,
            s == 0 || d >= 2,
        decreases 80 - s,
    {
        proof {
            lemma_pow2_unfold((s + 1) as nat);
            assert(d <= p) by {
                if d > p {
                    lemma_small_div_converse(p as int, d as int);
                    lemma_basic_div(p as int, d as int);
                }
            }
            lemma_fundamental_div_mod(p as int, d as int);
            assert(d * WIDE <= p) by (nonlinear_arith)
                requires
                    p == d * (p as int / d as int) + p as int % d as int,
                    p as int / d as int >= WIDE,
                    p as int % d as int >= 0,
                    d >= 1,
            ;
            lemma_pow2_adds(64, 16);
            lemma2_to64();
            if s >= 80 {
                assert(pow2(80) == 0x1_0000_0000_0000_0000 * 0x1_0000);
            }
        }
        d = 2 * d;
        s = s + 1;
    }
    // The rounded result counts steps of `2^e`; `t` bits of `p` lie below one step.
    let (e, t): (u32, u32) = if x + s >= y {
        (x + s - y, s)
    } else {
        (0, y - x)
    };
    if t >= 128 {
        proof {
            lemma_pow2_adds(64, 64);
            lemma2_to64();
            if t > 128 {
                lemma_pow2_strictly_increases(128, t as nat);
            }
            lemma_basic_div(p as int, pow2(t as nat) as int);
            lemma_small_mod(p as nat, pow2(t as nat));
            crate::rounding::lemma_round_dyadic(p as nat, x as nat, y as nat, e as nat, t as nat);
        }
        return Float64::assemble(negative, 0, 0);
    }
    let step: u128 = power_of_two(t);
    proof {
        lemma_pow2_pos(t as nat);
    }
    let q: u128 = p / step;
    let rem: u128 = p % step;
    proof {
        if t > s {
            lemma_pow2_strictly_increases(s as nat, t as nat);
        }
        lemma_div_is_ordered_by_denominator(p as int, d as int, step as int);
        if s > 0 && t == s {
            let h = (d / 2) as int;
            lemma_pow2_unfold(s as nat);
            assert(d == h * 2);
            lemma_div_denominator(p as int, h, 2);
            assert(p / step >= HIDDEN);
        }
        if s == 0 && e > 0 {
            lemma2_to64();
            lemma_div_basics(p as int);
        }
        assert(p / step < WIDE);
        assert(e == 0 || p / step >= HIDDEN);
        crate::rounding::lemma_round_dyadic(p as nat, x as nat, y as nat, e as nat, t as nat);
    }
    let up = rem > step - rem || (rem == step - rem && q % 2 == 1);
    let mant: u64 = if up {
        q as u64 + 1
    } else {
        q as u64
    };
    Float64::assemble(negative, mant, e)
}

impl Float64 {
    /// The number with the given bit pattern.
    pub fn from_bits(bits: u64) -> (r: Float64)
        ensures
            r.bits == bits,
    {
        Float64 { bits }
    }

    pub fn to_bits(&self) -> (r: u64)
        ensures
            r == self.bits,
    {
        self.bits
    }

    fn nan() -> (r: Float64)
        ensures
            r.value() == Value::NotANumber,
    {
        Float64 { bits: NAN_BITS }
    }

    pub(crate) fn infinity(negative: bool) -> (r: Float64)
        ensures
            r.value() == (Value::Infinite { negative }),
    {
        Float64 {
            bits: if negative {
                SIGN + INFINITY_BITS
            } else {
                INFINITY_BITS
            },
        }
    }

    pub fn is_nan(&self) -> (r: bool)
        ensures
            r == (self.value() is NotANumber),
    {
        self.bits % SIGN > INFINITY_BITS
    }

    pub fn is_finite(&self) -> (r: bool)
        ensures
            r == (self.value() is Finite),
    {
        self.bits % SIGN < INFINITY_BITS
    }

    pub fn is_zero(&self) -> (r: bool)
        ensures
            r == self.value().is_zero(),
    {
        proof {
            let field = (self.bits / HIDDEN) % 2048;
            let fraction = self.bits % HIDDEN;
            if field > 0 {
                lemma_pow2_pos((field - 1) as nat);
                lemma_mul_strictly_positive(
                    (HIDDEN + fraction) as int,
                    pow2((field - 1) as nat) as int,
                );
            }
        }
        self.bits % SIGN == 0
    }

    pub fn is_negative(&self) -> (r: bool)
        ensures
            self.value() !is NotANumber ==> r == self.value().is_negative(),
    {
        self.bits >= SIGN
    }

    /// The number nearest to `n`.
    pub fn from_u64(n: u64) -> (r: Float64)
        ensures
            r.value() == Value::of_integer(n as nat),
    {
        proof {
            lemma2_to64();
        }
        round_dyadic(false, n as u128, 1074, 0)
    }

    pub fn neg(&self) -> (r: Float64)
        ensures
            r.value() == self.value().negated(),
    {
        let bits: u64 = if self.bits >= SIGN {
            self.bits - SIGN
        } else {
            self.bits + SIGN
        };
        Float64 { bits }
    }

    pub fn mul(&self, other: &Float64) -> (r: Float64)
        ensures
            r.value() == self.value().times(other.value()),
    {
        if self.is_nan() || other.is_nan() {
            return Float64::nan();
        }
        let negative = self.is_negative() != other.is_negative();
        if !self.is_finite() || !other.is_finite() {
            if self.is_zero() || other.is_zero() {
                return Float64::nan();
            }
            return Float64::infinity(negative);
        }
        let (_, m1, e1) = self.unpack();
        let (_, m2, e2) = other.unpack();
        assert(m1 * m2 < WIDE * WIDE) by (nonlinear_arith)
            requires
                m1 < WIDE,
                m2 < WIDE,
        ;
        proof {
            lemma_pow2_adds(e1 as nat, e2 as nat);
            let (a, b) = (pow2(e1 as nat), pow2(e2 as nat));
            assert((m1 as nat * m2 as nat) * (a * b) == (m1 as nat * a) * (m2 as nat * b))
                by (nonlinear_arith);
        }
        round_dyadic(negative, m1 as u128 * m2 as u128, e1 + e2, 1074)
    }

    /// The sum of two finite numbers, the first with the coarser step.
    fn add_ordered(&self, other: &Float64) -> (r: Float64)
        requires
            self.value() is Finite,
            other.value() is Finite,
            self.step() >= other.step(),
        ensures
            r.value() == self.value().plus(other.value()),
    {
        let (n1, m1, e1) = self.unpack();
        let (n2, m2, e2) = other.unpack();
        let ghost (a, b) = (m1 as nat * pow2(e1 as nat), m2 as nat * pow2(e2 as nat));
        let gap: u32 = e1 - e2;
        if gap >= 56 {
            proof {
                lemma_pow2_pos(e2 as nat);
                lemma_pow2_adds(56, e2 as nat);
                lemma2_to64_rest();
                if gap > 56 {
                    lemma_pow2_strictly_increases(56 + e2 as nat, e1 as nat);
                }
                assert(8 * b < pow2(e1 as nat)) by (nonlinear_arith)
                    requires
                        b == m2 as nat * pow2(e2 as nat),
                        m2 < WIDE,
                        pow2(56) * pow2(e2 as nat) <= pow2(e1 as nat),
                        pow2(56) == 8 * WIDE,
                        pow2(e2 as nat) > 0,
                ;
                crate::rounding::lemma_round_absorb(m1 as nat, e1 as nat, b);
                lemma_pow2_pos(e1 as nat);
                lemma_mul_strictly_positive(m1 as int, pow2(e1 as nat) as int);
                assert(b < a) by (nonlinear_arith)
                    requires
                        a == m1 as nat * pow2(e1 as nat),
                        m1 >= 1,
                        8 * b < pow2(e1 as nat),
                ;
            }
            return *self;
        }
        let scale: u128 = power_of_two(gap);
        proof {
            lemma2_to64_rest();
            lemma_pow2_pos(gap as nat);
            if gap < 55 {
                lemma_pow2_strictly_increases(gap as nat, 55);
            }
            assert(m1 * scale < WIDE * pow2(55)) by (nonlinear_arith)
                requires
                    m1 < WIDE,
                    0 < scale <= pow2(55),
            ;
            assert(m1 * scale >= 0) by (nonlinear_arith)
                requires
                    m1 >= 0,
                    scale >= 0,
            ;
        }
        let p1: u128 = m1 as u128 * scale;
        let p2: u128 = m2 as u128;
        proof {
            lemma_pow2_adds(gap as nat, e2 as nat);
            let u = pow2(e2 as nat);
            lemma_pow2_pos(e2 as nat);
            assert(p1 as nat * u == a) by (nonlinear_arith)
                requires
                    p1 == m1 * scale,
                    a == m1 as nat * pow2(e1 as nat),
                    pow2(e1 as nat) == scale as nat * u,
            ;
            assert((p1 + p2) * u == a + b) by (nonlinear_arith)
                requires
                    p1 as nat * u == a,
                    p2 as nat * u == b,
            ;
            assert((p1 - p2) * u == a - b) by (nonlinear_arith)
                requires
                    p1 as nat * u == a,
                    p2 as nat * u == b,
            ;
            assert((p2 - p1) * u == b - a) by (nonlinear_arith)
                requires
                    p1 as nat * u == a,
                    p2 as nat * u == b,
            ;
            assert(a == b <==> p1 == p2) by (nonlinear_arith)
                requires
                    p1 as nat * u == a,
                    p2 as nat * u == b,
                    u > 0,
            ;
            assert(a > b <==> p1 > p2) by (nonlinear_arith)
                requires
                    p1 as nat * u == a,
                    p2 as nat * u == b,
                    u > 0,
            ;
            assert(a + b == 0 <==> p1 + p2 == 0) by (nonlinear_arith)
                requires
                    (p1 + p2) * u == a + b,
                    u > 0,
            ;
        }
        proof {
            lemma2_to64();
        }
        if n1 == n2 {
            if p1 + p2 == 0 {
                proof {
                    lemma_mul_basics(pow2(0) as int);
                }
                Float64::pack(n1, 0, 0)
            } else {
                round_dyadic(n1, p1 + p2, e2, 0)
            }
        } else if p1 == p2 {
            proof {
                lemma_mul_basics(pow2(0) as int);
            }
            Float64::pack(false, 0, 0)
        } else if p1 > p2 {
            round_dyadic(n1, p1 - p2, e2, 0)
        } else {
            round_dyadic(n2, p2 - p1, e2, 0)
        }
    }

    pub fn add(&self, other: &Float64) -> (r: Float64)
        ensures
            r.value() == self.value().plus(other.value()),
    {
        if self.is_nan() || other.is_nan() {
            return Float64::nan();
        }
        if !self.is_finite() {
            if !other.is_finite() && self.is_negative() != other.is_negative() {
                return Float64::nan();
            }
            return *self;
        }
        if !other.is_finite() {
            return *other;
        }
        let (_, _, e1) = self.unpack();
        let (_, _, e2) = other.unpack();
        if e1 >= e2 {
            self.add_ordered(other)
        } else {
            other.add_ordered(self)
        }
    }

    pub fn sub(&self, other: &Float64) -> (r: Float64)
        ensures
            r.value() == self.value().minus(other.value()),
    {
        self.add(&other.neg())
    }

    pub fn div(&self, other: &Float64) -> (r: Float64)
        ensures
            r.value() == self.value().over(other.value()),
    {
        if self.is_nan() || other.is_nan() {
            return Float64::nan();
        }
        let negative = self.is_negative() != other.is_negative();
        if !self.is_finite() {
            if !other.is_finite() {
                return Float64::nan();
            }
            return Float64::infinity(negative);
        }
        if !other.is_finite() {
            proof {
                lemma_mul_basics(pow2(0) as int);
            }
            return Float64::pack(negative, 0, 0);
        }
        if other.is_zero() {
            if self.is_zero() {
                return Float64::nan();
            }
            return Float64::infinity(negative);
        }
        let (_, m1, e1) = self.unpack();
        let (_, m2, e2) = other.unpack();
        let ghost (a, b) = (m1 as nat * pow2(e1 as nat), m2 as nat * pow2(e2 as nat));
        proof {
            lemma_mul_basics(pow2(e2 as nat) as int);
            lemma_pow2_pos(e2 as nat);
        }
        if m1 == 0 {
            proof {
                lemma_mul_basics(pow2(e1 as nat) as int);
                lemma_mul_basics(pow2(1074) as int);
                lemma_mul_strictly_positive(m2 as int, pow2(e2 as nat) as int);
                lemma_round_zero(b);
                lemma_pow2_pos(2098);
                lemma_mul_basics(pow2(0) as int);
            }
            return Float64::pack(negative, 0, 0);
        }
        let mut m: u64 = m1;
        let mut k: u32 = 0;
        proof {
            lemma2_to64();
            lemma_mul_basics(m1 as int);
        }
        while m < HIDDEN
            invariant
                0 < m < WIDE,
                k <= m,
                k <= 64,
                m as nat == m1 as nat * pow2(k as nat),
                m >= pow2(k as nat),
            decreases WIDE - m,
        {
            proof {
                lemma_pow2_unfold((k + 1) as nat);
                assert(m1 as nat * pow2((k + 1) as nat) == 2 * (m1 as nat * pow2(k as nat)))
                    by (nonlinear_arith)
                    requires
                        pow2((k + 1) as nat) == 2 * pow2(k as nat),
                ;
                lemma2_to64();
                if k >= 64 {
                    assert(m >= pow2(64));
                }
                assert(k + 1 <= 2 * m);
            }
            m = 2 * m;
            k = k + 1;
        }
        let wide: u128 = m as u128 * 0x40_0000_0000_0000_0000;
        let q: u128 = wide / m2 as u128;
        let rem: u128 = wide % m2 as u128;
        let sticky: u128 = if rem > 0 {
            1
        } else {
            0
        };
        proof {
            let w = wide as int;
            lemma_fundamental_div_mod(w, m2 as int);
            assert(q >= 2 * WIDE) by {
                if q < 2 * WIDE {
                    assert(w < 2 * WIDE * WIDE) by (nonlinear_arith)
                        requires
                            w == m2 * q + rem,
                            0 < m2 < WIDE,
                            0 <= rem < m2,
                            q + 1 <= 2 * WIDE,
                    ;
                }
            }
            assert(q <= wide) by (nonlinear_arith)
                requires
                    wide == m2 * q + rem,
                    m2 >= 1,
                    rem >= 0,
                    q >= 0,
            ;
            lemma_mul_is_commutative(q as int, m2 as int);
            let (x, y) = ((e1 + 1074) as nat, (e2 + k + 70) as nat);
            crate::rounding::lemma_round_sticky(q as nat, rem as nat, m2 as nat, x, y);
            // Both fractions below are `a * 2^1074 / b`, the second one widened.
            let c = pow2((k + 70) as nat);
            lemma_pow2_pos((k + 70) as nat);
            lemma_mul_strictly_positive(m2 as int, pow2(e2 as nat) as int);
            crate::rounding::lemma_round_scaled(a * pow2(1074), b, c);
            lemma_pow2_adds(e1 as nat, 1074);
            lemma_pow2_adds(e2 as nat, (k + 70) as nat);
            lemma_pow2_adds(k as nat, 70);
            lemma_pow2_adds(64, 6);
            lemma2_to64();
            assert(pow2(70) == 0x40_0000_0000_0000_0000);
            assert(a * pow2(1074) * c == wide as nat * pow2(x)) by (nonlinear_arith)
                requires
                    a == m1 as nat * pow2(e1 as nat),
                    pow2(x) == pow2(e1 as nat) * pow2(1074),
                    c == pow2(k as nat) * pow2(70),
                    wide as nat == m as nat * pow2(70),
                    m as nat == m1 as nat * pow2(k as nat),
            ;
            assert(b * c == m2 as nat * pow2(y)) by (nonlinear_arith)
                requires
                    b == m2 as nat * pow2(e2 as nat),
                    pow2(y) == pow2(e2 as nat) * c,
            ;
        }
        round_dyadic(negative, 2 * q + sticky, e1 + 1074, e2 + k + 71)
    }

    /// The number nearest to `n / d`.
    pub fn ratio(n: u64, d: u64) -> (r: Float64)
        requires
            n <= WIDE,
            0 < d <= WIDE,
        ensures
            r.value() == Value::of_ratio(n as nat, d as nat),
    {
        proof {
            lemma_integer_exact(n as nat);
            lemma_integer_exact(d as nat);
            lemma_pow2_pos(1074);
            crate::rounding::lemma_round_scaled(n as nat * pow2(1074), d as nat, pow2(1074));
            lemma_mul_strictly_positive(d as int, pow2(1074) as int);
        }
        Float64::from_u64(n).div(&Float64::from_u64(d))
    }
}

/// Magnitudes are ordered as their bit patterns are.
proof fn lemma_pattern_order(a: Float64, b: Float64)
    requires
        a.value() !is NotANumber,
        b.value() !is NotANumber,
        a.bits < SIGN,
        b.bits < SIGN,
        a.bits < b.bits,
    ensures
        a.value().rank() < b.value().rank(),
{
    let (f, g) = ((a.bits / HIDDEN) % 2048, (b.bits / HIDDEN) % 2048);
    let (x, y) = (a.bits % HIDDEN, b.bits % HIDDEN);
    let (k, l) = (a.step(), b.step());
    lemma2_to64();
    lemma_pow2_pos(k);
    lemma_pow2_pos(l);
    lemma_in_range((HIDDEN + x) as nat, k);
    lemma_in_range(x as nat, 0);
    lemma_mul_basics(x as int);
    if g == 2047 {
    } else if f == g {
        if f > 0 {
            lemma_mul_strict_inequality((HIDDEN + x) as int, (HIDDEN + y) as int, pow2(k) as int);
        }
    } else if f == 0 {
        assert((HIDDEN + y) * pow2(l) > x) by (nonlinear_arith)
            requires
                x < HIDDEN,
                y >= 0,
                pow2(l) >= 1,
        ;
    } else {
        lemma_pow2_adds(k, (l - k) as nat);
        lemma_pow2_unfold((l - k) as nat);
        lemma_pow2_pos((l - k - 1) as nat);
        assert((HIDDEN + x) * pow2(k) < (HIDDEN + y) * pow2(l)) by (nonlinear_arith)
            requires
                x < HIDDEN,
                y >= 0,
                pow2(l) == pow2(k) * pow2((l - k) as nat),
                pow2((l - k) as nat) >= 2,
                pow2(k) >= 1,
        ;
    }
}

impl Float64 {
    /// A key by which numbers are ordered.
    fn order_key(&self) -> (r: i64)
        ensures
            r == self.spec_key(),
    {
        let magnitude: i64 = (self.bits % SIGN) as i64;
        if self.bits >= SIGN {
            -magnitude
        } else {
            magnitude
        }
    }

    spec fn spec_key(self) -> int {
        if self.bits >= SIGN {
            -(self.bits % SIGN)
        } else {
            self.bits as int
        }
    }

    spec fn magnitude(self) -> Float64 {
        Float64 { bits: self.bits % SIGN }
    }

    proof fn lemma_magnitude(a: Float64)
        requires
            a.value() !is NotANumber,
        ensures
            a.magnitude().bits < SIGN,
            a.magnitude().value() !is NotANumber,
            a.value().rank() == if a.bits >= SIGN {
                -a.magnitude().value().rank()
            } else {
                a.magnitude().value().rank()
            },
            a.spec_key() == if a.bits >= SIGN {
                -a.magnitude().bits
            } else {
                a.magnitude().bits as int
            },
            a.magnitude().bits == 0 ==> a.magnitude().value().rank() == 0,
            a.magnitude().bits > 0 ==> a.magnitude().value().rank() > 0,
    {
        let u = a.magnitude();
        let zero = Float64 { bits: 0 };
        assert(zero.value().rank() == 0);
        if u.bits > 0 {
            lemma_pattern_order(zero, u);
        }
    }

    proof fn lemma_key_order(a: Float64, b: Float64)
        requires
            a.value() !is NotANumber,
            b.value() !is NotANumber,
        ensures
            a.spec_key() < b.spec_key() <==> a.value().rank() < b.value().rank(),
    {
        let (u, v) = (a.magnitude(), b.magnitude());
        Float64::lemma_magnitude(a);
        Float64::lemma_magnitude(b);
        let (x, y) = (u.value().rank(), v.value().rank());
        if u.bits < v.bits {
            lemma_pattern_order(u, v);
            assert(x < y);
        } else if v.bits < u.bits {
            lemma_pattern_order(v, u);
            assert(y < x);
        } else {
            assert(u == v);
            assert(x == y);
        }
    }

    pub fn lt(&self, other: &Float64) -> (r: bool)
        ensures
            r == self.value().lt(other.value()),
    {
        if self.is_nan() || other.is_nan() {
            return false;
        }
        proof {
            Float64::lemma_key_order(*self, *other);
        }
        self.order_key() < other.order_key()
    }

    pub fn le(&self, other: &Float64) -> (r: bool)
        ensures
            r == self.value().le(other.value()),
    {
        if self.is_nan() || other.is_nan() {
            return false;
        }
        proof {
            Float64::lemma_key_order(*other, *self);
        }
        self.order_key() <= other.order_key()
    }

    pub fn max(&self, other: &Float64) -> (r: Float64)
        ensures
            r.value() == self.value().max(other.value()),
    {
        if self.is_nan() || self.lt(other) {
            *other
        } else {
            *self
        }
    }

    pub fn min(&self, other: &Float64) -> (r: Float64)
        ensures
            r.value() == self.value().min(other.value()),
    {
        if self.is_nan() || other.lt(self) {
            *other
        } else {
            *self
        }
    }

    pub fn clamp(&self, low: &Float64, high: &Float64) -> (r: Float64)
        ensures
            r.value() == self.value().clamp(low.value(), high.value()),
    {
        if self.lt(low) {
            *low
        } else if high.lt(self) {
            *high
        } else {
            *self
        }
    }

    /// The integer part, cut off at the ends of the range.
    pub fn to_u64(&self) -> (r: u64)
        ensures
            r == self.value().truncated(),
    {
        if self.is_nan() || self.is_negative() {
            return 0;
        }
        if !self.is_finite() {
            return u64::MAX;
        }
        let (_, m, e) = self.unpack();
        if e >= 1074 {
            let up: u32 = e - 1074;
            proof {
                lemma_pow2_pos(1074);
                lemma_pow2_pos(up as nat);
                lemma_pow2_adds(up as nat, 1074);
                assert(m as nat * pow2(e as nat) == (m as nat * pow2(up as nat)) * pow2(1074))
                    by (nonlinear_arith)
                    requires
                        pow2(e as nat) == pow2(up as nat) * pow2(1074),
                ;
                lemma_div_multiples_vanish((m as nat * pow2(up as nat)) as int, pow2(1074) as int);
                lemma_mul_is_commutative(
                    (m as nat * pow2(up as nat)) as int,
                    pow2(1074) as int,
                );
                lemma2_to64();
                if up > 12 {
                    lemma_pow2_strictly_increases(12, up as nat);
                }
                if up < 11 {
                    lemma_pow2_strictly_increases(up as nat, 11);
                }
                if up >= 12 {
                    assert(m as nat * pow2(up as nat) >= HIDDEN * 4096) by (nonlinear_arith)
                        requires
                            m >= HIDDEN,
                            pow2(up as nat) >= 4096,
                    ;
                } else {
                    assert(m as nat * pow2(up as nat) <= WIDE * 2048 - 2048) by (nonlinear_arith)
                        requires
                            m <= WIDE - 1,
                            0 < pow2(up as nat) <= 2048,
                    ;
                }
            }
            if up >= 12 {
                u64::MAX
            } else {
                (m as u128 * power_of_two(up)) as u64
            }
        } else {
            let down: u32 = 1074 - e;
            proof {
                lemma_pow2_pos(e as nat);
                lemma_pow2_pos(down as nat);
                lemma_pow2_adds(down as nat, e as nat);
                lemma_div_denominator(
                    (m as nat * pow2(e as nat)) as int,
                    pow2(e as nat) as int,
                    pow2(down as nat) as int,
                );
                lemma_div_multiples_vanish(m as int, pow2(e as nat) as int);
                lemma_mul_is_commutative(m as int, pow2(e as nat) as int);
                lemma_mul_is_commutative(pow2(down as nat) as int, pow2(e as nat) as int);
                assert((m as nat * pow2(e as nat)) / pow2(1074) == m as nat / pow2(down as nat));
                if down >= 64 {
                    lemma2_to64();
                    if down > 64 {
                        lemma_pow2_strictly_increases(64, down as nat);
                    }
                    lemma_basic_div(m as int, pow2(down as nat) as int);
                } else {
                    lemma_div_nonincreasing(m as int, pow2(down as nat) as int);
                }
            }
            if down >= 64 {
                0
            } else {
                (m as u128 / power_of_two(down)) as u64
            }
        }
    }
}

/// Nothing rounds to nothing.
pub proof fn lemma_round_zero(den: nat)
    requires
        den > 0,
    ensures
        crate::rounding::round_units(0, den) == 0,
{
    lemma2_to64();
    lemma_mul_basics(den as int);
    lemma_div_of0((den * pow2(0)) as int);
    lemma_small_mod(0, den * pow2(0));
    crate::rounding::lemma_precision_unique(0, den, 0);
}

/// Integers of at most 53 bits are numbers.
pub proof fn lemma_integer_exact(n: nat)
    requires
        n <= WIDE,
    ensures
        Value::of_integer(n) == (Value::Finite { negative: false, units: n * pow2(1074) }),
{
    lemma_integer_exact_from(n, 1074);
    lemma2_to64_rest();
    lemma_pow2_pos(1074);
    lemma_mul_inequality(n as int, WIDE as int, pow2(1074) as int);
    lemma_pow2_adds(53, 1074);
    lemma_pow2_strictly_increases(53 + 1074, 2098);
}

/// A number of at most 53 bits, counted in any step, rounds to itself.
pub proof fn lemma_integer_exact_from(n: nat, e: nat)
    requires
        n <= WIDE,
    ensures
        crate::rounding::round_units(n * pow2(e), 1) == n * pow2(e),
    decreases e,
{
    if n == WIDE {
        lemma_pow2_unfold(e + 1);
        assert(n * pow2(e) == HIDDEN as nat * pow2(e + 1)) by (nonlinear_arith)
            requires
                n == 2 * HIDDEN,
                pow2(e + 1) == 2 * pow2(e),
        ;
        crate::rounding::lemma_round_exact(HIDDEN as nat, e + 1);
    } else if e == 0 || n >= HIDDEN {
        crate::rounding::lemma_round_exact(n, e);
    } else {
        lemma_pow2_unfold(e);
        assert(n * pow2(e) == (2 * n) * pow2((e - 1) as nat)) by (nonlinear_arith)
            requires
                pow2(e) == 2 * pow2((e - 1) as nat),
        ;
        lemma_integer_exact_from(2 * n, (e - 1) as nat);
    }
}

} // verus!
