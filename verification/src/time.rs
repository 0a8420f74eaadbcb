//! Points and spans of time, counted in nanoseconds.

use crate::float64::{power_of_two, Float64, Value};
use crate::rounding::{HIDDEN, WIDE};
use vstd::arithmetic::div_mod::*;
use vstd::arithmetic::mul::*;
use vstd::arithmetic::power2::*;
use vstd::prelude::*;

verus! {

pub const NANOS_PER_SEC: u64 = 1_000_000_000;

/// The longest span, and the last point in time: the nanosecond before `2^64` seconds.
pub const MAX_NANOS: u128 = 18_446_744_073_709_551_615_999_999_999;

/// A span of time.
#[derive(Clone, Copy, Debug, PartialEq, Eq, Structural)]
pub struct Duration {
    nanos: u128,
}

/// A point in time, as the span since an origin that all points share.
#[derive(Clone, Copy, Debug, PartialEq, Eq, Structural)]
pub struct Instant {
    nanos: u128,
}

/// The whole nanoseconds nearest to a number of seconds. There are none for a negative number,
/// for what is not a number and for `2^64` seconds or more.
pub open spec fn nanos_of_seconds(seconds: Value) -> Option<nat> {
    match seconds {
        Value::Finite { negative, units } => if negative && units > 0 {
            None
        } else if units >= pow2(64) * pow2(1074) {
            None
        } else {
            Some(crate::rounding::nearest(units * NANOS_PER_SEC as nat, pow2(1074)))
        },
        _ => None,
    }
}

/// A number of nanoseconds in seconds: whole seconds and fraction are converted on their own,
/// then added.
pub open spec fn seconds_of(nanos: nat) -> Value {
    Value::of_integer(nanos / NANOS_PER_SEC as nat).plus(
        Value::of_integer(nanos % NANOS_PER_SEC as nat).over(
            Value::of_integer(NANOS_PER_SEC as nat),
        ),
    )
}

impl Duration {
    #[verifier::type_invariant]
    spec fn in_range(self) -> bool {
        self.nanos <= MAX_NANOS
    }

    /// The length in nanoseconds.
    pub closed spec fn total(self) -> nat {
        self.nanos as nat
    }

    /// A span of the given length.
    pub fn from_nanos(nanos: u128) -> (r: Duration)
        requires
            nanos <= MAX_NANOS,
        ensures
            r.total() == nanos,
    {
        Duration { nanos }
    }

    pub fn zero() -> (r: Duration)
        ensures
            r.total() == 0,
    {
        Duration { nanos: 0 }
    }

    pub fn from_millis(ms: u64) -> (r: Duration)
        ensures
            r.total() == ms * 1_000_000,
    {
        Duration { nanos: ms as u128 * 1_000_000 }
    }

    pub fn as_nanos(&self) -> (r: u128)
        ensures
            r == self.total(),
            r <= MAX_NANOS,
    {
        proof {
            use_type_invariant(self);
        }
        self.nanos
    }

    /// The whole microseconds, in 64 bits: higher ones are cut off.
    pub open spec fn micros(self) -> nat {
        (self.total() / 1000) % 0x1_0000_0000_0000_0000
    }

    pub fn as_micros(&self) -> (r: u64)
        ensures
            r == self.micros(),
    {
        ((self.nanos / 1000) % 0x1_0000_0000_0000_0000) as u64
    }

    /// Half of the span, without the odd nanosecond.
    pub fn half(&self) -> (r: Duration)
        ensures
            r.total() == self.total() / 2,
    {
        proof {
            use_type_invariant(self);
        }
        Duration { nanos: self.nanos / 2 }
    }

    pub fn lt(&self, other: &Duration) -> (r: bool)
        ensures
            r == (self.total() < other.total()),
    {
        self.nanos < other.nanos
    }

    /// The span in seconds.
    pub open spec fn seconds_value(self) -> Value {
        seconds_of(self.total())
    }

    pub fn seconds(&self) -> (r: Float64)
        ensures
            r.value() == self.seconds_value(),
    {
        proof {
            use_type_invariant(self);
        }
        let whole: u64 = (self.nanos / NANOS_PER_SEC as u128) as u64;
        let part: u64 = (self.nanos % NANOS_PER_SEC as u128) as u64;
        Float64::from_u64(whole).add(
            &Float64::from_u64(part).div(&Float64::from_u64(NANOS_PER_SEC)),
        )
    }

    /// The span nearest to a number of seconds.
    pub fn from_seconds(seconds: Float64) -> (r: Option<Duration>)
        ensures
            r matches Some(d) ==> nanos_of_seconds(seconds.value()) == Some(d.total()),
            r is None ==> nanos_of_seconds(seconds.value()) is None,
    {
        if !seconds.is_finite() {
            return None;
        }
        if seconds.is_negative() && !seconds.is_zero() {
            return None;
        }
        let (_, m, e) = seconds.unpack();
        let ghost units = m as nat * pow2(e as nat);
        proof {
            lemma_pow2_pos(1074);
            lemma2_to64();
        }
        if e >= 1074 {
            let up: u32 = e - 1074;
            proof {
                lemma_pow2_pos(up as nat);
                lemma_pow2_adds(up as nat, 1074);
                if up > 12 {
                    lemma_pow2_strictly_increases(12, up as nat);
                }
                if up < 11 {
                    lemma_pow2_strictly_increases(up as nat, 11);
                }
                assert(units == (m as nat * pow2(up as nat)) * pow2(1074)) by (nonlinear_arith)
                    requires
                        units == m as nat * pow2(e as nat),
                        pow2(e as nat) == pow2(up as nat) * pow2(1074),
                ;
            }
            let ghost whole = m as nat * pow2(up as nat);
            if up >= 12 {
                proof {
                    assert(whole >= pow2(64)) by (nonlinear_arith)
                        requires
                            whole == m as nat * pow2(up as nat),
                            m >= HIDDEN,
                            pow2(up as nat) >= 4096,
                            pow2(64) == 4096 * HIDDEN,
                    ;
                    lemma_mul_inequality(pow2(64) as int, whole as int, pow2(1074) as int);
                }
                None
            } else {
                proof {
                    assert(whole <= 2048 * WIDE - 2048) by (nonlinear_arith)
                        requires
                            whole == m as nat * pow2(up as nat),
                            m <= WIDE - 1,
                            0 < pow2(up as nat) <= 2048,
                    ;
                    lemma_mul_strict_inequality(whole as int, pow2(64) as int, pow2(1074) as int);
                    assert(units * NANOS_PER_SEC as nat == (whole * NANOS_PER_SEC as nat) * pow2(1074))
                        by (nonlinear_arith)
                        requires
                            units == whole * pow2(1074),
                    ;
                    lemma_fundamental_div_mod_converse(
                        (units * NANOS_PER_SEC as nat) as int,
                        pow2(1074) as int,
                        (whole * NANOS_PER_SEC as nat) as int,
                        0,
                    );
                }
                Some(
                    Duration {
                        nanos: (m as u128 * power_of_two(up)) * NANOS_PER_SEC as u128,
                    },
                )
            }
        } else {
            let down: u32 = 1074 - e;
            let num: u128 = m as u128 * NANOS_PER_SEC as u128;
            proof {
                lemma_pow2_pos(e as nat);
                lemma_pow2_pos(down as nat);
                lemma_pow2_adds(down as nat, e as nat);
                assert(units * NANOS_PER_SEC as nat == num as nat * pow2(e as nat)) by (nonlinear_arith)
                    requires
                        units == m as nat * pow2(e as nat),
                        num == m * NANOS_PER_SEC,
                ;
                crate::rounding::lemma_nearest_scaled(
                    num as nat,
                    pow2(down as nat),
                    pow2(e as nat),
                );
                assert(units < pow2(64) * pow2(1074)) by (nonlinear_arith)
                    requires
                        units == m as nat * pow2(e as nat),
                        m < pow2(64),
                        pow2(1074) == pow2(down as nat) * pow2(e as nat),
                        pow2(down as nat) >= 1,
                        pow2(e as nat) >= 1,
                ;
            }
            if down >= 128 {
                proof {
                    lemma_pow2_adds(64, 64);
                    if down > 128 {
                        lemma_pow2_strictly_increases(128, down as nat);
                    }
                    lemma_basic_div(num as int, pow2(down as nat) as int);
                    lemma_small_mod(num as nat, pow2(down as nat));
                }
                return Some(Duration { nanos: 0 });
            }
            let step: u128 = power_of_two(down);
            let q: u128 = num / step;
            let rem: u128 = num % step;
            proof {
                lemma_div_nonincreasing(num as int, step as int);
            }
            let up = rem > step - rem || (rem == step - rem && q % 2 == 1);
            Some(
                Duration {
                    nanos: if up {
                        q + 1
                    } else {
                        q
                    },
                },
            )
        }
    }
}

impl Instant {
    #[verifier::type_invariant]
    spec fn in_range(self) -> bool {
        self.nanos <= MAX_NANOS
    }

    /// Nanoseconds since the origin.
    pub closed spec fn at(self) -> nat {
        self.nanos as nat
    }

    /// The point that lies the given span after the origin.
    pub fn after_origin(span: Duration) -> (r: Instant)
        ensures
            r.at() == span.total(),
    {
        Instant { nanos: span.as_nanos() }
    }

    /// The span from `earlier` to this point, or none at all if that lies later.
    pub open spec fn span_since(self, earlier: Instant) -> nat {
        if self.at() >= earlier.at() {
            (self.at() - earlier.at()) as nat
        } else {
            0
        }
    }

    pub fn saturating_duration_since(&self, earlier: Instant) -> (r: Duration)
        ensures
            r.total() == self.span_since(earlier),
    {
        proof {
            use_type_invariant(self);
        }
        Duration {
            nanos: if self.nanos >= earlier.nanos {
                (self.nanos - earlier.nanos) as u128
            } else {
                0
            },
        }
    }

    /// Nanoseconds since the origin, for sums that may lie past the last point in time.
    pub fn position(&self) -> (r: u128)
        ensures
            r == self.at(),
            r <= MAX_NANOS,
    {
        proof {
            use_type_invariant(self);
        }
        self.nanos
    }

    /// The point that lies the given number of nanoseconds later.
    pub closed spec fn shifted(self, span: nat) -> Instant {
        Instant { nanos: (self.nanos + span) as u128 }
    }

    /// A shifted point lies where the sum says.
    pub proof fn law_shifted_point(self, span: nat)
        requires
            self.at() + span <= MAX_NANOS,
        ensures
            self.shifted(span).at() == self.at() + span,
    {
    }

    /// The point that lies the given span later.
    pub fn later(&self, span: Duration) -> (r: Instant)
        requires
            self.at() + span.total() <= MAX_NANOS,
        ensures
            r == self.shifted(span.total()),
            r.at() == self.at() + span.total(),
    {
        Instant { nanos: self.nanos + span.as_nanos() }
    }
}

/// The nanoseconds of a number of seconds are off by at most half of one; an even count wins a
/// tie. There are none if and only if the seconds are negative, not finite, or too many.
pub proof fn law_nanos_are_the_nearest(seconds: Value)
    ensures
        ({
            let one = pow2(1074) as int;
            let nanos = nanos_of_seconds(seconds);
            let off = 2 * (nanos->0 * one - seconds->units * 1_000_000_000);
            &&& nanos is Some <==> seconds is Finite && 0 <= seconds.rank() < pow2(64) * pow2(1074)
            &&& nanos is Some ==> -one <= off <= one
            &&& nanos is Some && (off == one || off == -one) ==> nanos->0 % 2 == 0
        }),
{
    lemma_pow2_pos(1074);
    lemma_pow2_pos(64);
    lemma_mul_strictly_positive(pow2(64) as int, pow2(1074) as int);
    if let Value::Finite { units, .. } = seconds {
        let one = pow2(1074);
        let num = units * NANOS_PER_SEC as nat;
        lemma_fundamental_div_mod(num as int, one as int);
        let q = num / one;
        let n = crate::rounding::nearest(num, one);
        assert((n == q ==> n * one == one * q) && (n == q + 1 ==> n * one == one * q + one))
            by (nonlinear_arith);
    }
}

/// The microseconds of a span are the whole ones, as long as 64 bits hold them.
pub proof fn law_micros_are_whole(span: Duration)
    requires
        span.total() < 1000 * 0x1_0000_0000_0000_0000,
    ensures
        span.micros() * 1000 <= span.total() < (span.micros() + 1) * 1000,
{
}

/// The span from an earlier point to a later one leads from the one to the other; the other way
/// round there is none.
pub proof fn law_span_leads_there(earlier: Instant, later: Instant)
    ensures
        earlier.at() <= later.at() ==> earlier.at() + later.span_since(earlier) == later.at(),
        later.at() <= earlier.at() ==> later.span_since(earlier) == 0,
{
}

} // verus!
