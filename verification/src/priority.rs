//! From the time that is left to a priority.

use crate::float64::{Float64, Value};
use vstd::arithmetic::power2::*;
use vstd::prelude::*;

verus! {

/// A number of milliseconds that is less than `n`.
pub open spec fn below(slack: Value, n: nat) -> bool {
    slack.rank() < n * pow2(1074)
}

/// The priority of an object with the given slack in milliseconds: the less time is left, the
/// lower the number.
pub open spec fn priority_of(slack: Value) -> i32 {
    if slack !is Finite {
        127
    } else if slack.rank() <= 0 {
        0
    } else if below(slack, 50) {
        8
    } else if below(slack, 100) {
        16
    } else if below(slack, 250) {
        32
    } else if below(slack, 500) {
        64
    } else if below(slack, 1000) {
        96
    } else {
        127
    }
}

fn is_below(slack: &Float64, n: u64) -> (r: bool)
    requires
        slack.value() is Finite,
        n <= 1000,
    ensures
        r == below(slack.value(), n as nat),
{
    proof {
        crate::float64::lemma_integer_exact(n as nat);
    }
    slack.lt(&Float64::from_u64(n))
}

/// Maps the slack in milliseconds to a discrete priority band.
pub fn slack_to_priority(slack_ms: Float64) -> (r: i32)
    ensures
        r == priority_of(slack_ms.value()),
{
    if !slack_ms.is_finite() {
        return 127;
    }
    proof {
        crate::float64::lemma_integer_exact(0);
        vstd::arithmetic::mul::lemma_mul_basics(pow2(1074) as int);
    }
    if slack_ms.le(&Float64::from_u64(0)) {
        return 0;
    }
    if is_below(&slack_ms, 50) {
        return 8;
    }
    if is_below(&slack_ms, 100) {
        return 16;
    }
    if is_below(&slack_ms, 250) {
        return 32;
    }
    if is_below(&slack_ms, 500) {
        return 64;
    }
    if is_below(&slack_ms, 1000) {
        return 96;
    }
    127
}

/// More slack never means a lower number.
pub proof fn law_priority_follows_slack(a: Value, b: Value)
    requires
        a is Finite,
        b is Finite,
        a.le(b),
    ensures
        priority_of(a) <= priority_of(b),
{
    lemma_pow2_pos(1074);
}

/// The bands: nothing left, less than 50, 100, 250, 500 and 1000 milliseconds, and more. What is
/// no finite number counts as more.
pub proof fn law_priority_bands(slack: Value)
    ensures
        ({
            let ms = pow2(1074) as int;
            let place = slack.rank();
            let band = priority_of(slack);
            &&& slack !is Finite ==> band == 127
            &&& slack is Finite && place <= 0 ==> band == 0
            &&& slack is Finite && 0 < place < 50 * ms ==> band == 8
            &&& slack is Finite && 50 * ms <= place < 100 * ms ==> band == 16
            &&& slack is Finite && 100 * ms <= place < 250 * ms ==> band == 32
            &&& slack is Finite && 250 * ms <= place < 500 * ms ==> band == 64
            &&& slack is Finite && 500 * ms <= place < 1000 * ms ==> band == 96
            &&& slack is Finite && place >= 1000 * ms ==> band == 127
        }),
{
    lemma_pow2_pos(1074);
}

} // verus!
