//! Admission of objects by their deadlines.
//!
//! A virtual queue holds the packets of the objects that were admitted. It drains at the rate
//! that the path is trusted to carry. An object is admitted if it would still arrive in time
//! behind that queue.

use crate::bbr::config::DeadlineConfig;
use crate::bbr::state::BbrState;
use crate::float64::{Float64, Value};
use crate::priority::slack_to_priority;
use crate::time::{Duration, Instant, MAX_NANOS};
use vstd::prelude::*;

verus! {

/// The shortest round-trip time that is believed, in milliseconds.
pub const RTT_FLOOR_MILLIS: u64 = 5;

/// The virtual queue.
#[derive(Debug, Clone, Copy)]
pub struct DeadlineState {
    /// How many packets wait
    pub q_pkts: Float64,
    /// When that was true
    pub last: Option<Instant>,
}

/// What a virtual queue says.
pub struct QueueView {
    pub q_pkts: Value,
    pub last: Option<Instant>,
}

impl View for DeadlineState {
    type V = QueueView;

    open spec fn view(&self) -> QueueView {
        QueueView { q_pkts: self.q_pkts.value(), last: self.last }
    }
}

impl Default for DeadlineState {
    fn default() -> (r: DeadlineState)
        ensures
            r@ == (QueueView { q_pkts: Value::of_integer(0), last: None }),
    {
        DeadlineState { q_pkts: Float64::from_u64(0), last: None }
    }
}

impl QueueView {
    /// How long the queue has drained since it was last touched, in seconds.
    pub open spec fn drained_for(self, now: Instant) -> Value {
        crate::time::seconds_of(
            match self.last {
                Some(last) => now.span_since(last),
                None => 0,
            },
        )
    }

    /// The queue after draining at the given rate until `now`.
    pub open spec fn decayed(self, now: Instant, pps: Value) -> QueueView {
        let dt = self.drained_for(now);
        if !pps.le(Value::of_integer(0)) && Value::of_integer(0).lt(dt) {
            QueueView {
                q_pkts: self.q_pkts.minus(pps.times(dt)).max(Value::of_integer(0)),
                last: Some(now),
            }
        } else {
            self
        }
    }

    /// The queue with an object of so many packets behind it.
    pub open spec fn filled(self, now: Instant, packets: nat) -> QueueView {
        QueueView { q_pkts: self.q_pkts.plus(Value::of_integer(packets)), last: Some(now) }
    }
}

impl DeadlineState {
    /// Drains the queue at a rate in packets per second.
    pub fn deadline_decay_queue(&mut self, now: Instant, pps: Float64)
        ensures
            final(self)@ == old(self)@.decayed(now, pps.value()),
    {
        let zero = Float64::from_u64(0);
        if pps.le(&zero) {
            return;
        }
        let last = match self.last {
            Some(last) => last,
            None => now,
        };
        let dt = now.saturating_duration_since(last).seconds();
        if zero.lt(&dt) {
            self.q_pkts = self.q_pkts.sub(&pps.mul(&dt)).max(&zero);
            self.last = Some(now);
        }
    }
}

/// How many packets an object takes: at least one.
pub open spec fn packets_of(object_size: u64, mss: u32) -> nat {
    let count = (object_size + mss - 1) / mss as int;
    if count >= 1 {
        count as nat
    } else {
        1
    }
}

fn count_packets(object_size: u64, mss: u32) -> (r: u64)
    requires
        mss > 0,
        object_size + mss - 1 <= u64::MAX,
    ensures
        r == packets_of(object_size, mss),
{
    let count: u64 = (object_size + (mss as u64 - 1)) / mss as u64;
    if count >= 1 {
        count
    } else {
        1
    }
}

/// The smaller of two rates, where the second counts only if it is positive and finite.
pub open spec fn narrowed(rate: Value, part: Value) -> Value {
    if part is Finite && Value::of_integer(0).lt(part) {
        rate.min(part)
    } else {
        rate
    }
}

fn narrow(rate: &Float64, part: &Float64) -> (r: Float64)
    ensures
        r.value() == narrowed(rate.value(), part.value()),
{
    if part.is_finite() && Float64::from_u64(0).lt(part) {
        rate.min(part)
    } else {
        *rate
    }
}

/// A usable capacity: positive and finite.
pub open spec fn is_usable(rate: Value) -> bool {
    rate is Finite && !rate.le(Value::of_integer(0))
}

impl BbrState {
    pub open spec fn scheduler_enabled(self) -> bool {
        self.config.deadline matches Some(d) && d.enabled
    }

    /// The round-trip time to reckon with, in nanoseconds.
    pub open spec fn admission_rtt(self, rtt_hint: Duration) -> nat {
        let rtt = if self.min_rtt.total() != 0 {
            self.min_rtt.total()
        } else {
            rtt_hint.total()
        };
        if rtt < RTT_FLOOR_MILLIS * 1_000_000 {
            (RTT_FLOOR_MILLIS * 1_000_000) as nat
        } else {
            rtt
        }
    }

    /// The least of what window, estimated bandwidth and pacing allow, in bits per second.
    pub open spec fn capacity(self, rtt_hint: Duration, bandwidth: u64) -> Value {
        let eight = Value::of_integer(8);
        let by_window = Value::of_integer(self.cwnd as nat).times(eight).over(
            crate::time::seconds_of(self.admission_rtt(rtt_hint)),
        );
        let by_bandwidth = Value::of_integer(bandwidth as nat).times(eight);
        let by_pacing = Value::of_integer(self.pacing_rate as nat).times(eight);
        narrowed(
            narrowed(narrowed(Value::Infinite { negative: false }, by_window), by_bandwidth),
            by_pacing,
        )
    }

    /// The trusted rate in packets per second.
    pub open spec fn packet_rate(self, rtt_hint: Duration, bandwidth: u64) -> Value {
        let config = self.config.deadline->0;
        self.capacity(rtt_hint, bandwidth).over(Value::of_integer(8)).over(
            Value::of_integer(config.default_mss as nat),
        ).max(Value::of_integer(1)).times(config.beta.value())
    }

    /// How long queue and object take to send, in nanoseconds.
    pub open spec fn sending_time(
        self,
        queue: QueueView,
        object_size: u64,
        rtt_hint: Duration,
        bandwidth: u64,
    ) -> Option<nat> {
        let packets = packets_of(object_size, self.config.deadline->0.default_mss);
        crate::time::nanos_of_seconds(
            queue.q_pkts.plus(Value::of_integer(packets)).over(
                self.packet_rate(rtt_hint, bandwidth),
            ),
        )
    }

    /// When the object would have arrived, the guard time included. There is no such time where
    /// the queue takes longer than a span can last.
    pub open spec fn arrival(
        self,
        queue: QueueView,
        object_size: u64,
        now: Instant,
        rtt_hint: Duration,
        bandwidth: u64,
    ) -> Option<nat> {
        match self.sending_time(queue, object_size, rtt_hint, bandwidth) {
            Some(sending) => Some(
                now.at() + self.admission_rtt(rtt_hint) / 2 + sending
                    + self.config.deadline->0.guard_ms as nat * 1_000_000,
            ),
            None => None,
        }
    }

    /// Packets can be counted, and the arrival is a point in time.
    pub open spec fn admission_fits(
        self,
        queue: QueueView,
        object_size: u64,
        now: Instant,
        rtt_hint: Duration,
        bandwidth: u64,
    ) -> bool {
        let mss = self.config.deadline->0.default_mss;
        self.scheduler_enabled() && is_usable(self.capacity(rtt_hint, bandwidth)) ==> {
            &&& mss > 0
            &&& object_size + mss - 1 <= u64::MAX
            &&& self.arrival(
                queue.decayed(now, self.packet_rate(rtt_hint, bandwidth)),
                object_size,
                now,
                rtt_hint,
                bandwidth,
            ) matches Some(at) && at <= MAX_NANOS
        }
    }

    /// The object would arrive by its deadline.
    pub open spec fn arrives_in_time(
        self,
        queue: QueueView,
        object_size: u64,
        deadline: Instant,
        now: Instant,
        rtt_hint: Duration,
        bandwidth: u64,
    ) -> bool {
        self.arrival(queue, object_size, now, rtt_hint, bandwidth) matches Some(at) && at
            <= deadline.at()
    }

    /// The object is admitted: the scheduler is off, or there is capacity to send it in time.
    pub open spec fn admits(
        self,
        queue: QueueView,
        object_size: u64,
        deadline: Instant,
        now: Instant,
        rtt_hint: Duration,
        bandwidth: u64,
    ) -> bool {
        !self.scheduler_enabled() || (is_usable(self.capacity(rtt_hint, bandwidth))
            && self.arrives_in_time(
            queue.decayed(now, self.packet_rate(rtt_hint, bandwidth)),
            object_size,
            deadline,
            now,
            rtt_hint,
            bandwidth,
        ))
    }

    /// The queue after it was decided on an object.
    pub open spec fn queue_after(
        self,
        queue: QueueView,
        object_size: u64,
        deadline: Instant,
        now: Instant,
        rtt_hint: Duration,
        bandwidth: u64,
    ) -> QueueView {
        let drained = queue.decayed(now, self.packet_rate(rtt_hint, bandwidth));
        if !self.scheduler_enabled() || !is_usable(self.capacity(rtt_hint, bandwidth)) {
            queue
        } else if self.admits(queue, object_size, deadline, now, rtt_hint, bandwidth) {
            drained.filled(now, packets_of(object_size, self.config.deadline->0.default_mss))
        } else {
            drained
        }
    }

    fn get_admission_rtt(&self, rtt_hint: Duration) -> (r: Duration)
        ensures
            r.total() == self.admission_rtt(rtt_hint),
    {
        let rtt = if self.min_rtt.as_nanos() != 0 {
            self.min_rtt
        } else {
            rtt_hint
        };
        let floor = Duration::from_millis(RTT_FLOOR_MILLIS);
        if rtt.lt(&floor) {
            floor
        } else {
            rtt
        }
    }

    fn get_capacity(&self, rtt_hint: Duration, bandwidth: u64) -> (r: Float64)
        ensures
            r.value() == self.capacity(rtt_hint, bandwidth),
    {
        let eight = Float64::from_u64(8);
        let by_window = Float64::from_u64(self.cwnd).mul(&eight).div(
            &self.get_admission_rtt(rtt_hint).seconds(),
        );
        let by_bandwidth = Float64::from_u64(bandwidth).mul(&eight);
        let by_pacing = Float64::from_u64(self.pacing_rate).mul(&eight);
        narrow(&narrow(&narrow(&Float64::infinity(false), &by_window), &by_bandwidth), &by_pacing)
    }

    fn get_packet_rate(&self, config: &DeadlineConfig, capacity: &Float64) -> (r: Float64)
        ensures
            r.value() == capacity.value().over(Value::of_integer(8)).over(
                Value::of_integer(config.default_mss as nat),
            ).max(Value::of_integer(1)).times(config.beta.value()),
    {
        let mss = Float64::from_u64(config.default_mss as u64);
        capacity.div(&Float64::from_u64(8)).div(&mss).max(&Float64::from_u64(1)).mul(&config.beta)
    }

    /// Whether [`BbrState::can_admit_object`] can count packets and reckon the arrival.
    pub fn admission_in_range(
        &self,
        queue: &DeadlineState,
        object_size: u64,
        now: Instant,
        rtt_hint: Duration,
        bandwidth: u64,
    ) -> (r: bool)
        ensures
            r == self.admission_fits(queue@, object_size, now, rtt_hint, bandwidth),
    {
        let config = match self.config.deadline {
            Some(config) => config,
            None => return true,
        };
        if !config.enabled {
            return true;
        }
        let capacity = self.get_capacity(rtt_hint, bandwidth);
        if !capacity.is_finite() || capacity.le(&Float64::from_u64(0)) {
            return true;
        }
        if config.default_mss == 0 || object_size > u64::MAX - (config.default_mss as u64 - 1) {
            return false;
        }
        let pps = self.get_packet_rate(&config, &capacity);
        let packets: u64 = count_packets(object_size, config.default_mss);
        let mut drained = *queue;
        drained.deadline_decay_queue(now, pps);
        let load = drained.q_pkts.add(&Float64::from_u64(packets));
        match Duration::from_seconds(load.div(&pps)) {
            None => false,
            Some(sending) => {
                let start: u128 = now.position() + self.get_admission_rtt(
                    rtt_hint,
                ).half().as_nanos();
                let end: u128 = start + sending.as_nanos() + Duration::from_millis(
                    config.guard_ms,
                ).as_nanos();
                end <= MAX_NANOS
            },
        }
    }

    /// Whether an object can be sent so that it arrives by its deadline. If so, its packets join
    /// the queue. With the scheduler switched off every object is admitted, and without any
    /// usable capacity none is.
    pub fn can_admit_object(
        &self,
        queue: &mut DeadlineState,
        object_size: u64,
        deadline: Instant,
        now: Instant,
        rtt_hint: Duration,
        bandwidth: u64,
    ) -> (r: bool)
        requires
            self.admission_fits(old(queue)@, object_size, now, rtt_hint, bandwidth),
        ensures
            !self.scheduler_enabled() ==> r && *final(queue) == *old(queue),
            self.scheduler_enabled() && !is_usable(self.capacity(rtt_hint, bandwidth)) ==> !r
                && *final(queue) == *old(queue),
            self.scheduler_enabled() && is_usable(self.capacity(rtt_hint, bandwidth)) ==> {
                let drained = old(queue)@.decayed(now, self.packet_rate(rtt_hint, bandwidth));
                &&& r == self.arrives_in_time(
                    drained,
                    object_size,
                    deadline,
                    now,
                    rtt_hint,
                    bandwidth,
                )
                &&& final(queue)@ == if r {
                    drained.filled(
                        now,
                        packets_of(object_size, self.config.deadline->0.default_mss),
                    )
                } else {
                    drained
                }
            },
            r == self.admits(old(queue)@, object_size, deadline, now, rtt_hint, bandwidth),
            final(queue)@ == self.queue_after(
                old(queue)@,
                object_size,
                deadline,
                now,
                rtt_hint,
                bandwidth,
            ),
    {
        let config = match self.config.deadline {
            Some(config) => config,
            None => return true,
        };
        if !config.enabled {
            return true;
        }
        let rtt = self.get_admission_rtt(rtt_hint);
        let capacity = self.get_capacity(rtt_hint, bandwidth);
        if !capacity.is_finite() || capacity.le(&Float64::from_u64(0)) {
            return false;
        }
        let pps = self.get_packet_rate(&config, &capacity);
        let packets: u64 = count_packets(object_size, config.default_mss);
        queue.deadline_decay_queue(now, pps);
        let load = queue.q_pkts.add(&Float64::from_u64(packets));
        let arrival: u128 = match Duration::from_seconds(load.div(&pps)) {
            Some(sending) => now.position() + rtt.half().as_nanos() + sending.as_nanos()
                + Duration::from_millis(config.guard_ms).as_nanos(),
            None => return false,
        };
        let in_time = arrival <= deadline.position();
        if in_time {
            queue.q_pkts = load;
            queue.last = Some(now);
        }
        in_time
    }

    /// The smaller of the estimated bandwidth and of what the window allows per round trip.
    pub open spec fn slack_capacity(self, rtt: Duration, bandwidth: u64) -> Value {
        Value::of_integer(bandwidth as nat).min(
            Value::of_integer((self.cwnd * 8) as nat).over(rtt.seconds_value()),
        )
    }

    /// The packets per second that the slack is reckoned with.
    pub open spec fn slack_rate(self, rtt: Duration, bandwidth: u64) -> Value {
        let config = self.config.deadline->0;
        self.slack_capacity(rtt, bandwidth).over(Value::of_integer(8)).over(
            Value::of_integer(config.default_mss as nat),
        ).times(config.beta.value()).max(Value::of_integer(1))
    }

    /// The time left before the deadline once the object has been sent, in seconds.
    pub open spec fn slack(
        self,
        object_size: u64,
        deadline: Instant,
        now: Instant,
        rtt: Duration,
        bandwidth: u64,
    ) -> Value {
        let config = self.config.deadline->0;
        let left = deadline.span_since(now.shifted(rtt.total() / 2));
        crate::time::seconds_of(left).minus(
            Value::of_integer(packets_of(object_size, config.default_mss)).over(
                self.slack_rate(rtt, bandwidth),
            ),
        ).minus(crate::time::seconds_of(config.guard_ms as nat * 1_000_000))
    }

    /// The priority of an object.
    pub open spec fn object_priority(
        self,
        object_size: u64,
        deadline: Instant,
        now: Instant,
        rtt: Duration,
        bandwidth: u64,
    ) -> i32 {
        if self.scheduler_enabled() {
            crate::priority::priority_of(
                self.slack(object_size, deadline, now, rtt, bandwidth).times(
                    Value::of_integer(1000),
                ),
            )
        } else {
            0
        }
    }

    pub open spec fn slack_fits(self, object_size: u64, now: Instant, rtt: Duration) -> bool {
        let mss = self.config.deadline->0.default_mss;
        self.scheduler_enabled() ==> {
            &&& mss > 0
            &&& object_size + mss - 1 <= u64::MAX
            &&& self.cwnd * 8 <= u64::MAX
            &&& now.at() + rtt.total() / 2 <= MAX_NANOS
        }
    }

    pub fn slack_in_range(&self, object_size: u64, now: Instant, rtt: Duration) -> (r: bool)
        ensures
            r == self.slack_fits(object_size, now, rtt),
    {
        match self.config.deadline {
            None => true,
            Some(config) => !config.enabled || (config.default_mss > 0 && object_size <= u64::MAX - (
            config.default_mss as u64 - 1) && self.cwnd <= u64::MAX / 8 && now.position()
                + rtt.half().as_nanos() <= MAX_NANOS),
        }
    }

    /// The priority of an object: the less slack it has, the more urgent. Without the scheduler
    /// every object has the same.
    pub fn suggest_priority(
        &self,
        object_size: u64,
        deadline: Instant,
        now: Instant,
        rtt: Duration,
        bandwidth: u64,
    ) -> (r: i32)
        requires
            self.slack_fits(object_size, now, rtt),
        ensures
            r == if self.scheduler_enabled() {
                crate::priority::priority_of(
                    self.slack(object_size, deadline, now, rtt, bandwidth).times(
                        Value::of_integer(1000),
                    ),
                )
            } else {
                0
            },
            r == self.object_priority(object_size, deadline, now, rtt, bandwidth),
    {
        let config = match self.config.deadline {
            Some(config) => config,
            None => return 0,
        };
        if !config.enabled {
            return 0;
        }
        let by_window = Float64::from_u64(self.cwnd * 8).div(&rtt.seconds());
        let effective = Float64::from_u64(bandwidth).min(&by_window);
        let mss = Float64::from_u64(config.default_mss as u64);
        let pps = effective.div(&Float64::from_u64(8)).div(&mss).mul(&config.beta).max(
            &Float64::from_u64(1),
        );
        let packets: u64 = count_packets(object_size, config.default_mss);
        let guard = Duration::from_millis(config.guard_ms);
        let left = deadline.saturating_duration_since(now.later(rtt.half()));
        let slack = left.seconds().sub(&Float64::from_u64(packets).div(&pps)).sub(
            &guard.seconds(),
        );
        slack_to_priority(slack.mul(&Float64::from_u64(1000)))
    }
}

} // verus!
