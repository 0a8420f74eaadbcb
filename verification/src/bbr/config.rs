//! Configuration of the congestion controller.

use crate::float64::{Float64, Value};
use vstd::prelude::*;

verus! {

/// The packet size that every path carries.
pub const BASE_DATAGRAM_SIZE: u64 = 1200;

/// Do not allow the default initial congestion window to be greater than this many packets.
pub const MAX_INITIAL_CONGESTION_WINDOW: u64 = 200;

/// Configuration of the deadline scheduler.
#[derive(Debug, Clone, Copy)]
pub struct DeadlineConfig {
    pub enabled: bool,
    /// Conservative factor for the estimated packet rate
    pub beta: Float64,
    /// Guard time for jitter
    pub guard_ms: u64,
    /// Fallback packet size
    pub default_mss: u32,
}

/// What a deadline configuration says.
pub struct DeadlineView {
    pub enabled: bool,
    pub beta: Value,
    pub guard_ms: u64,
    pub default_mss: u32,
}

impl View for DeadlineConfig {
    type V = DeadlineView;

    open spec fn view(&self) -> DeadlineView {
        DeadlineView {
            enabled: self.enabled,
            beta: self.beta.value(),
            guard_ms: self.guard_ms,
            default_mss: self.default_mss,
        }
    }
}

impl DeadlineView {
    pub open spec fn usual() -> DeadlineView {
        DeadlineView {
            enabled: false,
            beta: Value::of_ratio(8, 10),
            guard_ms: 10,
            default_mss: 1200,
        }
    }
}

/// What was configured; where nothing was, the defaults.
pub open spec fn deadline_or_usual(deadline: Option<DeadlineConfig>) -> DeadlineView {
    match deadline {
        Some(d) => d@,
        None => DeadlineView::usual(),
    }
}

pub open spec fn deadline_view(deadline: Option<DeadlineConfig>) -> Option<DeadlineView> {
    match deadline {
        Some(d) => Some(d@),
        None => None,
    }
}

impl Default for DeadlineConfig {
    fn default() -> (r: DeadlineConfig)
        ensures
            r@ == DeadlineView::usual(),
    {
        DeadlineConfig {
            enabled: false,
            beta: Float64::ratio(8, 10),
            guard_ms: 10,
            default_mss: 1200,
        }
    }
}

fn deadline_or_default(deadline: Option<DeadlineConfig>) -> (r: DeadlineConfig)
    ensures
        deadline is Some ==> r == deadline->0,
        r@ == deadline_or_usual(deadline),
{
    match deadline {
        Some(d) => d,
        None => DeadlineConfig::default(),
    }
}

/// Configuration of the congestion controller.
#[derive(Debug, Clone, Copy)]
pub struct BbrConfig {
    pub initial_window: u64,
    pub min_pacing_bps: u64,
    pub deadline: Option<DeadlineConfig>,
    /// Optional fixed pacing in bits per second
    pub fixed_pacing_bps: Option<u64>,
}

impl BbrConfig {
    /// Default limit on the amount of outstanding data in bytes.
    ///
    /// Recommended value: `min(10 * max_datagram_size, max(2 * max_datagram_size, 14720))`
    pub fn initial_window(&mut self, value: u64) -> (r: &mut Self)
        ensures
            *r == (BbrConfig { initial_window: value, ..*old(self) }),
            *final(self) == *final(r),
    {
        self.initial_window = value;
        self
    }

    /// For testing purposes only. If set to a non-zero value, this will enforce a minimum pacing
    /// rate in bits per second, once there are estimates of bandwidth and round-trip time. It
    /// gives way to losses, to recovery and to what the window allows per round trip.
    pub fn min_pacing_bps(&mut self, v: u64) -> (r: &mut Self)
        ensures
            *r == (BbrConfig { min_pacing_bps: v, ..*old(self) }),
            *final(self) == *final(r),
    {
        self.min_pacing_bps = v;
        self
    }

    /// Paces at the given rate in bits per second, whatever the path seems to carry.
    pub fn fixed_pacing_bps(self, bps: u64) -> (r: Self)
        ensures
            r == (BbrConfig { fixed_pacing_bps: Some(bps), ..self }),
    {
        let mut config = self;
        config.fixed_pacing_bps = Some(bps);
        config
    }

    pub fn enable_deadline_scheduler(self, enabled: bool) -> (r: Self)
        ensures
            r == (BbrConfig { deadline: r.deadline, ..self }),
            deadline_view(r.deadline) == Some(
                DeadlineView { enabled, ..deadline_or_usual(self.deadline) },
            ),
    {
        let mut d = deadline_or_default(self.deadline);
        d.enabled = enabled;
        BbrConfig { deadline: Some(d), ..self }
    }

    pub fn guard_ms(self, ms: u64) -> (r: Self)
        ensures
            r == (BbrConfig { deadline: r.deadline, ..self }),
            deadline_view(r.deadline) == Some(
                DeadlineView { guard_ms: ms, ..deadline_or_usual(self.deadline) },
            ),
    {
        let mut d = deadline_or_default(self.deadline);
        d.guard_ms = ms;
        BbrConfig { deadline: Some(d), ..self }
    }

    pub fn beta(self, beta: Float64) -> (r: Self)
        ensures
            r == (BbrConfig { deadline: r.deadline, ..self }),
            deadline_view(r.deadline) == Some(
                DeadlineView { beta: beta.value(), ..deadline_or_usual(self.deadline) },
            ),
    {
        let mut d = deadline_or_default(self.deadline);
        d.beta = beta;
        BbrConfig { deadline: Some(d), ..self }
    }

    pub fn default_mss(self, mss: u32) -> (r: Self)
        ensures
            r == (BbrConfig { deadline: r.deadline, ..self }),
            deadline_view(r.deadline) == Some(
                DeadlineView { default_mss: mss, ..deadline_or_usual(self.deadline) },
            ),
    {
        let mut d = deadline_or_default(self.deadline);
        d.default_mss = mss;
        BbrConfig { deadline: Some(d), ..self }
    }
}

impl Default for BbrConfig {
    fn default() -> (r: BbrConfig)
        ensures
            r.initial_window == MAX_INITIAL_CONGESTION_WINDOW * BASE_DATAGRAM_SIZE,
            r.min_pacing_bps == 0,
            r.deadline is None,
            r.fixed_pacing_bps is None,
    {
        BbrConfig {
            initial_window: MAX_INITIAL_CONGESTION_WINDOW * BASE_DATAGRAM_SIZE,
            min_pacing_bps: 0,
            deadline: None,
            fixed_pacing_bps: None,
        }
    }
}

} // verus!
