//! What single packets and losses change.

use crate::bbr::state::{BbrState, LossState};
use crate::time::{Duration, Instant};
use vstd::prelude::*;

verus! {

/// The minimum round-trip time falls with every faster packet. It rises only where it is out of
/// date, and then to what was measured last. Acknowledged bytes add up, and nothing else changes.
pub proof fn law_fastest_packet_counts(
    s: BbrState,
    now: Instant,
    bytes: u64,
    app_limited: bool,
    rtt: Duration,
)
    requires
        s.acked_bytes + bytes <= u64::MAX,
    ensures
        ({
            let after = s.after_ack(now, bytes, app_limited, rtt);
            let stale = crate::bbr::mode_laws::is_out_of_date(s, now, app_limited);
            &&& after == (BbrState {
                acked_bytes: after.acked_bytes,
                min_rtt: after.min_rtt,
                ..s
            })
            &&& after.acked_bytes == s.acked_bytes + bytes
            &&& rtt.total() < s.min_rtt.total() || stale ==> after.min_rtt == rtt
            &&& rtt.total() >= s.min_rtt.total() && !stale ==> after.min_rtt == s.min_rtt
        }),
{
    crate::bbr::mode_laws::law_min_rtt_expires(s, now, app_limited);
}

/// Losses add up until a batch of acknowledgements takes them into account.
pub proof fn law_losses_add_up(s: BbrState, a: u64, b: u64)
    requires
        s.loss_state.lost_bytes + a + b <= u64::MAX,
    ensures
        s.after_loss(a).loss_state.lost_bytes == s.loss_state.lost_bytes + a,
        s.after_loss(a).after_loss(b) == s.after_loss((a + b) as u64),
        s.after_loss(a) == (BbrState {
            loss_state: LossState { lost_bytes: (s.loss_state.lost_bytes + a) as u64 },
            ..s
        }),
{
}

/// Sending moves the number of the last packet alone.
pub proof fn law_sending_counts_packets(s: BbrState, number: u64)
    ensures
        s.after_sent(number).max_sent_packet_number == number,
        s.after_sent(number) == (BbrState { max_sent_packet_number: number, ..s }),
{
}

/// With another packet size the least window is four of the new packets. The congestion window
/// and the initial one rise to it where they are smaller, and the congestion window never falls.
pub proof fn law_windows_hold_four_new_packets(s: BbrState, mtu: u16)
    ensures
        ({
            let after = s.with_mtu(mtu);
            &&& after == (BbrState {
                current_mtu: mtu as u64,
                min_cwnd: after.min_cwnd,
                init_cwnd: after.init_cwnd,
                cwnd: after.cwnd,
                ..s
            })
            &&& after.min_cwnd == 4 * mtu
            &&& after.cwnd >= s.cwnd
            &&& after.cwnd >= 4 * mtu
            &&& after.cwnd == s.cwnd || after.cwnd == 4 * mtu
            &&& after.init_cwnd >= s.config.initial_window
            &&& after.init_cwnd >= 4 * mtu
            &&& after.init_cwnd == s.config.initial_window || after.init_cwnd == 4 * mtu
        }),
{
}

} // verus!
