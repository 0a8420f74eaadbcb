//! What holds of the sending side of a stream.

use crate::float64::Float64;
use crate::send::{FinishError, Send, SendState, VarInt, WriteError};
use vstd::prelude::*;

verus! {

/// A stream that is open can be finished once. The end is then to be sent, nothing more can be
/// written, and what was written stays. A stream that is closed, or that the peer has stopped,
/// cannot be finished, and stays as it is.
pub proof fn law_finish_once(s: Send)
    ensures
        ({
            let after = s.finished();
            let ends = s.state == SendState::Ready && s.stop_reason is None;
            &&& s.finish_outcome() is Ok <==> ends
            &&& ends ==> after.fin_pending
            &&& ends ==> after.state == SendState::DataSent { finish_acked: false }
            &&& ends ==> after.write_error() == Some(WriteError::ClosedStream)
            &&& ends ==> after.finish_outcome() == Err::<(), FinishError>(
                FinishError::ClosedStream,
            )
            &&& !ends ==> after == s
            &&& after.finished() == after
            &&& after == (Send { state: after.state, fin_pending: after.fin_pending, ..s })
        }),
{
}

/// A reset closes the stream for good: nothing can be written and it cannot be finished. It
/// forgets what was announced, and nothing else.
pub proof fn law_reset_closes(s: Send)
    ensures
        ({
            let after = s.after_reset();
            &&& after.state == SendState::ResetSent
            &&& after.object_sizes is None
            &&& after.write_error() == Some(WriteError::ClosedStream)
            &&& after.finish_outcome() is Err
            &&& after.after_reset() == after
            &&& after.finished() == after
            &&& after == (Send { state: after.state, object_sizes: None, ..s })
        }),
{
}

/// The first reason to stop is the one that counts: it is what writing to an open stream, and
/// finishing the stream, is answered with from then on.
pub proof fn law_first_reason_to_stop_counts(s: Send, first: VarInt, second: VarInt)
    requires
        s.stop_reason is None,
    ensures
        s.stopped(first).stop_reason == Some(first),
        s.stopped(first).stopped(second) == s.stopped(first),
        s.stopped(first) == (Send { stop_reason: Some(first), ..s }),
        s.stopped(first).finish_outcome() == Err::<(), FinishError>(FinishError::Stopped(first)),
        s.state == SendState::Ready ==> s.stopped(first).write_error() == Some(
            WriteError::Stopped(first),
        ),
        s.state != SendState::Ready ==> s.stopped(first).write_error() == Some(
            WriteError::ClosedStream,
        ),
{
}

/// The limit of an open stream never falls, whatever comes in and in whatever order; that of a
/// closed one does not change.
pub proof fn law_limit_never_falls(s: Send, a: u64, b: u64)
    ensures
        s.with_max_data(a).max_data >= s.max_data,
        s.state == SendState::Ready ==> s.with_max_data(a).max_data >= a,
        s.with_max_data(a).max_data == s.max_data || s.with_max_data(a).max_data == a,
        s.state != SendState::Ready ==> s.with_max_data(a) == s,
        s.with_max_data(a).with_max_data(b) == s.with_max_data(b).with_max_data(a),
        s.with_max_data(a) == (Send { max_data: s.with_max_data(a).max_data, ..s }),
{
}

/// A stream is unblocked exactly where it could not go on for want of room before, and can after.
pub proof fn law_unblocked_streams_can_go_on(s: Send, offset: u64)
    requires
        s.valid(),
        s.stop_reason is None,
    ensures
        s.unblocked_by(offset) <==> s.write_error() == Some(WriteError::Blocked)
            && s.with_max_data(offset).write_error() is None,
{
}

/// New data can be written if and only if the stream is open, was not stopped, and the peer
/// accepts more than was written. Where it cannot, a closed stream is the first reason, and a
/// stop the second.
pub proof fn law_when_data_can_be_written(s: Send)
    requires
        s.valid(),
    ensures
        s.write_error() is None <==> s.state == SendState::Ready && s.stop_reason is None
            && s.max_data - s.pending.written() > 0,
        s.write_error() == Some(WriteError::ClosedStream) <==> s.state != SendState::Ready,
        s.write_error() == Some(WriteError::Blocked) <==> s.state == SendState::Ready
            && s.stop_reason is None && s.max_data == s.pending.written(),
        s.state == SendState::Ready && s.stop_reason is Some ==> s.write_error() == Some(
            WriteError::Stopped(s.stop_reason->0),
        ),
{
}

/// The time that is left is remembered with its band; the stream is queued anew exactly where the
/// band has changed, unless that was due before.
pub proof fn law_slack_moves_the_band(s: Send, slack_ms: Float64)
    ensures
        ({
            let after = s.with_slack(slack_ms);
            &&& after == (Send {
                slack_ms: Some(slack_ms),
                priority: after.priority,
                priority_dirty: after.priority_dirty,
                ..s
            })
            &&& after.priority == crate::priority::priority_of(slack_ms.value())
            &&& after.priority_dirty <==> s.priority_dirty || after.priority != s.priority
            &&& after.with_slack(slack_ms) == after
        }),
{
}

/// Only a finished stream can have its end acknowledged; once it was, that stays. Acknowledgements
/// neither finish a stream nor reset it.
pub proof fn law_end_is_acked_once(s: Send, fin: bool)
    ensures
        ({
            let after = s.state_after_ack(fin);
            &&& s.state !is DataSent ==> after == s.state
            &&& s.state is DataSent ==> after is DataSent
            &&& s.state is DataSent ==> (after->finish_acked <==> s.state->finish_acked || fin)
            &&& (Send { state: after, ..s }).state_after_ack(false) == after
        }),
{
}

/// A stream is complete exactly if its end was acknowledged and no byte is missing.
pub proof fn law_complete_streams_miss_nothing(s: Send)
    ensures
        s.is_complete() <==> s.state is DataSent && s.state->finish_acked && s.pending.missing(
            s.pending.written(),
        ) == 0,
{
    s.pending.law_none_missing_if_all_acked(s.pending.written());
}

} // verus!
