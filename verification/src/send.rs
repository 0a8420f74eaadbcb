//! The sending side of a stream.

use crate::chunk::bytes_len;
use crate::float64::Float64;
use crate::hints::{HintsView, StreamHints};
use crate::priority::slack_to_priority;
use crate::send_buffer::SendBuffer;
use crate::source::BytesSource;
use vstd::prelude::*;

verus! {

/// An integer as frames carry it: a limit on offsets, or an application's error code.
#[derive(Debug, Clone, Copy, PartialEq, Eq, PartialOrd, Ord, Hash, Structural)]
pub struct VarInt(pub u64);

/// What a stream frame covered.
#[derive(Debug, Clone, Copy)]
pub struct StreamMeta {
    /// The offset of the first byte
    pub start: u64,
    /// The offset past the last byte
    pub end: u64,
    /// Whether the frame ended the stream
    pub fin: bool,
}

/// Indicates how many bytes and chunks had been transferred in a write operation.
#[derive(Debug, PartialEq, Eq, Clone, Copy, Structural)]
pub struct Written {
    /// The amount of bytes which had been written
    pub bytes: usize,
    /// The amount of full chunks which had been written
    ///
    /// If a chunk was only partially written, it will not be counted by this field.
    pub chunks: usize,
}

impl Default for Written {
    fn default() -> (r: Written)
        ensures
            r == (Written { bytes: 0, chunks: 0 }),
    {
        Written { bytes: 0, chunks: 0 }
    }
}

/// Errors triggered while writing to a send stream.
#[derive(Debug, Clone, Copy, Eq, PartialEq, Ord, PartialOrd, Hash, Structural)]
pub enum WriteError {
    /// The peer is not able to accept additional data, or the connection is congested.
    Blocked,
    /// The peer is no longer accepting data on this stream, and it has been implicitly reset. The
    /// stream cannot be finished or further written to.
    ///
    /// Carries an application-defined error code.
    Stopped(VarInt),
    /// The stream has not been opened or has already been finished or reset.
    ClosedStream,
}

#[derive(Debug, Copy, Clone, Eq, PartialEq, Structural)]
pub enum SendState {
    /// Sending new data
    Ready,
    /// Stream was finished; now sending retransmits only
    DataSent { finish_acked: bool },
    /// Sent RESET
    ResetSent,
}

/// Reasons why attempting to finish a stream might fail.
#[derive(Debug, Clone, Copy, PartialEq, Eq, Structural)]
pub enum FinishError {
    /// The peer is no longer accepting data on this stream.
    ///
    /// Carries an application-defined error code.
    Stopped(VarInt),
    /// The stream has not been opened or was already finished or reset.
    ClosedStream,
}

/// A stream, as its sender sees it.
#[derive(Debug)]
pub struct Send {
    /// The first offset that the peer does not accept
    pub max_data: u64,
    pub state: SendState,
    /// Data that was written and not acknowledged
    pub pending: SendBuffer,
    pub priority: i32,
    /// An absolute deadline for the scheduler
    pub deadline: Option<u64>,
    /// The time that is left, in milliseconds
    pub slack_ms: Option<Float64>,
    /// Whether the priority changed since the stream was queued
    pub priority_dirty: bool,
    /// Whether a frame containing a FIN bit must be transmitted, even if we don't have any new data
    pub fin_pending: bool,
    /// Whether this stream is in the list of streams that the connection blocks
    pub connection_blocked: bool,
    /// The reason the peer wants us to stop, if `STOP_SENDING` was received
    pub stop_reason: Option<VarInt>,
    /// Pending because an object was dropped
    pub stream_pending: bool,
    /// Sizes of the objects, including the size of the subgroup header
    pub object_sizes: Option<StreamHints>,
}

/// What was announced, if anything.
pub open spec fn hints_view(hints: Option<StreamHints>) -> Option<HintsView> {
    match hints {
        Some(h) => Some(h@),
        None => None,
    }
}

/// What was announced; where nothing was, an empty announcement.
pub open spec fn hints_or_nothing(hints: Option<StreamHints>) -> HintsView {
    match hints {
        Some(h) => h@,
        None => HintsView::nothing(),
    }
}

impl Send {
    /// No more data was written than the peer accepts.
    pub open spec fn valid(self) -> bool {
        self.pending.valid() && self.pending.written() <= self.max_data
    }

    pub fn new(max_data: VarInt) -> (r: Box<Send>)
        ensures
            r.valid(),
            r.max_data == max_data.0,
            r.state == SendState::Ready,
            r.pending.written() == 0,
            r.pending.held() == Seq::<u8>::empty(),
            forall|i: int| !r.pending.is_acked(i),
            r.priority == 0,
            r.deadline is None,
            r.slack_ms is None,
            !r.priority_dirty,
            !r.fin_pending,
            !r.connection_blocked,
            r.stop_reason is None,
            !r.stream_pending,
            r.object_sizes is None,
    {
        Box::new(
            Send {
                max_data: max_data.0,
                state: SendState::Ready,
                pending: SendBuffer::new(),
                priority: 0,
                deadline: None,
                slack_ms: None,
                priority_dirty: false,
                fin_pending: false,
                connection_blocked: false,
                stop_reason: None,
                object_sizes: None,
                stream_pending: false,
            },
        )
    }

    /// What comes of an attempt to finish the stream.
    pub open spec fn finish_outcome(self) -> Result<(), FinishError> {
        match self.stop_reason {
            Some(code) => Err(FinishError::Stopped(code)),
            None => if self.state == SendState::Ready {
                Ok(())
            } else {
                Err(FinishError::ClosedStream)
            },
        }
    }

    /// The stream after an attempt to finish it.
    pub open spec fn finished(self) -> Send {
        if self.finish_outcome() is Ok {
            Send {
                state: SendState::DataSent { finish_acked: false },
                fin_pending: true,
                ..self
            }
        } else {
            self
        }
    }

    /// The stream after it was reset.
    pub open spec fn after_reset(self) -> Send {
        Send { state: SendState::ResetSent, object_sizes: None, ..self }
    }

    /// The stream after the peer asked to stop.
    pub open spec fn stopped(self, error_code: VarInt) -> Send {
        if self.stop_reason is None {
            Send { stop_reason: Some(error_code), ..self }
        } else {
            self
        }
    }

    /// The stream after the peer accepts data up to `offset`.
    pub open spec fn with_max_data(self, offset: u64) -> Send {
        if offset > self.max_data && self.state == SendState::Ready {
            Send { max_data: offset, ..self }
        } else {
            self
        }
    }

    /// Accepting data up to `offset` lets a stream go on that could not.
    pub open spec fn unblocked_by(self, offset: u64) -> bool {
        offset > self.max_data && self.state == SendState::Ready && self.pending.written()
            == self.max_data
    }

    /// The stream with so many milliseconds left.
    pub open spec fn with_slack(self, slack_ms: Float64) -> Send {
        let band = crate::priority::priority_of(slack_ms.value());
        Send {
            slack_ms: Some(slack_ms),
            priority: band,
            priority_dirty: self.priority_dirty || self.priority != band,
            ..self
        }
    }

    /// Why nothing can be written, if so.
    pub open spec fn write_error(self) -> Option<WriteError> {
        if self.state != SendState::Ready {
            Some(WriteError::ClosedStream)
        } else if self.stop_reason is Some {
            Some(WriteError::Stopped(self.stop_reason->0))
        } else if self.pending.written() >= self.max_data {
            Some(WriteError::Blocked)
        } else {
            None
        }
    }

    /// The state after a frame was acknowledged, which may have ended the stream.
    pub open spec fn state_after_ack(self, fin: bool) -> SendState {
        match self.state {
            SendState::DataSent { finish_acked } => SendState::DataSent {
                finish_acked: finish_acked || fin,
            },
            _ => self.state,
        }
    }

    /// The stream was finished, and everything was acknowledged, its end included.
    pub open spec fn is_complete(self) -> bool {
        self.state == (SendState::DataSent { finish_acked: true }) && (forall|i: int|
            0 <= i < self.pending.written() ==> self.pending.is_acked(i))
    }

    /// Whether the stream has been reset
    pub fn is_reset(&self) -> (r: bool)
        ensures
            r == (self.state == SendState::ResetSent),
    {
        matches!(self.state, SendState::ResetSent)
    }

    pub fn is_writable(&self) -> (r: bool)
        ensures
            r == (self.state == SendState::Ready),
    {
        matches!(self.state, SendState::Ready)
    }

    /// Ends the stream: no more data follows.
    pub fn finish(&mut self) -> (r: Result<(), FinishError>)
        ensures
            old(self).valid() ==> final(self).valid(),
            r == match old(self).stop_reason {
                Some(code) => Err(FinishError::Stopped(code)),
                None => if old(self).state == SendState::Ready {
                    Ok(())
                } else {
                    Err(FinishError::ClosedStream)
                },
            },
            r is Ok ==> *final(self) == (Send {
                state: SendState::DataSent { finish_acked: false },
                fin_pending: true,
                ..*old(self)
            }),
            r is Err ==> *final(self) == *old(self),
            r == old(self).finish_outcome(),
            *final(self) == old(self).finished(),
    {
        if let Some(error_code) = self.stop_reason {
            Err(FinishError::Stopped(error_code))
        } else if self.state == SendState::Ready {
            self.state = SendState::DataSent { finish_acked: false };
            self.fin_pending = true;
            Ok(())
        } else {
            Err(FinishError::ClosedStream)
        }
    }

    /// Update stream state due to a reset sent by the local application
    pub fn reset(&mut self)
        ensures
            old(self).valid() ==> final(self).valid(),
            *final(self) == (Send {
                state: SendState::ResetSent,
                object_sizes: None,
                ..*old(self)
            }),
            *final(self) == old(self).after_reset(),
    {
        match self.state {
            SendState::DataSent { .. } | SendState::Ready => {
                self.state = SendState::ResetSent;
            },
            _ => {},
        }
        self.object_sizes = None;
    }

    /// Handle STOP_SENDING
    ///
    /// Returns true if the stream was stopped due to this frame, and false if it had been stopped
    /// before
    pub fn try_stop(&mut self, error_code: VarInt) -> (r: bool)
        ensures
            old(self).valid() ==> final(self).valid(),
            r == (old(self).stop_reason is None),
            *final(self) == (Send {
                stop_reason: if r {
                    Some(error_code)
                } else {
                    old(self).stop_reason
                },
                ..*old(self)
            }),
            *final(self) == old(self).stopped(error_code),
    {
        if self.stop_reason.is_none() {
            self.stop_reason = Some(error_code);
            true
        } else {
            false
        }
    }

    /// Handle increase to stream-level flow control limit
    ///
    /// Returns whether the stream was unblocked
    pub fn increase_max_data(&mut self, offset: u64) -> (r: bool)
        ensures
            old(self).valid() ==> final(self).valid(),
            r == (offset > old(self).max_data && old(self).state == SendState::Ready
                && old(self).pending.written() == old(self).max_data),
            *final(self) == (Send {
                max_data: if offset > old(self).max_data && old(self).state == SendState::Ready {
                    offset
                } else {
                    old(self).max_data
                },
                ..*old(self)
            }),
            r == old(self).unblocked_by(offset),
            *final(self) == old(self).with_max_data(offset),
    {
        if offset <= self.max_data || self.state != SendState::Ready {
            return false;
        }
        let was_blocked = self.pending.offset() == self.max_data;
        self.max_data = offset;
        was_blocked
    }

    pub fn offset(&self) -> (r: u64)
        ensures
            r == self.pending.written(),
    {
        self.pending.offset()
    }

    pub fn is_pending(&self) -> (r: bool)
        requires
            self.pending.valid(),
        ensures
            r == (self.pending.missing(self.pending.written()) > 0 || !self.fin_pending),
    {
        self.pending.unacked() > 0 || !self.fin_pending
    }

    /// Sets the deadline of the stream.
    pub fn set_deadline(&mut self, deadline: Option<u64>)
        ensures
            old(self).valid() ==> final(self).valid(),
            *final(self) == (Send { deadline, priority_dirty: true, ..*old(self) }),
    {
        self.deadline = deadline;
        self.priority_dirty = true;
    }

    /// Updates the slack and maps it to a discrete priority band.
    pub fn set_slack_ms(&mut self, slack_ms: Float64)
        ensures
            old(self).valid() ==> final(self).valid(),
            *final(self) == (Send {
                slack_ms: Some(slack_ms),
                priority: crate::priority::priority_of(slack_ms.value()),
                priority_dirty: old(self).priority_dirty || old(self).priority
                    != crate::priority::priority_of(slack_ms.value()),
                ..*old(self)
            }),
            *final(self) == old(self).with_slack(slack_ms),
    {
        self.slack_ms = Some(slack_ms);
        let new_prio: i32 = slack_to_priority(slack_ms);
        if new_prio != self.priority {
            self.priority = new_prio;
            self.priority_dirty = true;
        }
    }

    /// Announces the subgroup header; what was announced before is forgotten.
    pub fn append_subgroup_header_size(&mut self, subgroup_header_size: u64)
        ensures
            old(self).valid() ==> final(self).valid(),
            *final(self) == (Send { object_sizes: final(self).object_sizes, ..*old(self) }),
            hints_view(final(self).object_sizes) == Some(
                HintsView::nothing().with_subgroup_header(subgroup_header_size),
            ),
    {
        let mut hints = StreamHints::new();
        hints.append_subgroup_header_size(subgroup_header_size);
        self.object_sizes = Some(hints);
    }

    /// Announces the header of a new object.
    pub fn append_object_header_size(&mut self, object_header_size: u64)
        ensures
            old(self).valid() ==> final(self).valid(),
            *final(self) == (Send { object_sizes: final(self).object_sizes, ..*old(self) }),
            hints_view(final(self).object_sizes) == Some(
                hints_or_nothing(old(self).object_sizes).with_object_header(object_header_size),
            ),
    {
        if self.object_sizes.is_none() {
            self.object_sizes = Some(StreamHints::new());
        }
        if let Some(hints) = &mut self.object_sizes {
            hints.append_object_header_size(object_header_size);
        }
    }

    /// Announces the payload of an object.
    pub fn append_object_size(&mut self, object_size: u64, deadline: Option<u64>)
        ensures
            old(self).valid() ==> final(self).valid(),
            *final(self) == (Send { object_sizes: final(self).object_sizes, ..*old(self) }),
            hints_view(final(self).object_sizes) == Some(
                hints_or_nothing(old(self).object_sizes).with_object(object_size, deadline),
            ),
    {
        if self.object_sizes.is_none() {
            self.object_sizes = Some(StreamHints::new());
        }
        if let Some(hints) = &mut self.object_sizes {
            hints.append_object_size(object_size, deadline);
        }
    }

    /// How much of `limit` a write may use: what the peer still accepts, counted in the machine's
    /// word.
    pub open spec fn write_limit(self, limit: u64) -> usize {
        let budget = (self.max_data - self.pending.written()) as u64;
        (if limit < budget {
            limit
        } else {
            budget
        }) as usize
    }

    /// A write may use neither more than its limit nor more than the peer still accepts, and it
    /// may use the smaller of the two wherever a word of the machine can count that.
    pub proof fn law_write_limit_is_the_least(self, limit: u64)
        requires
            self.valid(),
        ensures
            self.write_limit(limit) <= limit,
            self.pending.written() + self.write_limit(limit) <= self.max_data,
            limit <= usize::MAX && self.pending.written() + limit <= self.max_data
                ==> self.write_limit(limit) == limit,
            self.max_data - self.pending.written() <= usize::MAX && self.pending.written() + limit
                >= self.max_data ==> self.pending.written() + self.write_limit(limit)
                == self.max_data,
    {
        let budget = (self.max_data - self.pending.written()) as u64;
        let least = if limit < budget {
            limit
        } else {
            budget
        };
        assert((least as usize) <= least) by (bit_vector);
    }

    /// Takes data from `source` and queues it for transmission, up to `limit` bytes and no
    /// further than the peer accepts.
    pub fn write<S: BytesSource>(&mut self, source: &mut S, limit: u64) -> (r: Result<
        Written,
        WriteError,
    >)
        requires
            old(self).valid(),
            old(source).valid(),
        ensures
            final(self).valid(),
            final(source).valid(),
            r matches Err(e) ==> *final(self) == *old(self) && *final(source) == *old(source)
                && e == if old(self).state != SendState::Ready {
                WriteError::ClosedStream
            } else if old(self).stop_reason is Some {
                WriteError::Stopped(old(self).stop_reason->0)
            } else {
                WriteError::Blocked
            },
            r is Ok <==> old(self).state == SendState::Ready && old(self).stop_reason is None
                && old(self).pending.written() < old(self).max_data,
            r is Ok <==> old(self).write_error() is None,
            r matches Err(e) ==> old(self).write_error() == Some(e),
            r matches Ok(written) ==> {
                let n = old(self).write_limit(limit);
                let data = crate::source::flat(old(source).chunks());
                &&& written.bytes == crate::hints::least(n as nat, data.len())
                &&& written.chunks == old(source).chunks().len() - final(source).chunks().len()
                &&& final(source).chunks() == crate::source::drained(
                    old(source).chunks(),
                    n as nat,
                )
                &&& final(source).follows(old(source))
                &&& final(source).lent() is Some <==> old(source).lent() is Some
                &&& old(source).lent() is Some ==> final(final(source).lent()->0)@ == final(
                    old(source).lent()->0)@
                &&& final(self).pending.written() == old(self).pending.written() + written.bytes
                &&& final(self).pending.held() == old(self).pending.held() + data.take(
                    written.bytes as int,
                )
                &&& final(self).pending.released() == old(self).pending.released()
                &&& forall|i: int|
                    final(self).pending.is_acked(i) == old(self).pending.is_acked(i)
                &&& hints_view(final(self).object_sizes) == match old(self).object_sizes {
                    Some(hints) => Some(hints@.after_written(written.bytes as nat)),
                    None => None,
                }
                &&& *final(self) == (Send {
                    pending: final(self).pending,
                    object_sizes: final(self).object_sizes,
                    ..*old(self)
                })
            },
    {
        if !self.is_writable() {
            return Err(WriteError::ClosedStream);
        }
        if let Some(error_code) = self.stop_reason {
            return Err(WriteError::Stopped(error_code));
        }
        let budget: u64 = self.max_data - self.pending.offset();
        if budget == 0 {
            return Err(WriteError::Blocked);
        }
        let least: u64 = if limit < budget {
            limit
        } else {
            budget
        };
        let mut room: usize = least as usize;
        let ghost n = room as nat;
        let ghost start = source.chunks();
        let ghost data = crate::source::flat(start);
        assert((least as usize) <= least) by (bit_vector);

        let mut result = Written::default();
        proof {
            assert(data.take(0) =~= Seq::<u8>::empty());
            assert(self.pending.held() + data.take(0) =~= self.pending.held());
            assert(data.skip(0) =~= data);
            crate::hints_laws::law_written_nothing(hints_or_nothing(self.object_sizes));
            source.lemma_follows_itself();
            source.lemma_countable();
        }
        loop
            invariant
                source.valid(),
                old(self).valid(),
                old(self).state == SendState::Ready,
                old(self).stop_reason is None,
                budget > 0,
                self.valid(),
                start == old(source).chunks(),
                data == crate::source::flat(start),
                start.len() <= usize::MAX,
                n <= budget,
                budget == old(self).max_data - old(self).pending.written(),
                n == old(self).write_limit(limit),
                result.bytes + room == n,
                result.bytes <= data.len(),
                result.chunks + source.chunks().len() == start.len(),
                source.follows(old(source)),
                source.lent() is Some <==> old(source).lent() is Some,
                old(source).lent() is Some ==> final(source.lent()->0)@ == final(
                    old(source).lent()->0)@,
                crate::source::drained(source.chunks(), room as nat) == crate::source::drained(
                    start,
                    n,
                ),
                crate::source::flat(source.chunks()) == data.skip(result.bytes as int),
                self.pending.written() == old(self).pending.written() + result.bytes,
                self.pending.held() == old(self).pending.held() + data.take(result.bytes as int),
                self.pending.released() == old(self).pending.released(),
                forall|i: int| self.pending.is_acked(i) == old(self).pending.is_acked(i),
                hints_view(self.object_sizes) == match old(self).object_sizes {
                    Some(hints) => Some(hints@.after_written(result.bytes as nat)),
                    None => None,
                },
                *self == (Send {
                    pending: self.pending,
                    object_sizes: self.object_sizes,
                    ..*old(self)
                }),
            decreases room,
        {
            let ghost before = source.chunks();
            let ghost earlier = *source;
            proof {
                crate::source::law_pop_takes_from_the_front(before, room as nat);
            }
            let (chunk, chunks_consumed) = source.pop_chunk(room);
            let ghost piece = crate::chunk::content(chunk);
            proof {
                source.lemma_follows_on(&earlier, old(source));
            }
            result.chunks = result.chunks + chunks_consumed;
            let len: usize = bytes_len(&chunk);
            let ghost done = result.bytes as nat;
            if len == 0 {
                return Ok(result);
            }
            proof {
                assert(data.skip(done as int) == piece + crate::source::flat(source.chunks()));
                let rest = crate::source::flat(source.chunks());
                assert(data.skip(done as int).take(len as int) =~= piece);
                assert(data.skip(done as int).skip(len as int) =~= rest);
                assert(data.skip(done as int).len() == len + rest.len());
                assert(data.take(done + len) =~= data.take(done as int) + piece);
                assert(rest =~= data.skip(done + len));
                crate::hints_laws::law_written_adds_up(
                    hints_or_nothing(old(self).object_sizes),
                    done,
                    len as nat,
                );
            }
            result.bytes = result.bytes + len;
            room = room - len;
            self.pending.write(chunk);
            if let Some(hints) = &mut self.object_sizes {
                hints.on_bytes_written(len as u64);
            }
        }
    }

    /// Returns whether the stream has been finished and all data has been acknowledged by the peer
    pub fn ack(&mut self, frame: StreamMeta) -> (r: bool)
        requires
            old(self).valid(),
        ensures
            final(self).valid(),
            *final(self) == (Send {
                state: match old(self).state {
                    SendState::DataSent { finish_acked } => SendState::DataSent {
                        finish_acked: finish_acked || frame.fin,
                    },
                    _ => old(self).state,
                },
                pending: final(self).pending,
                object_sizes: final(self).object_sizes,
                ..*old(self)
            }),
            final(self).pending.written() == old(self).pending.written(),
            final(self).pending.released() >= old(self).pending.released(),
            final(self).pending.held() == old(self).pending.held().skip(
                final(self).pending.released() - old(self).pending.released(),
            ),
            forall|i: int|
                final(self).pending.is_acked(i) <==> old(self).pending.is_acked(i) || (
                frame.start <= i < frame.end && i < old(self).pending.written()),
            hints_view(final(self).object_sizes) == match old(self).object_sizes {
                Some(hints) => Some(
                    hints@.after_acked(
                        if frame.end > frame.start {
                            (frame.end - frame.start) as nat
                        } else {
                            0
                        },
                    ),
                ),
                None => None,
            },
            r == (final(self).state == SendState::DataSent { finish_acked: true } && (forall|
                i: int,
            |
                0 <= i < final(self).pending.written() ==> final(self).pending.is_acked(i))),
            final(self).state == old(self).state_after_ack(frame.fin),
            r == final(self).is_complete(),
    {
        self.pending.ack(frame.start, frame.end);
        if let Some(hints) = &mut self.object_sizes {
            let acked: u64 = frame.end.saturating_sub(frame.start);
            hints.on_bytes_acked(acked);
        }
        match self.state {
            SendState::DataSent { finish_acked } => {
                self.state = SendState::DataSent { finish_acked: finish_acked || frame.fin };
                (finish_acked || frame.fin) && self.pending.is_fully_acked()
            },
            _ => false,
        }
    }
}

} // verus!
