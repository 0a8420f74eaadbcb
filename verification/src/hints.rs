//! What the application tells a stream about the objects that it sends.
//!
//! A stream carries an optional subgroup header and then objects, each a header followed by a
//! payload. The sizes are announced ahead of the data; bytes that are written and bytes that are
//! acknowledged are credited to the announced pieces in stream order.

use crate::time::Instant;
use std::collections::VecDeque;
use vstd::prelude::*;

verus! {

/// Progress of one announced piece.
#[derive(Clone, Copy, Debug)]
pub struct ChunkProgress {
    pub len: u64,
    pub written: u64,
    pub acked: u64,
}

pub open spec fn least(a: nat, b: nat) -> nat {
    if a <= b {
        a
    } else {
        b
    }
}

impl ChunkProgress {
    /// No more was written, and no more was acknowledged, than was announced.
    pub open spec fn valid(self) -> bool {
        self.written <= self.len && self.acked <= self.len
    }

    /// How many bytes are still to be written.
    pub open spec fn unwritten(self) -> nat {
        if self.written < self.len {
            (self.len - self.written) as nat
        } else {
            0
        }
    }

    /// How many bytes are still to be acknowledged.
    pub open spec fn unacked(self) -> nat {
        if self.acked < self.len {
            (self.len - self.acked) as nat
        } else {
            0
        }
    }

    /// How many bytes were written and not acknowledged.
    pub open spec fn in_transit(self) -> nat {
        if self.acked < self.written {
            (self.written - self.acked) as nat
        } else {
            0
        }
    }

    /// After `bytes` more were written: as many count as still fit.
    pub open spec fn after_write(self, bytes: nat) -> ChunkProgress {
        ChunkProgress {
            written: (self.written + least(self.unwritten(), bytes)) as u64,
            ..self
        }
    }

    /// What of `bytes` is left for the next piece.
    pub open spec fn write_rest(self, bytes: nat) -> nat {
        (bytes - least(self.unwritten(), bytes)) as nat
    }

    /// After `bytes` more were acknowledged: as many count as are still owed.
    pub open spec fn after_ack(self, bytes: nat) -> ChunkProgress {
        ChunkProgress { acked: (self.acked + least(self.unacked(), bytes)) as u64, ..self }
    }

    /// What of `bytes` is left for the next piece.
    pub open spec fn ack_rest(self, bytes: nat) -> nat {
        (bytes - least(self.unacked(), bytes)) as nat
    }

    pub fn new(len: u64) -> (r: ChunkProgress)
        ensures
            r == (ChunkProgress { len, written: 0, acked: 0 }),
    {
        ChunkProgress { len, written: 0, acked: 0 }
    }

    /// Credits written bytes and returns those that this piece has no room for.
    pub fn apply_write(&mut self, bytes: u64) -> (rest: u64)
        ensures
            *final(self) == old(self).after_write(bytes as nat),
            rest == old(self).write_rest(bytes as nat),
    {
        if bytes == 0 || self.written >= self.len {
            return bytes;
        }
        let need: u64 = self.len - self.written;
        let take: u64 = if need < bytes {
            need
        } else {
            bytes
        };
        self.written = self.written + take;
        bytes - take
    }

    /// Credits acknowledged bytes and returns those that this piece does not account for.
    pub fn apply_ack(&mut self, bytes: u64) -> (rest: u64)
        ensures
            *final(self) == old(self).after_ack(bytes as nat),
            rest == old(self).ack_rest(bytes as nat),
    {
        if bytes == 0 || self.acked >= self.len {
            return bytes;
        }
        let need: u64 = self.len - self.acked;
        let take: u64 = if need < bytes {
            need
        } else {
            bytes
        };
        self.acked = self.acked + take;
        bytes - take
    }

    /// Whether everything was written.
    pub fn is_ready(&self) -> (r: bool)
        ensures
            r == (self.unwritten() == 0),
    {
        self.written >= self.len
    }

    /// How many bytes are still to be acknowledged.
    pub fn outstanding(&self) -> (r: u64)
        ensures
            r == self.unacked(),
    {
        self.len.saturating_sub(self.acked)
    }

    /// How many bytes were written and not acknowledged.
    pub fn available(&self) -> (r: u64)
        ensures
            r == self.in_transit(),
    {
        self.written.saturating_sub(self.acked)
    }

    /// Whether everything was acknowledged.
    pub fn is_done(&self) -> (r: bool)
        ensures
            r == (self.unacked() == 0),
    {
        self.acked >= self.len
    }
}

/// An object: its header, its payload and what the scheduler knows of it.
#[derive(Clone, Copy, Debug)]
pub struct ObjectEntry {
    pub header: ChunkProgress,
    pub payload: ChunkProgress,
    pub deadline_ms: Option<u64>,
    pub admitted: bool,
    pub failed_attempts: u8,
    pub retry_at: Option<Instant>,
}

impl ObjectEntry {
    pub open spec fn valid(self) -> bool {
        self.header.valid() && self.payload.valid()
    }

    /// The announced size, header included, can be told in 64 bits.
    pub open spec fn size_fits(self) -> bool {
        self.header.len + self.payload.len <= u64::MAX
    }

    pub open spec fn unwritten(self) -> nat {
        self.header.unwritten() + self.payload.unwritten()
    }

    pub open spec fn unacked(self) -> nat {
        self.header.unacked() + self.payload.unacked()
    }

    /// After `bytes` more were written: the header comes first.
    pub open spec fn after_write(self, bytes: nat) -> ObjectEntry {
        ObjectEntry {
            header: self.header.after_write(bytes),
            payload: self.payload.after_write(self.header.write_rest(bytes)),
            ..self
        }
    }

    pub open spec fn write_rest(self, bytes: nat) -> nat {
        self.payload.write_rest(self.header.write_rest(bytes))
    }

    /// After `bytes` more were acknowledged: the header comes first.
    pub open spec fn after_ack(self, bytes: nat) -> ObjectEntry {
        ObjectEntry {
            header: self.header.after_ack(bytes),
            payload: self.payload.after_ack(self.header.ack_rest(bytes)),
            ..self
        }
    }

    pub open spec fn ack_rest(self, bytes: nat) -> nat {
        self.payload.ack_rest(self.header.ack_rest(bytes))
    }

    /// An object of which the header was announced.
    pub open spec fn announced(header_len: u64) -> ObjectEntry {
        ObjectEntry {
            header: ChunkProgress { len: header_len, written: 0, acked: 0 },
            payload: ChunkProgress { len: 0, written: 0, acked: 0 },
            deadline_ms: None,
            admitted: false,
            failed_attempts: 0,
            retry_at: None,
        }
    }

    /// The object once its payload was announced.
    pub open spec fn with_payload(self, payload_len: u64, deadline_ms: Option<u64>) -> ObjectEntry {
        ObjectEntry {
            header: self.header,
            payload: ChunkProgress { len: payload_len, written: 0, acked: 0 },
            deadline_ms,
            admitted: self.admitted,
            failed_attempts: 0,
            retry_at: None,
        }
    }

    pub fn with_header(header_len: u64) -> (r: ObjectEntry)
        ensures
            r == ObjectEntry::announced(header_len),
    {
        ObjectEntry {
            header: ChunkProgress::new(header_len),
            payload: ChunkProgress::new(0),
            deadline_ms: None,
            admitted: false,
            failed_attempts: 0,
            retry_at: None,
        }
    }

    pub fn set_payload(&mut self, payload_len: u64, deadline_ms: Option<u64>)
        ensures
            *final(self) == old(self).with_payload(payload_len, deadline_ms),
    {
        self.payload = ChunkProgress::new(payload_len);
        self.deadline_ms = deadline_ms;
        self.failed_attempts = 0;
        self.retry_at = None;
    }

    pub fn apply_write(&mut self, bytes: u64) -> (rest: u64)
        ensures
            *final(self) == old(self).after_write(bytes as nat),
            rest == old(self).write_rest(bytes as nat),
    {
        let rest: u64 = self.header.apply_write(bytes);
        self.payload.apply_write(rest)
    }

    pub fn apply_ack(&mut self, bytes: u64) -> (rest: u64)
        ensures
            *final(self) == old(self).after_ack(bytes as nat),
            rest == old(self).ack_rest(bytes as nat),
    {
        let rest: u64 = self.header.apply_ack(bytes);
        self.payload.apply_ack(rest)
    }

    /// Whether everything was written.
    pub fn is_ready(&self) -> (r: bool)
        ensures
            r == (self.unwritten() == 0),
    {
        if !self.header.is_ready() {
            return false;
        }
        if self.payload.len == 0 {
            return true;
        }
        self.payload.written >= self.payload.len
    }

    /// How many bytes are still to be acknowledged.
    pub fn outstanding(&self) -> (r: u64)
        requires
            self.unacked() <= u64::MAX,
        ensures
            r == self.unacked(),
    {
        self.header.outstanding() + self.payload.outstanding()
    }

    /// How many bytes were written and not acknowledged.
    pub fn available(&self) -> (r: u64)
        requires
            self.header.in_transit() + self.payload.in_transit() <= u64::MAX,
        ensures
            r == self.header.in_transit() + self.payload.in_transit(),
    {
        self.header.available() + self.payload.available()
    }

    /// The announced size, header included.
    pub fn total_len(&self) -> (r: u64)
        requires
            self.size_fits(),
        ensures
            r == self.header.len + self.payload.len,
    {
        self.header.len + self.payload.len
    }

    /// Whether everything was acknowledged.
    pub fn is_done(&self) -> (r: bool)
        ensures
            r == (self.unacked() == 0),
    {
        self.header.is_done() && self.payload.is_done()
    }
}

/// How far the subgroup header has come.
#[derive(Clone, Copy, Debug)]
pub struct ChunkStatus {
    pub ready: bool,
    pub outstanding: u64,
}

/// How far an object has come.
#[derive(Clone, Copy, Debug)]
pub struct ObjectStatus {
    pub ready: bool,
    pub outstanding: u64,
    pub available: u64,
    pub total_len: u64,
    pub deadline_ms: Option<u64>,
    pub admitted: bool,
}

/// The objects after `bytes` more were written: each takes what it has room for.
pub open spec fn objects_written(objects: Seq<ObjectEntry>, bytes: nat) -> Seq<ObjectEntry>
    decreases objects.len(),
{
    if objects.len() == 0 {
        objects
    } else {
        seq![objects[0].after_write(bytes)] + objects_written(
            objects.skip(1),
            objects[0].write_rest(bytes),
        )
    }
}

/// The objects after `bytes` more were acknowledged: those that are done leave, until the bytes
/// are used up.
pub open spec fn objects_acked(objects: Seq<ObjectEntry>, bytes: nat) -> Seq<ObjectEntry>
    decreases objects.len(),
{
    if bytes == 0 || objects.len() == 0 {
        objects
    } else if objects[0].after_ack(bytes).unacked() == 0 {
        objects_acked(objects.skip(1), objects[0].ack_rest(bytes))
    } else {
        objects.update(0, objects[0].after_ack(bytes))
    }
}

/// What was announced on a stream and is not acknowledged yet.
#[verifier::ext_equal]
pub struct HintsView {
    pub subgroup: Option<ChunkProgress>,
    pub objects: Seq<ObjectEntry>,
}

impl HintsView {
    pub open spec fn valid(self) -> bool {
        &&& self.subgroup matches Some(chunk) ==> chunk.valid()
        &&& forall|i: int| 0 <= i < self.objects.len() ==> (#[trigger] self.objects[i]).valid()
    }

    pub open spec fn nothing() -> HintsView {
        HintsView { subgroup: None, objects: Seq::empty() }
    }

    pub open spec fn with_subgroup_header(self, len: u64) -> HintsView {
        HintsView { subgroup: Some(ChunkProgress { len, written: 0, acked: 0 }), ..self }
    }

    pub open spec fn with_object_header(self, len: u64) -> HintsView {
        HintsView { objects: self.objects.push(ObjectEntry::announced(len)), ..self }
    }

    /// The payload belongs to the last object if that has none yet, else to a new object
    /// without a header.
    pub open spec fn with_object(self, len: u64, deadline_ms: Option<u64>) -> HintsView {
        let objects = self.objects;
        if objects.len() > 0 && objects.last().payload.len == 0 {
            HintsView {
                objects: objects.update(
                    objects.len() - 1,
                    objects.last().with_payload(len, deadline_ms),
                ),
                ..self
            }
        } else {
            HintsView {
                objects: objects.push(
                    ObjectEntry::announced(0).with_payload(len, deadline_ms),
                ),
                ..self
            }
        }
    }

    /// How far the subgroup header has come.
    pub open spec fn subgroup_report(self) -> Option<ChunkStatus> {
        match self.subgroup {
            Some(chunk) => Some(
                ChunkStatus {
                    ready: chunk.unwritten() == 0,
                    outstanding: chunk.unacked() as u64,
                },
            ),
            None => None,
        }
    }

    /// How far the first object has come.
    pub open spec fn object_report(self) -> Option<ObjectStatus> {
        if self.objects.len() == 0 {
            None
        } else {
            let entry = self.objects[0];
            Some(
                ObjectStatus {
                    ready: entry.unwritten() == 0,
                    outstanding: entry.unacked() as u64,
                    available: (entry.header.in_transit() + entry.payload.in_transit()) as u64,
                    total_len: (entry.header.len + entry.payload.len) as u64,
                    deadline_ms: entry.deadline_ms,
                    admitted: entry.admitted,
                },
            )
        }
    }

    /// The header of the first object was written, its payload was not.
    pub open spec fn is_partial(self) -> bool {
        self.objects.len() > 0 && self.objects[0].header.unwritten() == 0
            && self.objects[0].payload.unwritten() > 0
    }

    /// The first object is admitted.
    pub open spec fn with_first_admitted(self) -> HintsView {
        if self.objects.len() == 0 {
            self
        } else {
            HintsView {
                objects: self.objects.update(
                    0,
                    ObjectEntry { admitted: true, ..self.objects[0] },
                ),
                ..self
            }
        }
    }

    /// The first object is gone.
    pub open spec fn without_first(self) -> HintsView {
        if self.objects.len() == 0 {
            self
        } else {
            HintsView { objects: self.objects.skip(1), ..self }
        }
    }

    /// Written bytes belong to the subgroup header first.
    pub open spec fn after_written(self, bytes: nat) -> HintsView {
        match self.subgroup {
            Some(chunk) => HintsView {
                subgroup: Some(chunk.after_write(bytes)),
                objects: objects_written(self.objects, chunk.write_rest(bytes)),
            },
            None => HintsView { objects: objects_written(self.objects, bytes), ..self },
        }
    }

    /// Acknowledged bytes belong to the subgroup header first; it leaves once it is done.
    pub open spec fn after_acked(self, bytes: nat) -> HintsView {
        if bytes == 0 {
            self
        } else {
            match self.subgroup {
                Some(chunk) => HintsView {
                    subgroup: if chunk.after_ack(bytes).unacked() == 0 {
                        None
                    } else {
                        Some(chunk.after_ack(bytes))
                    },
                    objects: objects_acked(self.objects, chunk.ack_rest(bytes)),
                },
                None => HintsView { objects: objects_acked(self.objects, bytes), ..self },
            }
        }
    }
}

/// What the application announced on a stream.
#[derive(Debug)]
pub struct StreamHints {
    /// The subgroup header, if there is one
    pub subgroup: Option<ChunkProgress>,
    /// The objects, first come first
    pub objects: VecDeque<ObjectEntry>,
}

impl View for StreamHints {
    type V = HintsView;

    open spec fn view(&self) -> HintsView {
        HintsView { subgroup: self.subgroup, objects: self.objects@ }
    }
}

impl StreamHints {
    pub fn new() -> (r: StreamHints)
        ensures
            r@ == HintsView::nothing(),
    {
        StreamHints { subgroup: None, objects: VecDeque::new() }
    }

    pub fn append_subgroup_header_size(&mut self, subgroup_header_size: u64)
        ensures
            final(self)@ == old(self)@.with_subgroup_header(subgroup_header_size),
    {
        self.subgroup = Some(ChunkProgress::new(subgroup_header_size));
    }

    pub fn append_object_header_size(&mut self, object_header_size: u64)
        ensures
            final(self)@ == old(self)@.with_object_header(object_header_size),
    {
        self.objects.push_back(ObjectEntry::with_header(object_header_size));
    }

    pub fn append_object_size(&mut self, object_size: u64, deadline: Option<u64>)
        ensures
            final(self)@ == old(self)@.with_object(object_size, deadline),
    {
        let n: usize = self.objects.len();
        if n > 0 && self.objects[n - 1].payload.len == 0 {
            if let Some(mut entry) = self.objects.pop_back() {
                entry.set_payload(object_size, deadline);
                self.objects.push_back(entry);
                assert(self.objects@ =~= old(self)@.with_object(object_size, deadline).objects);
            }
            return;
        }
        let mut entry = ObjectEntry::with_header(0);
        entry.set_payload(object_size, deadline);
        self.objects.push_back(entry);
    }

    /// How far the subgroup header has come.
    pub fn subgroup_status(&self) -> (r: Option<ChunkStatus>)
        ensures
            r == match self@.subgroup {
                Some(chunk) => Some(
                    ChunkStatus {
                        ready: chunk.unwritten() == 0,
                        outstanding: chunk.unacked() as u64,
                    },
                ),
                None => None,
            },
            r == self@.subgroup_report(),
    {
        match &self.subgroup {
            Some(chunk) => Some(
                ChunkStatus { ready: chunk.is_ready(), outstanding: chunk.outstanding() },
            ),
            None => None,
        }
    }

    /// How far the first object has come.
    pub fn current_object_status(&self) -> (r: Option<ObjectStatus>)
        requires
            self@.objects.len() > 0 ==> self@.objects[0].valid() && self@.objects[0].size_fits(),
        ensures
            r == if self@.objects.len() == 0 {
                None
            } else {
                let entry = self@.objects[0];
                Some(
                    ObjectStatus {
                        ready: entry.unwritten() == 0,
                        outstanding: entry.unacked() as u64,
                        available: (entry.header.in_transit() + entry.payload.in_transit()) as u64,
                        total_len: (entry.header.len + entry.payload.len) as u64,
                        deadline_ms: entry.deadline_ms,
                        admitted: entry.admitted,
                    },
                )
            },
            r == self@.object_report(),
    {
        if self.objects.len() == 0 {
            return None;
        }
        let entry = &self.objects[0];
        Some(
            ObjectStatus {
                ready: entry.is_ready(),
                outstanding: entry.outstanding(),
                available: entry.available(),
                total_len: entry.total_len(),
                deadline_ms: entry.deadline_ms,
                admitted: entry.admitted,
            },
        )
    }

    /// Marks the current object as admitted.
    pub fn mark_current_object_admitted(&mut self)
        ensures
            final(self)@.subgroup == old(self)@.subgroup,
            final(self)@.objects == if old(self)@.objects.len() == 0 {
                old(self)@.objects
            } else {
                old(self)@.objects.update(
                    0,
                    ObjectEntry { admitted: true, ..old(self)@.objects[0] },
                )
            },
            final(self)@ == old(self)@.with_first_admitted(),
    {
        if let Some(mut entry) = self.objects.pop_front() {
            entry.admitted = true;
            self.objects.push_front(entry);
            assert(self.objects@ =~= old(self)@.objects.update(0, entry));
        }
    }

    /// Discards the current object and returns its announced size.
    pub fn discard_current_object(&mut self) -> (r: Option<u64>)
        requires
            old(self)@.objects.len() > 0 ==> old(self)@.objects[0].size_fits(),
        ensures
            final(self)@.subgroup == old(self)@.subgroup,
            old(self)@.objects.len() == 0 ==> r is None && final(self)@.objects
                == old(self)@.objects,
            old(self)@.objects.len() > 0 ==> r == Some(
                (old(self)@.objects[0].header.len + old(self)@.objects[0].payload.len) as u64,
            ) && final(self)@.objects == old(self)@.objects.skip(1),
            final(self)@ == old(self)@.without_first(),
    {
        match self.objects.pop_front() {
            Some(entry) => {
                assert(self.objects@ =~= old(self)@.objects.skip(1));
                Some(entry.total_len())
            },
            None => None,
        }
    }

    /// Whether the current object is partial: its header was written, its payload was not.
    pub fn has_partial_object(&self) -> (r: bool)
        ensures
            r == (self@.objects.len() > 0 && self@.objects[0].header.unwritten() == 0
                && self@.objects[0].payload.unwritten() > 0),
            r == self@.is_partial(),
    {
        if self.objects.len() == 0 {
            return false;
        }
        let entry = &self.objects[0];
        entry.header.is_ready() && !entry.is_ready()
    }

    /// Credits bytes that were written to the stream.
    pub fn on_bytes_written(&mut self, bytes: u64)
        ensures
            final(self)@ == old(self)@.after_written(bytes as nat),
    {
        proof {
            lemma_objects_written_nothing(self.objects@);
        }
        if bytes == 0 {
            return;
        }
        let mut rest: u64 = bytes;
        if let Some(mut sub) = self.subgroup {
            rest = sub.apply_write(rest);
            self.subgroup = Some(sub);
        }
        let ghost all = self.objects@;
        let ghost left = rest as nat;
        let mut done: VecDeque<ObjectEntry> = VecDeque::new();
        assert(done@ + objects_written(self.objects@, rest as nat) =~= objects_written(all, left));
        let ghost group = self.subgroup;
        while self.objects.len() > 0
            invariant
                self.subgroup == group,
                done@ + objects_written(self.objects@, rest as nat) == objects_written(all, left),
            decreases self.objects@.len(),
        {
            let ghost before = self.objects@;
            let ghost kept = done@;
            let ghost credit = rest as nat;
            if let Some(mut entry) = self.objects.pop_front() {
                assert(self.objects@ =~= before.skip(1));
                if rest > 0 {
                    rest = entry.apply_write(rest);
                }
                done.push_back(entry);
                assert(kept + objects_written(before, credit) =~= done@ + objects_written(
                    self.objects@,
                    rest as nat,
                ));
            }
        }
        assert(done@ =~= objects_written(all, left));
        self.objects = done;
    }

    /// Credits bytes that the peer has acknowledged.
    pub fn on_bytes_acked(&mut self, bytes: u64)
        ensures
            final(self)@ == old(self)@.after_acked(bytes as nat),
    {
        if bytes == 0 {
            return;
        }
        let mut rest: u64 = bytes;
        if let Some(mut sub) = self.subgroup {
            rest = sub.apply_ack(rest);
            self.subgroup = if sub.is_done() {
                None
            } else {
                Some(sub)
            };
        }
        let ghost all = self.objects@;
        let ghost left = rest as nat;
        let ghost group = self.subgroup;
        while rest > 0 && self.objects.len() > 0
            invariant
                self.subgroup == group,
                objects_acked(self.objects@, rest as nat) == objects_acked(all, left),
            decreases self.objects@.len(), rest,
        {
            let ghost before = self.objects@;
            if let Some(mut entry) = self.objects.pop_front() {
                assert(self.objects@ =~= before.skip(1));
                rest = entry.apply_ack(rest);
                if !entry.is_done() {
                    self.objects.push_front(entry);
                    assert(self.objects@ =~= before.update(0, entry));
                }
            }
        }
    }
}

pub proof fn lemma_objects_written_nothing(objects: Seq<ObjectEntry>)
    ensures
        objects_written(objects, 0) == objects,
    decreases objects.len(),
{
    if objects.len() > 0 {
        lemma_objects_written_nothing(objects.skip(1));
        assert(objects_written(objects, 0) =~= objects);
    }
}

} // verus!
