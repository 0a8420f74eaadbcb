//! Data that was written to a stream and that the peer has not acknowledged.

use crate::chunk::{bytes_len, split_front};
use bytes::Bytes;
use std::collections::VecDeque;
use vstd::prelude::*;

verus! {

/// One of the half-open ranges holds `i`.
pub open spec fn in_ranges(ranges: Seq<(u64, u64)>, i: int) -> bool {
    exists|j: int| 0 <= j < ranges.len() && (#[trigger] ranges[j]).0 <= i < ranges[j].1
}

/// The ranges are not empty, stand in order and do not touch.
pub open spec fn in_order(ranges: Seq<(u64, u64)>) -> bool {
    &&& forall|j: int| 0 <= j < ranges.len() ==> (#[trigger] ranges[j]).0 < ranges[j].1
    &&& forall|j: int, k: int|
        0 <= j < k < ranges.len() ==> (#[trigger] ranges[j]).1 < (#[trigger] ranges[k]).0
}

/// The bytes of the buffers, one after the other.
pub open spec fn joined(buffers: Seq<Bytes>) -> Seq<u8>
    decreases buffers.len(),
{
    if buffers.len() == 0 {
        Seq::empty()
    } else {
        crate::chunk::content(buffers[0]) + joined(buffers.skip(1))
    }
}

proof fn lemma_joined_push(buffers: Seq<Bytes>, last: Bytes)
    ensures
        joined(buffers.push(last)) == joined(buffers) + crate::chunk::content(last),
    decreases buffers.len(),
{
    if buffers.len() == 0 {
        assert(buffers.push(last).skip(1) =~= Seq::<Bytes>::empty());
        assert(joined(Seq::<Bytes>::empty()) =~= Seq::<u8>::empty());
        assert(joined(buffers.push(last)) =~= joined(buffers) + crate::chunk::content(last));
    } else {
        assert(buffers.push(last).skip(1) =~= buffers.skip(1).push(last));
        lemma_joined_push(buffers.skip(1), last);
        assert(joined(buffers.push(last)) =~= joined(buffers) + crate::chunk::content(last));
    }
}

proof fn lemma_in_ranges_push(ranges: Seq<(u64, u64)>, last: (u64, u64))
    ensures
        forall|i: int|
            #![trigger in_ranges(ranges.push(last), i)]
            #![trigger in_ranges(ranges, i)]
            in_ranges(ranges.push(last), i) <==> in_ranges(ranges, i) || last.0 <= i < last.1,
{
    let all = ranges.push(last);
    assert forall|i: int| in_ranges(ranges, i) || last.0 <= i < last.1 implies in_ranges(all, i) by {
        if last.0 <= i < last.1 {
            assert(all[ranges.len() as int] == last);
        } else {
            let j = choose|j: int|
                0 <= j < ranges.len() && (#[trigger] ranges[j]).0 <= i < ranges[j].1;
            assert(all[j] == ranges[j]);
        }
    }
    assert forall|i: int| in_ranges(all, i) implies in_ranges(ranges, i) || last.0 <= i < last.1 by {
        let j = choose|j: int| 0 <= j < all.len() && (#[trigger] all[j]).0 <= i < all[j].1;
        if j < ranges.len() {
            assert(all[j] == ranges[j]);
        }
    }
}

/// Adds a range, and merges it with those that it overlaps or touches.
fn insert_range(ranges: &Vec<(u64, u64)>, start: u64, end: u64) -> (r: Vec<(u64, u64)>)
    requires
        in_order(ranges@),
        start < end,
    ensures
        in_order(r@),
        forall|i: int|
            #![trigger in_ranges(r@, i)]
            #![trigger in_ranges(ranges@, i)]
            in_ranges(r@, i) <==> in_ranges(ranges@, i) || start <= i < end,
{
    let mut out: Vec<(u64, u64)> = Vec::new();
    let mut low: u64 = start;
    let mut high: u64 = end;
    let mut placed: bool = false;
    let mut j: usize = 0;
    assert(ranges@.take(0) =~= Seq::<(u64, u64)>::empty());
    while j < ranges.len()
        invariant
            j <= ranges@.len(),
            in_order(ranges@),
            in_order(out@),
            low < high,
            forall|k: int, l: int|
                0 <= k < out@.len() && j <= l < ranges@.len() ==> (#[trigger] out@[k]).1 < (
                #[trigger] ranges@[l]).0,
            !placed ==> forall|k: int| 0 <= k < out@.len() ==> (#[trigger] out@[k]).1 < low,
            forall|i: int|
                #![trigger in_ranges(out@, i)]
                #![trigger in_ranges(ranges@.take(j as int), i)]
                in_ranges(out@, i) || (!placed && low <= i < high) <==> in_ranges(
                    ranges@.take(j as int),
                    i,
                ) || start <= i < end,
        decreases ranges@.len() - j,
    {
        let ghost before = out@;
        let ghost seen = ranges@.take(j as int);
        let range = ranges[j];
        proof {
            assert(ranges@.take(j + 1) =~= seen.push(range));
            lemma_in_ranges_push(seen, range);
            lemma_in_ranges_push(before, range);
            lemma_in_ranges_push(before, (low, high));
            lemma_in_ranges_push(before.push((low, high)), range);
        }
        if placed || range.1 < low {
            out.push(range);
        } else if high < range.0 {
            out.push((low, high));
            out.push(range);
            placed = true;
        } else {
            if range.0 < low {
                low = range.0;
            }
            if range.1 > high {
                high = range.1;
            }
        }
        j = j + 1;
    }
    assert(ranges@.take(j as int) =~= ranges@);
    if !placed {
        proof {
            lemma_in_ranges_push(out@, (low, high));
        }
        out.push((low, high));
    }
    out
}

/// A buffer of data that may have to be sent again.
#[derive(Debug)]
pub struct SendBuffer {
    /// The data from `base` on
    segments: VecDeque<Bytes>,
    /// The first offset that was not acknowledged
    base: u64,
    /// The first offset that was not written
    offset: u64,
    /// What was acknowledged past `base`
    acked: Vec<(u64, u64)>,
}

impl SendBuffer {
    pub closed spec fn valid(self) -> bool {
        &&& self.base <= self.offset
        &&& joined(self.segments@).len() == self.offset - self.base
        &&& in_order(self.acked@)
        &&& forall|j: int|
            0 <= j < self.acked@.len() ==> self.base < (#[trigger] self.acked@[j]).0
                && self.acked@[j].1 <= self.offset
    }

    /// How many bytes were written so far.
    pub closed spec fn written(self) -> nat {
        self.offset as nat
    }

    /// The byte at offset `i` was acknowledged.
    pub closed spec fn is_acked(self, i: int) -> bool {
        0 <= i < self.base || in_ranges(self.acked@, i)
    }

    /// The offset up to which everything was acknowledged and released.
    pub closed spec fn released(self) -> nat {
        self.base as nat
    }

    /// The data that is still held: what was written from the offset [`Self::released`] on.
    pub closed spec fn held(self) -> Seq<u8> {
        joined(self.segments@)
    }

    /// How many of the first `n` bytes were not acknowledged.
    pub open spec fn missing(self, n: nat) -> nat
        decreases n,
    {
        if n == 0 {
            0
        } else {
            self.missing((n - 1) as nat) + if self.is_acked(n - 1) {
                0nat
            } else {
                1nat
            }
        }
    }

    proof fn lemma_missing_run(self, low: nat, high: nat)
        requires
            low <= high,
        ensures
            (forall|i: int| low <= i < high ==> self.is_acked(i)) ==> self.missing(high)
                == self.missing(low),
            (forall|i: int| low <= i < high ==> !self.is_acked(i)) ==> self.missing(high)
                == self.missing(low) + (high - low),
        decreases high,
    {
        if low < high {
            self.lemma_missing_run(low, (high - 1) as nat);
        }
    }

    pub fn new() -> (r: SendBuffer)
        ensures
            r.valid(),
            r.written() == 0,
            r.released() == 0,
            r.held() == Seq::<u8>::empty(),
            forall|i: int| !r.is_acked(i),
    {
        SendBuffer { segments: VecDeque::new(), base: 0, offset: 0, acked: Vec::new() }
    }

    /// The first offset that was not written: the next write begins there.
    pub fn offset(&self) -> (r: u64)
        ensures
            r == self.written(),
    {
        self.offset
    }

    /// Appends data.
    pub fn write(&mut self, data: Bytes)
        requires
            old(self).valid(),
            old(self).written() + crate::chunk::content(data).len() <= u64::MAX,
        ensures
            final(self).valid(),
            final(self).written() == old(self).written() + crate::chunk::content(data).len(),
            final(self).released() == old(self).released(),
            final(self).held() == old(self).held() + crate::chunk::content(data),
            forall|i: int| final(self).is_acked(i) == old(self).is_acked(i),
    {
        proof {
            lemma_joined_push(self.segments@, data);
        }
        let len: u64 = bytes_len(&data) as u64;
        self.offset = self.offset + len;
        self.segments.push_back(data);
    }

    /// Drops the first `n` bytes of the data.
    fn release(segments: &mut VecDeque<Bytes>, n: u64)
        requires
            n <= joined(old(segments)@).len(),
        ensures
            joined(final(segments)@) == joined(old(segments)@).skip(n as int),
    {
        let ghost all = joined(segments@);
        let mut n: u64 = n;
        let ghost total = n;
        assert(all.skip(0) =~= all);
        while n > 0
            invariant
                n <= total <= all.len(),
                joined(segments@) == all.skip(total - n),
            decreases n, segments@.len(),
        {
            let ghost before = segments@;
            match segments.pop_front() {
                Some(mut front) => {
                    let ghost first = crate::chunk::content(front);
                    assert(segments@ =~= before.skip(1));
                    let len: usize = bytes_len(&front);
                    assert(joined(before) == first + joined(segments@));
                    if len as u64 <= n {
                        assert(joined(segments@) =~= joined(before).skip(len as int));
                        assert(all.skip(total - n).skip(len as int) =~= all.skip(total - (n - len)));
                        n = n - len as u64;
                    } else {
                        let _ = split_front(&mut front, n as usize);
                        let ghost rest = segments@;
                        segments.push_front(front);
                        assert(segments@.skip(1) =~= rest);
                        assert(joined(segments@) =~= joined(before).skip(n as int));
                        assert(all.skip(total - n).skip(n as int) =~= all.skip(total as int));
                        n = 0;
                    }
                },
                None => {
                    assert(joined(before).len() == 0);
                    return;
                },
            }
        }
    }

    /// Takes note that the peer has received what lies from `start` up to `end`. What was not
    /// written yet cannot be acknowledged.
    pub fn ack(&mut self, start: u64, end: u64)
        requires
            old(self).valid(),
        ensures
            final(self).valid(),
            final(self).written() == old(self).written(),
            forall|i: int|
                #![trigger final(self).is_acked(i)]
                #![trigger old(self).is_acked(i)]
                final(self).is_acked(i) <==> old(self).is_acked(i) || (start <= i < end && i
                    < old(self).written()),
            final(self).released() >= old(self).released(),
            final(self).held() == old(self).held().skip(
                final(self).released() - old(self).released(),
            ),
    {
        let ghost before = *self;
        let low: u64 = if start < self.base {
            self.base
        } else {
            start
        };
        let high: u64 = if end > self.offset {
            self.offset
        } else {
            end
        };
        assert(self.held().skip(0) =~= self.held());
        if low >= high {
            return;
        }
        let mut ranges = insert_range(&self.acked, low, high);
        let ghost all = ranges@;
        proof {
            assert forall|j: int| 0 <= j < all.len() implies self.base <= (#[trigger] all[j]).0
                && all[j].1 <= self.offset by {
                assert(in_ranges(all, all[j].0 as int));
                assert(in_ranges(all, all[j].1 - 1));
                self.lemma_range_bounds(all[j].0 as int);
                self.lemma_range_bounds(all[j].1 - 1);
            }
            assert(in_ranges(all, low as int));
            assert(all.len() > 0);
        }
        let first = ranges[0];
        if first.0 == self.base {
            let n: u64 = first.1 - self.base;
            SendBuffer::release(&mut self.segments, n);
            self.base = first.1;
            ranges.remove(0);
            proof {
                assert forall|i: int|
                    in_ranges(all, i) implies in_ranges(ranges@, i) || first.0 <= i < first.1 by {
                    let j = choose|j: int|
                        0 <= j < all.len() && (#[trigger] all[j]).0 <= i < all[j].1;
                    if j > 0 {
                        assert(ranges@[j - 1] == all[j]);
                    }
                }
                assert forall|i: int| in_ranges(ranges@, i) implies in_ranges(all, i) by {
                    let j = choose|j: int|
                        0 <= j < ranges@.len() && (#[trigger] ranges@[j]).0 <= i < ranges@[j].1;
                    assert(all[j + 1] == ranges@[j]);
                }
                assert(forall|i: int| first.0 <= i < first.1 ==> in_ranges(all, i)) by {
                    assert(all[0] == first);
                }
            }
        }
        self.acked = ranges;
        proof {
            assert forall|i: int|
                #![trigger self.is_acked(i)]
                #![trigger before.is_acked(i)]
                self.is_acked(i) <==> before.is_acked(i) || (start <= i < end && i
                    < before.written()) by {
                before.lemma_range_bounds(i);
                assert(in_ranges(all, i) <==> in_ranges(before.acked@, i) || low <= i < high);
            }
        }
    }

    proof fn lemma_range_bounds(self, i: int)
        requires
            self.valid(),
        ensures
            in_ranges(self.acked@, i) ==> self.base <= i < self.offset,
    {
    }

    /// Whether everything that was written has been acknowledged.
    pub fn is_fully_acked(&self) -> (r: bool)
        requires
            self.valid(),
        ensures
            r == (forall|i: int| 0 <= i < self.written() ==> self.is_acked(i)),
    {
        proof {
            if self.base < self.offset {
                assert(!self.is_acked(self.base as int));
            }
        }
        self.base == self.offset
    }

    /// How many bytes were written and not acknowledged.
    pub fn unacked(&self) -> (r: u64)
        requires
            self.valid(),
        ensures
            r == self.missing(self.written()),
    {
        let mut count: u64 = 0;
        let mut position: u64 = self.base;
        let mut j: usize = 0;
        proof {
            self.lemma_missing_run(0, self.base as nat);
        }
        while j < self.acked.len()
            invariant
                self.valid(),
                j <= self.acked@.len(),
                position <= self.offset,
                count <= position,
                count == self.missing(position as nat),
                j == 0 ==> position == self.base,
                j > 0 ==> position == self.acked@[j - 1].1,
            decreases self.acked@.len() - j,
        {
            let range = self.acked[j];
            proof {
                assert forall|i: int| position <= i < range.0 implies !self.is_acked(i) by {
                    self.lemma_gap(i, j as int);
                }
                self.lemma_missing_run(position as nat, range.0 as nat);
                assert(self.acked@[j as int] == range);
                self.lemma_missing_run(range.0 as nat, range.1 as nat);
            }
            count = count + (range.0 - position);
            position = range.1;
            j = j + 1;
        }
        proof {
            assert forall|i: int| position <= i < self.offset implies !self.is_acked(i) by {
                self.lemma_gap(i, j as int);
            }
            self.lemma_missing_run(position as nat, self.offset as nat);
        }
        count + (self.offset - position)
    }

    /// Data is released only once it was acknowledged, and as soon as everything before it was:
    /// the first byte that is held was not acknowledged.
    pub proof fn law_released_once_acked(self)
        requires
            self.valid(),
        ensures
            forall|i: int| 0 <= i < self.released() ==> self.is_acked(i),
            self.released() < self.written() ==> !self.is_acked(self.released() as int),
            self.released() + self.held().len() == self.written(),
    {
    }

    /// Nothing past what was written counts as acknowledged.
    pub proof fn law_only_written_data_is_acked(self, i: int)
        requires
            self.valid(),
            self.is_acked(i),
        ensures
            0 <= i < self.written(),
    {
        self.lemma_range_bounds(i);
    }

    /// No byte is missing exactly if each was acknowledged.
    pub proof fn law_none_missing_if_all_acked(self, n: nat)
        ensures
            self.missing(n) == 0 <==> (forall|i: int| 0 <= i < n ==> self.is_acked(i)),
            self.missing(n) <= n,
        decreases n,
    {
        if n > 0 {
            self.law_none_missing_if_all_acked((n - 1) as nat);
            assert(self.missing(n) == 0 ==> self.is_acked(n - 1));
        }
    }

    /// Each byte that was not acknowledged is missing, and no other.
    pub proof fn law_missing_counts_each_byte(self, n: nat)
        ensures
            self.missing(0) == 0,
            self.is_acked(n as int) ==> self.missing(n + 1) == self.missing(n),
            !self.is_acked(n as int) ==> self.missing(n + 1) == self.missing(n) + 1,
    {
    }

    proof fn lemma_gap(self, i: int, j: int)
        requires
            self.valid(),
            0 <= j <= self.acked@.len(),
            i >= self.base,
            j > 0 ==> i >= self.acked@[j - 1].1,
            j < self.acked@.len() ==> i < self.acked@[j].0,
        ensures
            !self.is_acked(i),
    {
        if in_ranges(self.acked@, i) {
            let k = choose|k: int|
                0 <= k < self.acked@.len() && (#[trigger] self.acked@[k]).0 <= i
                    < self.acked@[k].1;
            if k < j - 1 {
                assert(self.acked@[k].1 < self.acked@[j - 1].0);
            }
            if k > j {
                assert(self.acked@[j].1 < self.acked@[k].0);
            }
        }
    }
}


} // verus!
