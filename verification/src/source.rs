//! Where the data of a write comes from.

use crate::chunk::{bytes_from_vec, bytes_len, empty_bytes, split_front};
use bytes::Bytes;
use vstd::slice::{slice_subrange, slice_to_vec};
use vstd::prelude::*;

verus! {

/// How many chunks at the front hold nothing.
pub open spec fn leading_empty(chunks: Seq<Seq<u8>>) -> nat
    decreases chunks.len(),
{
    if chunks.len() == 0 || chunks[0].len() > 0 {
        0
    } else {
        1 + leading_empty(chunks.skip(1))
    }
}

/// The chunks without those at the front that hold nothing.
pub open spec fn without_leading_empty(chunks: Seq<Seq<u8>>) -> Seq<Seq<u8>> {
    chunks.skip(leading_empty(chunks) as int)
}

/// What one call hands out: the first chunk that holds anything, cut off at `limit`.
pub open spec fn popped(chunks: Seq<Seq<u8>>, limit: nat) -> Seq<u8> {
    let rest = without_leading_empty(chunks);
    if rest.len() == 0 {
        Seq::empty()
    } else if rest[0].len() <= limit {
        rest[0]
    } else {
        rest[0].take(limit as int)
    }
}

/// How many whole chunks one call uses up.
pub open spec fn used_up(chunks: Seq<Seq<u8>>, limit: nat) -> nat {
    let rest = without_leading_empty(chunks);
    if rest.len() > 0 && rest[0].len() <= limit {
        leading_empty(chunks) + 1
    } else {
        leading_empty(chunks)
    }
}

/// What one call leaves behind.
pub open spec fn left_over(chunks: Seq<Seq<u8>>, limit: nat) -> Seq<Seq<u8>> {
    let rest = without_leading_empty(chunks);
    if rest.len() == 0 {
        rest
    } else if rest[0].len() <= limit {
        rest.skip(1)
    } else {
        rest.update(0, rest[0].skip(limit as int))
    }
}

/// The data of the chunks, one after the other.
pub open spec fn flat(chunks: Seq<Seq<u8>>) -> Seq<u8>
    decreases chunks.len(),
{
    if chunks.len() == 0 {
        Seq::empty()
    } else {
        chunks[0] + flat(chunks.skip(1))
    }
}

/// What is left of the chunks once `limit` bytes were taken off the front, piece by piece.
pub open spec fn drained(chunks: Seq<Seq<u8>>, limit: nat) -> Seq<Seq<u8>>
    decreases limit,
{
    let piece = popped(chunks, limit);
    let rest = left_over(chunks, limit);
    if 0 < piece.len() <= limit {
        drained(rest, (limit - piece.len()) as nat)
    } else {
        rest
    }
}

proof fn lemma_flat_without_leading_empty(chunks: Seq<Seq<u8>>)
    ensures
        flat(without_leading_empty(chunks)) == flat(chunks),
        leading_empty(chunks) <= chunks.len(),
        without_leading_empty(chunks).len() > 0 ==> without_leading_empty(chunks)[0].len() > 0,
    decreases chunks.len(),
{
    if chunks.len() > 0 && chunks[0].len() == 0 {
        lemma_skip_leading_empty(chunks);
        lemma_flat_without_leading_empty(chunks.skip(1));
        assert(flat(chunks) =~= flat(chunks.skip(1)));
    } else {
        assert(chunks.skip(0) =~= chunks);
    }
}

/// One piece and what it leaves behind are the data that was there. A piece is empty exactly
/// where nothing may be taken or nothing is left.
pub proof fn law_pop_takes_from_the_front(chunks: Seq<Seq<u8>>, limit: nat)
    ensures
        flat(chunks) == popped(chunks, limit) + flat(left_over(chunks, limit)),
        popped(chunks, limit).len() <= limit,
        popped(chunks, limit).len() == 0 <==> limit == 0 || flat(chunks).len() == 0,
        used_up(chunks, limit) + left_over(chunks, limit).len() == chunks.len(),
{
    lemma_flat_without_leading_empty(chunks);
    let rest = without_leading_empty(chunks);
    if rest.len() == 0 {
        assert(flat(chunks) =~= popped(chunks, limit) + flat(left_over(chunks, limit)));
    } else if rest[0].len() <= limit {
    } else {
        let cut = rest.update(0, rest[0].skip(limit as int));
        assert(cut.skip(1) =~= rest.skip(1));
        assert(flat(rest) =~= rest[0].take(limit as int) + flat(cut));
    }
}

/// Draining takes `limit` bytes off the front, or all there are: what was taken and what is left
/// make up the data that was there.
pub proof fn law_drained_from_the_front(chunks: Seq<Seq<u8>>, limit: nat)
    ensures
        drained(chunks, limit).len() <= chunks.len(),
        flat(drained(chunks, limit)) == if limit < flat(chunks).len() {
            flat(chunks).skip(limit as int)
        } else {
            Seq::empty()
        },
    decreases limit,
{
    law_pop_takes_from_the_front(chunks, limit);
    let piece = popped(chunks, limit);
    let rest = left_over(chunks, limit);
    if 0 < piece.len() <= limit {
        law_drained_from_the_front(rest, (limit - piece.len()) as nat);
        if limit < flat(chunks).len() {
            assert(flat(chunks).skip(limit as int) =~= flat(rest).skip(limit - piece.len()));
        }
    } else {
        assert(flat(rest) =~= flat(chunks));
        assert(flat(chunks).skip(0) =~= flat(chunks));
        if limit >= flat(chunks).len() {
            assert(flat(rest) =~= Seq::<u8>::empty());
        }
    }
}

/// A source of one or more buffers which can be converted into `Bytes` buffers on demand.
pub trait BytesSource {
    /// The chunks that have not been handed out.
    spec fn chunks(&self) -> Seq<Seq<u8>>;

    spec fn valid(&self) -> bool;

    /// The chunks can be counted.
    proof fn lemma_countable(&self)
        requires
            self.valid(),
        ensures
            self.chunks().len() <= usize::MAX,
    ;

    /// The slice that the source takes its chunks out of, if it borrows one to write to.
    spec fn lent(&self) -> Option<&mut [Bytes]>;

    /// What an implementation promises of itself once pieces were taken: how it relates to what
    /// it was before.
    spec fn follows(&self, earlier: &Self) -> bool;

    /// Where nothing was taken, nothing has changed.
    proof fn lemma_follows_itself(&self)
        requires
            self.valid(),
        ensures
            self.follows(self),
    ;

    /// The promise holds over several calls.
    proof fn lemma_follows_on(&self, middle: &Self, earlier: &Self)
        requires
            self.follows(middle),
            middle.follows(earlier),
        ensures
            self.follows(earlier),
    ;

    /// Returns the next piece of data, of at most `limit` bytes, and how many chunks of the
    /// source were used up by it. Chunks that hold nothing are skipped and counted.
    fn pop_chunk(&mut self, limit: usize) -> (r: (Bytes, usize))
        requires
            old(self).valid(),
        ensures
            final(self).valid(),
            crate::chunk::content(r.0) == popped(old(self).chunks(), limit as nat),
            r.1 == used_up(old(self).chunks(), limit as nat),
            final(self).chunks() == left_over(old(self).chunks(), limit as nat),
            final(self).follows(old(self)),
            final(self).lent() is Some <==> old(self).lent() is Some,
            old(self).lent() is Some ==> final(final(self).lent()->0)@ == final(old(self).lent()->0)@,
    ;
}

/// A [`BytesSource`] over a slice of `Bytes`.
pub struct BytesArray<'a> {
    /// The wrapped slice of `Bytes`
    pub chunks: &'a mut [Bytes],
    /// The amount of chunks consumed from this source
    pub consumed: usize,
}

pub open spec fn contents(chunks: Seq<Bytes>) -> Seq<Seq<u8>> {
    chunks.map_values(|b: Bytes| crate::chunk::content(b))
}

impl<'a> BytesArray<'a> {
    pub fn from_chunks(chunks: &'a mut [Bytes]) -> (r: Self)
        ensures
            r.valid(),
            r.chunks() == contents(old(chunks)@),
            r.chunks@ == old(chunks)@,
            r.consumed == 0,
            final(chunks)@ == final(r.chunks)@,
    {
        let count: usize = chunks.len();
        assert(chunks@.len() == count);
        BytesArray { chunks, consumed: 0 }
    }
}

impl<'a> BytesSource for BytesArray<'a> {
    open spec fn chunks(&self) -> Seq<Seq<u8>> {
        contents(self.chunks@).skip(self.consumed as int)
    }

    open spec fn valid(&self) -> bool {
        self.consumed <= self.chunks@.len() <= usize::MAX
    }

    proof fn lemma_countable(&self) {
    }

    open spec fn lent(&self) -> Option<&mut [Bytes]> {
        Some(self.chunks)
    }

    /// The slice is as long as it was, what was handed out before is as it was, and chunks that were used
    /// up since are empty.
    open spec fn follows(&self, earlier: &Self) -> bool {
        &&& earlier.consumed <= self.consumed <= self.chunks@.len()
        &&& self.chunks@.len() == earlier.chunks@.len()
        &&& forall|i: int|
            0 <= i < earlier.consumed ==> (#[trigger] self.chunks@[i]) == earlier.chunks@[i]
        &&& forall|i: int|
            earlier.consumed <= i < self.consumed ==> crate::chunk::content(
                #[trigger] self.chunks@[i],
            ).len() == 0
    }

    proof fn lemma_follows_itself(&self) {
    }

    proof fn lemma_follows_on(&self, middle: &Self, earlier: &Self) {
    }

    fn pop_chunk(&mut self, limit: usize) -> (r: (Bytes, usize))
        ensures
            final(self).consumed == old(self).consumed + r.1,
            final(self).chunks@.len() == old(self).chunks@.len(),
            final(final(self).chunks)@ == final(old(self).chunks)@,
            forall|i: int|
                0 <= i < old(self).consumed ==> final(self).chunks@[i] == old(self).chunks@[i],
            forall|i: int|
                old(self).consumed <= i < final(self).consumed ==> crate::chunk::content(
                    #[trigger] final(self).chunks@[i],
                ).len() == 0,
    {
        let ghost start = *self;
        let mut chunks_consumed: usize = 0;
        // The loop exists to skip empty chunks while still marking them as consumed
        while self.consumed < self.chunks.len()
            invariant
                self.valid(),
                start.valid(),
                start == *old(self),
                self.chunks@.len() == start.chunks@.len(),
                final(self.chunks)@ == final(start.chunks)@,
                forall|i: int|
                    0 <= i < start.consumed ==> self.chunks@[i] == start.chunks@[i],
                forall|i: int|
                    start.consumed <= i < self.consumed ==> crate::chunk::content(
                        #[trigger] self.chunks@[i],
                    ).len() == 0,
                self.consumed == start.consumed + chunks_consumed,
                chunks_consumed + leading_empty(self.chunks()) == leading_empty(start.chunks()),
                without_leading_empty(self.chunks()) == without_leading_empty(start.chunks()),
            decreases self.chunks@.len() - self.consumed,
        {
            let ghost before = self.chunks();
            let len: usize = bytes_len(&self.chunks[self.consumed]);
            assert(before[0].len() == len);
            if len <= limit {
                let mut chunk = empty_bytes();
                std::mem::swap(&mut chunk, &mut self.chunks[self.consumed]);
                self.consumed = self.consumed + 1;
                chunks_consumed = chunks_consumed + 1;
                assert(self.chunks() =~= before.skip(1));
                if bytes_len(&chunk) == 0 {
                    proof {
                        lemma_skip_leading_empty(before);
                    }
                    continue;
                }
                assert(before.skip(0) =~= before);
                return (chunk, chunks_consumed);
            } else if limit > 0 {
                let chunk = split_front(&mut self.chunks[self.consumed], limit);
                assert(before.skip(0) =~= before);
                assert(self.chunks() =~= before.update(0, before[0].skip(limit as int)));
                return (chunk, chunks_consumed);
            } else {
                assert(before.skip(0) =~= before);
                assert(before[0].take(0) =~= Seq::<u8>::empty());
                assert(before[0].skip(0) =~= before[0]);
                assert(before.update(0, before[0].skip(0)) =~= before);
                return (empty_bytes(), chunks_consumed);
            }
        }
        assert(self.chunks().len() == 0);
        assert(self.chunks().skip(0) =~= self.chunks());
        (empty_bytes(), chunks_consumed)
    }
}

proof fn lemma_skip_leading_empty(chunks: Seq<Seq<u8>>)
    requires
        chunks.len() > 0,
        chunks[0].len() == 0,
    ensures
        leading_empty(chunks) == 1 + leading_empty(chunks.skip(1)),
        without_leading_empty(chunks) == without_leading_empty(chunks.skip(1)),
{
    let k = leading_empty(chunks.skip(1)) as int;
    lemma_leading_empty_bound(chunks.skip(1));
    assert(chunks.skip(1).skip(k) =~= chunks.skip(1 + k));
}

proof fn lemma_leading_empty_bound(chunks: Seq<Seq<u8>>)
    ensures
        leading_empty(chunks) <= chunks.len(),
    decreases chunks.len(),
{
    if chunks.len() > 0 && chunks[0].len() == 0 {
        lemma_leading_empty_bound(chunks.skip(1));
    }
}

/// A [`BytesSource`] over a byte slice.
///
/// The type allows to dequeue a single `Bytes` chunk, which will be lazily created from a
/// reference. This allows to defer the allocation until it is known how much data needs to be
/// copied.
pub struct ByteSlice<'a> {
    /// The wrapped byte slice
    pub data: &'a [u8],
}

impl<'a> ByteSlice<'a> {
    pub fn from_slice(data: &'a [u8]) -> (r: Self)
        ensures
            r.data@ == data@,
            r.valid(),
    {
        ByteSlice { data }
    }
}

impl<'a> BytesSource for ByteSlice<'a> {
    open spec fn chunks(&self) -> Seq<Seq<u8>> {
        if self.data@.len() == 0 {
            Seq::empty()
        } else {
            seq![self.data@]
        }
    }

    open spec fn valid(&self) -> bool {
        true
    }

    proof fn lemma_countable(&self) {
    }

    open spec fn lent(&self) -> Option<&mut [Bytes]> {
        None
    }

    /// What is left is the end of what was there.
    open spec fn follows(&self, earlier: &Self) -> bool {
        self.data@.len() <= earlier.data@.len() && self.data@ == earlier.data@.skip(
            earlier.data@.len() - self.data@.len(),
        )
    }

    proof fn lemma_follows_itself(&self) {
        assert(self.data@.skip(0) =~= self.data@);
    }

    proof fn lemma_follows_on(&self, middle: &Self, earlier: &Self) {
        assert(self.data@ =~= earlier.data@.skip(earlier.data@.len() - self.data@.len()));
    }

    fn pop_chunk(&mut self, limit: usize) -> (r: (Bytes, usize)) {
        let ghost start = self.data@;
        let ghost before = self.chunks();
        let len: usize = self.data.len();
        let taken: usize = if limit < len {
            limit
        } else {
            len
        };
        assert(before.skip(0) =~= before);
        assert(start.skip(0) =~= start);
        if taken == 0 {
            proof {
                if before.len() > 0 {
                    assert(before[0].take(0) =~= Seq::<u8>::empty());
                    assert(before[0].skip(0) =~= before[0]);
                    assert(before.update(0, before[0].skip(0)) =~= before);
                }
            }
            return (empty_bytes(), 0);
        }
        let chunk = bytes_from_vec(slice_to_vec(slice_subrange(self.data, 0, taken)));
        self.data = slice_subrange(self.data, taken, len);
        let rest: usize = self.data.len();
        assert(start.take(taken as int) =~= start.subrange(0, taken as int));
        assert(start.skip(taken as int) =~= self.data@);
        let used: usize = if rest == 0 {
            1
        } else {
            0
        };
        proof {
            if rest == 0 {
                assert(start.take(taken as int) =~= start);
                assert(self.chunks() =~= before.skip(1));
            } else {
                assert(self.chunks() =~= before.update(0, start.skip(taken as int)));
            }
        }
        (chunk, used)
    }
}

/// A piece is the first chunk that holds anything, whole where it fits and cut off at the limit
/// where it does not; whatever stands behind it stays. Empty chunks in front of it are skipped,
/// and count as used up.
pub proof fn law_pop_hands_out_the_first_chunk(chunks: Seq<Seq<u8>>, limit: nat)
    ensures
        chunks.len() == 0 ==> popped(chunks, limit).len() == 0 && used_up(chunks, limit) == 0
            && left_over(chunks, limit).len() == 0,
        ({
            let (first, behind) = (chunks[0], chunks.skip(1));
            &&& chunks.len() > 0 && first.len() == 0 ==> {
                &&& popped(chunks, limit) == popped(behind, limit)
                &&& used_up(chunks, limit) == 1 + used_up(behind, limit)
                &&& left_over(chunks, limit) == left_over(behind, limit)
            }
            &&& chunks.len() > 0 && 0 < first.len() <= limit ==> {
                &&& popped(chunks, limit) == first
                &&& used_up(chunks, limit) == 1
                &&& left_over(chunks, limit) == behind
            }
            &&& chunks.len() > 0 && first.len() > limit ==> {
                &&& popped(chunks, limit) == first.subrange(0, limit as int)
                &&& used_up(chunks, limit) == 0
                &&& left_over(chunks, limit) == seq![
                    first.subrange(limit as int, first.len() as int),
                ] + behind
            }
        }),
{
    assert(chunks.skip(0) =~= chunks);
    if chunks.len() > 0 {
        let (first, behind) = (chunks[0], chunks.skip(1));
        if first.len() == 0 {
            lemma_skip_leading_empty(chunks);
        } else if first.len() > limit {
            assert(first.take(limit as int) =~= first.subrange(0, limit as int));
            assert(first.skip(limit as int) =~= first.subrange(limit as int, first.len() as int));
            assert(left_over(chunks, limit) =~= seq![
                first.subrange(limit as int, first.len() as int),
            ] + behind);
        }
    }
}

} // verus!
