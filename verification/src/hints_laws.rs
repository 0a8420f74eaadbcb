//! Laws of the announced pieces of a stream.

use crate::hints::{ChunkProgress, HintsView, ObjectEntry};
use vstd::prelude::*;

verus! {

/// Bytes of the objects that are still to be written.
pub open spec fn objects_unwritten(objects: Seq<ObjectEntry>) -> nat
    decreases objects.len(),
{
    if objects.len() == 0 {
        0
    } else {
        objects[0].unwritten() + objects_unwritten(objects.skip(1))
    }
}

/// Bytes of the objects that are still to be acknowledged.
pub open spec fn objects_unacked(objects: Seq<ObjectEntry>) -> nat
    decreases objects.len(),
{
    if objects.len() == 0 {
        0
    } else {
        objects[0].unacked() + objects_unacked(objects.skip(1))
    }
}

/// Announced bytes that are still to be written.
pub open spec fn total_unwritten(hints: HintsView) -> nat {
    objects_unwritten(hints.objects) + match hints.subgroup {
        Some(chunk) => chunk.unwritten(),
        None => 0,
    }
}

/// Announced bytes that are still to be acknowledged.
pub open spec fn total_unacked(hints: HintsView) -> nat {
    objects_unacked(hints.objects) + match hints.subgroup {
        Some(chunk) => chunk.unacked(),
        None => 0,
    }
}

pub open spec fn without(total: nat, bytes: nat) -> nat {
    if bytes < total {
        (total - bytes) as nat
    } else {
        0
    }
}

proof fn lemma_objects_written(objects: Seq<ObjectEntry>, a: nat, b: nat)
    ensures
        crate::hints::objects_written(objects, a).len() == objects.len(),
        crate::hints::objects_written(crate::hints::objects_written(objects, a), b)
            == crate::hints::objects_written(objects, a + b),
        objects_unwritten(crate::hints::objects_written(objects, a)) == without(
            objects_unwritten(objects),
            a,
        ),
        forall|i: int|
            0 <= i < objects.len() && (#[trigger] objects[i]).valid()
                ==> crate::hints::objects_written(objects, a)[i].valid(),
    decreases objects.len(),
{
    let once = crate::hints::objects_written(objects, a);
    if objects.len() > 0 {
        let tail = objects.skip(1);
        let x = objects[0].write_rest(a);
        let y = objects[0].after_write(a).write_rest(b);
        lemma_objects_written(tail, x, y);
        assert(once.skip(1) =~= crate::hints::objects_written(tail, x));
        assert(objects[0].write_rest(a + b) == x + y);
        assert(objects[0].after_write(a).after_write(b) == objects[0].after_write(a + b));
        assert(crate::hints::objects_written(once, b) =~= crate::hints::objects_written(
            objects,
            a + b,
        ));
        assert forall|i: int|
            0 <= i < objects.len() && (#[trigger] objects[i]).valid() implies once[i].valid() by {
            if i > 0 {
                assert(tail[i - 1] == objects[i]);
                assert(once.skip(1)[i - 1] == once[i]);
            }
        }
    }
}

/// Writing nothing changes nothing.
pub proof fn law_written_nothing(hints: HintsView)
    ensures
        hints.after_written(0) == hints,
{
    crate::hints::lemma_objects_written_nothing(hints.objects);
}

/// Writing in two steps credits the same pieces as writing all at once.
pub proof fn law_written_adds_up(hints: HintsView, a: nat, b: nat)
    ensures
        hints.after_written(a).after_written(b) == hints.after_written(a + b),
{
    match hints.subgroup {
        Some(chunk) => {
            let x = chunk.write_rest(a);
            let y = chunk.after_write(a).write_rest(b);
            lemma_objects_written(hints.objects, x, y);
            assert(chunk.write_rest(a + b) == x + y);
        },
        None => {
            lemma_objects_written(hints.objects, a, b);
        },
    }
}

/// No byte is credited twice, and none is lost as long as an announced piece has room for it.
pub proof fn law_written_is_conserved(hints: HintsView, bytes: nat)
    ensures
        total_unwritten(hints.after_written(bytes)) == without(total_unwritten(hints), bytes),
{
    match hints.subgroup {
        Some(chunk) => {
            lemma_objects_written(hints.objects, chunk.write_rest(bytes), 0);
        },
        None => {
            lemma_objects_written(hints.objects, bytes, 0);
        },
    }
}

proof fn lemma_written_in_order(objects: Seq<ObjectEntry>, bytes: nat, i: int, j: int)
    requires
        0 <= i < j < objects.len(),
        crate::hints::objects_written(objects, bytes)[j] != objects[j],
    ensures
        crate::hints::objects_written(objects, bytes)[i].unwritten() == 0,
        bytes > 0,
    decreases objects.len(),
{
    let tail = objects.skip(1);
    let x = objects[0].write_rest(bytes);
    let rest = crate::hints::objects_written(tail, x);
    lemma_objects_written(tail, x, 0);
    assert(crate::hints::objects_written(objects, bytes)[j] == rest[j - 1]);
    assert(tail[j - 1] == objects[j]);
    if j > 1 {
        let k = if i > 0 {
            i - 1
        } else {
            0
        };
        lemma_written_in_order(tail, x, k, j - 1);
        assert(i > 0 ==> crate::hints::objects_written(objects, bytes)[i] == rest[i - 1]);
    } else {
        assert(rest[0] == tail[0].after_write(x));
    }
}

/// An object is credited only once everything announced before it was written: the subgroup
/// header, and all objects in front of it.
pub proof fn law_written_in_stream_order(hints: HintsView, bytes: nat, j: int)
    requires
        0 <= j < hints.objects.len(),
        hints.after_written(bytes).objects[j] != hints.objects[j],
    ensures
        forall|i: int|
            0 <= i < j ==> (#[trigger] hints.after_written(bytes).objects[i]).unwritten() == 0,
        hints.after_written(bytes).subgroup matches Some(chunk) ==> chunk.unwritten() == 0,
{
    let rest = match hints.subgroup {
        Some(chunk) => chunk.write_rest(bytes),
        None => bytes,
    };
    assert forall|i: int| 0 <= i < j implies (#[trigger] hints.after_written(
        bytes,
    ).objects[i]).unwritten() == 0 by {
        lemma_written_in_order(hints.objects, rest, i, j);
    }
    if rest == 0 {
        crate::hints::lemma_objects_written_nothing(hints.objects);
    }
}

/// A payload is credited only once its header was written, and once everything announced before
/// the object was.
pub proof fn law_payload_waits_for_its_header(hints: HintsView, bytes: nat, j: int)
    requires
        0 <= j < hints.objects.len(),
        hints.after_written(bytes).objects[j].payload != hints.objects[j].payload,
    ensures
        hints.after_written(bytes).objects[j].header.unwritten() == 0,
        forall|i: int|
            0 <= i < j ==> (#[trigger] hints.after_written(bytes).objects[i]).unwritten() == 0,
        hints.after_written(bytes).subgroup matches Some(chunk) ==> chunk.unwritten() == 0,
{
    law_written_in_stream_order(hints, bytes, j);
    let rest = match hints.subgroup {
        Some(chunk) => chunk.write_rest(bytes),
        None => bytes,
    };
    lemma_header_first(hints.objects, rest, j);
}

proof fn lemma_header_first(objects: Seq<ObjectEntry>, bytes: nat, j: int)
    requires
        0 <= j < objects.len(),
    ensures
        exists|share: nat|
            crate::hints::objects_written(objects, bytes)[j] == #[trigger] objects[j].after_write(
                share,
            ),
    decreases objects.len(),
{
    if j == 0 {
        assert(crate::hints::objects_written(objects, bytes)[0] == objects[0].after_write(bytes));
    } else {
        let tail = objects.skip(1);
        let x = objects[0].write_rest(bytes);
        lemma_header_first(tail, x, j - 1);
        lemma_objects_written(tail, x, 0);
        assert(tail[j - 1] == objects[j]);
        assert(crate::hints::objects_written(objects, bytes)[j] == crate::hints::objects_written(
            tail,
            x,
        )[j - 1]);
    }
}

/// Writing moves only the written counts: sizes, acknowledged counts and what the scheduler knows
/// of an object stay.
pub proof fn law_writing_keeps_the_rest(hints: HintsView, bytes: nat, j: int)
    requires
        0 <= j < hints.objects.len(),
    ensures
        hints.after_written(bytes).objects.len() == hints.objects.len(),
        hints.after_written(bytes).objects[j] == (ObjectEntry {
            header: ChunkProgress {
                written: hints.after_written(bytes).objects[j].header.written,
                ..hints.objects[j].header
            },
            payload: ChunkProgress {
                written: hints.after_written(bytes).objects[j].payload.written,
                ..hints.objects[j].payload
            },
            ..hints.objects[j]
        }),
{
    let rest = match hints.subgroup {
        Some(chunk) => chunk.write_rest(bytes),
        None => bytes,
    };
    lemma_objects_written(hints.objects, rest, 0);
    lemma_header_first(hints.objects, rest, j);
}

proof fn lemma_objects_acked(objects: Seq<ObjectEntry>, a: nat, b: nat)
    ensures
        crate::hints::objects_acked(crate::hints::objects_acked(objects, a), b)
            == crate::hints::objects_acked(objects, a + b),
        objects_unacked(crate::hints::objects_acked(objects, a)) == without(
            objects_unacked(objects),
            a,
        ),
    decreases objects.len(),
{
    if a > 0 && objects.len() > 0 {
        let tail = objects.skip(1);
        let entry = objects[0].after_ack(a);
        let x = objects[0].ack_rest(a);
        if entry.unacked() == 0 {
            lemma_objects_acked(tail, x, b);
            assert(objects[0].ack_rest(a + b) == x + b);
            assert(objects[0].after_ack(a + b).unacked() == 0);
        } else {
            let once = objects.update(0, entry);
            assert(once.skip(1) =~= tail);
            assert(entry.ack_rest(b) == objects[0].ack_rest(a + b));
            assert(entry.after_ack(b) == objects[0].after_ack(a + b));
            assert(once.update(0, entry.after_ack(b)) =~= objects.update(
                0,
                objects[0].after_ack(a + b),
            ));
        }
    }
}

/// Acknowledging in two steps credits the same pieces as acknowledging all at once.
pub proof fn law_acked_adds_up(hints: HintsView, a: nat, b: nat)
    ensures
        hints.after_acked(a).after_acked(b) == hints.after_acked(a + b),
{
    match hints.subgroup {
        Some(chunk) => {
            let x = chunk.ack_rest(a);
            if a > 0 && b > 0 {
                if chunk.after_ack(a).unacked() == 0 {
                    assert(chunk.ack_rest(a + b) == x + b);
                    lemma_objects_acked(hints.objects, x, b);
                } else {
                    assert(chunk.after_ack(a).ack_rest(b) == chunk.ack_rest(a + b));
                }
            }
        },
        None => {
            lemma_objects_acked(hints.objects, a, b);
        },
    }
}

/// Every acknowledged byte lowers what is outstanding by one, until nothing is.
pub proof fn law_acked_is_conserved(hints: HintsView, bytes: nat)
    ensures
        total_unacked(hints.after_acked(bytes)) == without(total_unacked(hints), bytes),
{
    match hints.subgroup {
        Some(chunk) => {
            lemma_objects_acked(hints.objects, chunk.ack_rest(bytes), 0);
        },
        None => {
            lemma_objects_acked(hints.objects, bytes, 0);
        },
    }
}

proof fn lemma_objects_acked_valid(objects: Seq<ObjectEntry>, bytes: nat)
    requires
        forall|i: int| 0 <= i < objects.len() ==> (#[trigger] objects[i]).valid(),
    ensures
        forall|i: int|
            0 <= i < crate::hints::objects_acked(objects, bytes).len() ==> (
            #[trigger] crate::hints::objects_acked(objects, bytes)[i]).valid(),
    decreases objects.len(),
{
    if bytes > 0 && objects.len() > 0 {
        let entry = objects[0].after_ack(bytes);
        assert(objects[0].valid());
        assert(entry.valid());
        if entry.unacked() == 0 {
            lemma_objects_acked_valid(objects.skip(1), objects[0].ack_rest(bytes));
            assert(crate::hints::objects_acked(objects, bytes) == crate::hints::objects_acked(
                objects.skip(1),
                objects[0].ack_rest(bytes),
            ));
        } else {
            assert(crate::hints::objects_acked(objects, bytes) == objects.update(0, entry));
            assert forall|i: int| 0 <= i < objects.len() implies (#[trigger] objects.update(
                0,
                entry,
            )[i]).valid() by {
                assert(objects[i].valid());
            }
        }
    }
}

/// No object is credited with an acknowledgement before the subgroup header is done.
pub proof fn law_acked_after_the_subgroup(hints: HintsView, bytes: nat)
    requires
        hints.after_acked(bytes).objects != hints.objects,
    ensures
        hints.after_acked(bytes).subgroup is None,
{
}

/// No operation ever records more for a piece than was announced for it.
pub proof fn law_never_beyond_announced(hints: HintsView, bytes: nat, len: u64, deadline: Option<u64>)
    requires
        hints.valid(),
    ensures
        HintsView::nothing().valid(),
        hints.with_subgroup_header(len).valid(),
        hints.with_object_header(len).valid(),
        hints.with_object(len, deadline).valid(),
        hints.after_written(bytes).valid(),
        hints.after_acked(bytes).valid(),
{
    let written = match hints.subgroup {
        Some(chunk) => chunk.write_rest(bytes),
        None => bytes,
    };
    let acked = match hints.subgroup {
        Some(chunk) => chunk.ack_rest(bytes),
        None => bytes,
    };
    lemma_objects_written(hints.objects, written, 0);
    lemma_objects_acked_valid(hints.objects, acked);
    assert forall|i: int| 0 <= i < hints.after_written(bytes).objects.len() implies (
    #[trigger] hints.after_written(bytes).objects[i]).valid() by {
        assert(hints.objects[i].valid());
    }
    let o = hints.with_object(len, deadline).objects;
    assert forall|i: int| 0 <= i < o.len() implies (#[trigger] o[i]).valid() by {
        if i < hints.objects.len() {
            assert(hints.objects[i].valid());
        }
    }
}

/// Objects leave in the order in which they came: the acknowledged ones in front are gone, of the
/// first one left only the acknowledged counts may have moved, and those behind it are untouched.
pub proof fn law_acked_in_stream_order(objects: Seq<ObjectEntry>, bytes: nat)
    ensures
        ({
            let left = crate::hints::objects_acked(objects, bytes);
            let gone = objects.len() - left.len();
            &&& left.len() <= objects.len()
            &&& objects_unacked(objects.take(gone)) <= bytes
            &&& left.len() > 0 ==> left[0] == (ObjectEntry {
                header: ChunkProgress { acked: left[0].header.acked, ..objects[gone].header },
                payload: ChunkProgress { acked: left[0].payload.acked, ..objects[gone].payload },
                ..objects[gone]
            })
            &&& left.len() > 0 && left[0].payload != objects[gone].payload
                ==> left[0].header.unacked() == 0
            &&& forall|i: int| 0 < i < left.len() ==> left[i] == objects[gone + i]
        }),
    decreases objects.len(),
{
    let left = crate::hints::objects_acked(objects, bytes);
    if bytes > 0 && objects.len() > 0 && objects[0].after_ack(bytes).unacked() == 0 {
        let tail = objects.skip(1);
        let x = objects[0].ack_rest(bytes);
        law_acked_in_stream_order(tail, x);
        let gone = objects.len() - left.len();
        assert(objects.take(gone).skip(1) =~= tail.take(gone - 1));
    } else {
        assert(objects.take(0) =~= Seq::<ObjectEntry>::empty());
    }
}

/// What is written of a piece and what is not make up what was announced, and so do what is
/// acknowledged and what is not. What is in transit was written and not acknowledged.
pub proof fn law_counts_of_a_piece(chunk: ChunkProgress)
    requires
        chunk.valid(),
    ensures
        chunk.written + chunk.unwritten() == chunk.len,
        chunk.acked + chunk.unacked() == chunk.len,
        chunk.acked <= chunk.written ==> chunk.acked + chunk.in_transit() == chunk.written,
        chunk.acked >= chunk.written ==> chunk.in_transit() == 0,
{
}

/// The counts of an object are those of its header and its payload together.
pub proof fn law_counts_of_an_object(entry: ObjectEntry)
    requires
        entry.valid(),
    ensures
        entry.header.written + entry.payload.written + entry.unwritten() == entry.header.len
            + entry.payload.len,
        entry.header.acked + entry.payload.acked + entry.unacked() == entry.header.len
            + entry.payload.len,
{
}

/// Bytes that are written go to the written count of a piece as far as there is room, and the
/// others are handed on; acknowledged bytes go to the acknowledged count in the same way.
pub proof fn law_credit_of_a_piece(chunk: ChunkProgress, bytes: nat)
    requires
        chunk.valid(),
    ensures
        bytes <= chunk.len - chunk.written ==> chunk.after_write(bytes).written == chunk.written
            + bytes && chunk.write_rest(bytes) == 0,
        bytes > chunk.len - chunk.written ==> chunk.after_write(bytes).written == chunk.len
            && chunk.written + bytes == chunk.len + chunk.write_rest(bytes),
        bytes <= chunk.len - chunk.acked ==> chunk.after_ack(bytes).acked == chunk.acked + bytes
            && chunk.ack_rest(bytes) == 0,
        bytes > chunk.len - chunk.acked ==> chunk.after_ack(bytes).acked == chunk.len
            && chunk.acked + bytes == chunk.len + chunk.ack_rest(bytes),
        chunk.after_write(bytes).len == chunk.len,
        chunk.after_write(bytes).acked == chunk.acked,
        chunk.after_ack(bytes).len == chunk.len,
        chunk.after_ack(bytes).written == chunk.written,
{
}

/// Written bytes go to the subgroup header as far as it has room; only the others go on to the
/// objects.
pub proof fn law_subgroup_is_written_first(hints: HintsView, bytes: nat)
    requires
        hints.valid(),
        hints.subgroup is Some,
    ensures
        ({
            let before = hints.subgroup->0;
            let after = hints.after_written(bytes).subgroup;
            let room = before.len - before.written;
            &&& after is Some
            &&& after->0.len == before.len
            &&& after->0.acked == before.acked
            &&& bytes <= room ==> after->0.written == before.written + bytes
            &&& bytes <= room ==> hints.after_written(bytes).objects == hints.objects
            &&& bytes >= room ==> after->0.written == before.len
            &&& bytes >= room ==> hints.after_written(bytes).objects == (HintsView {
                subgroup: None,
                ..hints
            }).after_written((bytes - room) as nat).objects
        }),
{
    crate::hints::lemma_objects_written_nothing(hints.objects);
}

/// Acknowledged bytes go to the subgroup header as far as it owes any; once it owes none it
/// leaves, and only the other bytes go on to the objects.
pub proof fn law_subgroup_is_acked_first(hints: HintsView, bytes: nat)
    requires
        hints.valid(),
        hints.subgroup is Some,
        bytes > 0,
    ensures
        ({
            let before = hints.subgroup->0;
            let after = hints.after_acked(bytes).subgroup;
            let owed = before.len - before.acked;
            &&& bytes < owed ==> after is Some && after->0 == (ChunkProgress {
                acked: (before.acked + bytes) as u64,
                ..before
            })
            &&& bytes <= owed ==> hints.after_acked(bytes).objects == hints.objects
            &&& bytes >= owed ==> after is None
            &&& bytes >= owed ==> hints.after_acked(bytes).objects == (HintsView {
                subgroup: None,
                ..hints
            }).after_acked((bytes - owed) as nat).objects
        }),
{
}

/// An object leaves as soon as all of it is acknowledged, and not before; the bytes that it does
/// not account for go on to the next one.
pub proof fn law_objects_leave_once_acked(objects: Seq<ObjectEntry>, bytes: nat)
    requires
        objects.len() > 0,
        objects[0].valid(),
        bytes > 0,
    ensures
        ({
            let first = objects[0];
            let owed = first.header.len - first.header.acked + first.payload.len
                - first.payload.acked;
            let left = crate::hints::objects_acked(objects, bytes);
            &&& bytes >= owed ==> left == crate::hints::objects_acked(
                objects.skip(1),
                (bytes - owed) as nat,
            )
            &&& bytes < owed ==> left.len() == objects.len() && left.skip(1) == objects.skip(1)
            &&& bytes < owed ==> left[0].header.acked + left[0].payload.acked
                == first.header.acked + first.payload.acked + bytes
        }),
{
    let left = crate::hints::objects_acked(objects, bytes);
    if objects[0].after_ack(bytes).unacked() > 0 {
        assert(left.skip(1) =~= objects.skip(1));
    }
}

proof fn lemma_objects_pushed(objects: Seq<ObjectEntry>, last: ObjectEntry)
    ensures
        objects_unwritten(objects.push(last)) == objects_unwritten(objects) + last.unwritten(),
        objects_unacked(objects.push(last)) == objects_unacked(objects) + last.unacked(),
    decreases objects.len(),
{
    let none = Seq::<ObjectEntry>::empty();
    if objects.len() == 0 {
        assert(objects.push(last).skip(1) =~= none);
        assert(objects_unwritten(none) == 0 && objects_unacked(none) == 0);
    } else {
        assert(objects.push(last).skip(1) =~= objects.skip(1).push(last));
        lemma_objects_pushed(objects.skip(1), last);
    }
}

/// Announcing a header adds an object of which so many bytes are to be written and acknowledged.
pub proof fn law_header_announces_an_object(hints: HintsView, len: u64)
    ensures
        ({
            let after = hints.with_object_header(len);
            let last = after.objects.last();
            &&& after.subgroup == hints.subgroup
            &&& after.objects.len() == hints.objects.len() + 1
            &&& after.objects.drop_last() == hints.objects
            &&& last.header.len == len
            &&& last.payload.len == 0
            &&& last.header.written == 0
            &&& last.header.acked == 0
            &&& last.deadline_ms is None
            &&& !last.admitted
            &&& total_unwritten(after) == total_unwritten(hints) + len
            &&& total_unacked(after) == total_unacked(hints) + len
        }),
{
    lemma_objects_pushed(hints.objects, ObjectEntry::announced(len));
    assert(hints.with_object_header(len).objects.drop_last() =~= hints.objects);
}

/// Announcing a payload completes the last object if only its header is known, and adds an object
/// without a header otherwise. Either way so many bytes more are to be written and acknowledged,
/// by the deadline that was given.
pub proof fn law_payload_announces_its_bytes(hints: HintsView, len: u64, deadline: Option<u64>)
    requires
        hints.valid(),
    ensures
        ({
            let after = hints.with_object(len, deadline);
            let last = after.objects.last();
            let completes = hints.objects.len() > 0 && hints.objects.last().payload.len == 0;
            &&& after.subgroup == hints.subgroup
            &&& last.payload.len == len
            &&& last.payload.written == 0
            &&& last.payload.acked == 0
            &&& last.deadline_ms == deadline
            &&& last.failed_attempts == 0
            &&& last.retry_at is None
            &&& completes ==> after.objects.len() == hints.objects.len()
            &&& completes ==> after.objects.drop_last() == hints.objects.drop_last()
            &&& completes ==> last.header == hints.objects.last().header
            &&& completes ==> last.admitted == hints.objects.last().admitted
            &&& !completes ==> after.objects.drop_last() == hints.objects
            &&& !completes ==> after.objects.len() == hints.objects.len() + 1
            &&& !completes ==> last.header.len == 0
            &&& !completes ==> !last.admitted
            &&& total_unwritten(after) == total_unwritten(hints) + len
            &&& total_unacked(after) == total_unacked(hints) + len
        }),
{
    let after = hints.with_object(len, deadline);
    let objects = hints.objects;
    if objects.len() > 0 && objects.last().payload.len == 0 {
        let front = objects.drop_last();
        assert(objects[objects.len() - 1].valid());
        assert(objects =~= front.push(objects.last()));
        assert(after.objects =~= front.push(after.objects.last()));
        lemma_objects_pushed(front, objects.last());
        lemma_objects_pushed(front, after.objects.last());
        assert(after.objects.drop_last() =~= front);
    } else {
        lemma_objects_pushed(objects, after.objects.last());
        assert(after.objects.drop_last() =~= objects);
    }
}

/// Announcing the subgroup header starts it anew and leaves the objects alone.
pub proof fn law_subgroup_header_starts_anew(hints: HintsView, len: u64)
    ensures
        ({
            let after = hints.with_subgroup_header(len);
            &&& after.objects == hints.objects
            &&& after.subgroup is Some
            &&& after.subgroup->0.len == len
            &&& after.subgroup->0.written == 0
            &&& after.subgroup->0.acked == 0
            &&& total_unwritten(after) == objects_unwritten(hints.objects) + len
            &&& total_unacked(after) == objects_unacked(hints.objects) + len
        }),
{
}

/// The report on the subgroup header: it is ready once all of it was written, and what is
/// outstanding is what was not acknowledged.
pub proof fn law_report_on_the_subgroup(hints: HintsView)
    requires
        hints.valid(),
    ensures
        hints.subgroup_report() is Some <==> hints.subgroup is Some,
        ({
            let chunk = hints.subgroup->0;
            let report = hints.subgroup_report()->0;
            hints.subgroup is Some ==> {
                &&& report.ready <==> chunk.written == chunk.len
                &&& report.outstanding + chunk.acked == chunk.len
            }
        }),
{
}

/// The report on the first object: it is ready once header and payload were written, what is
/// outstanding was not acknowledged, and what is available was written and not acknowledged. Size,
/// deadline and admission are as they were announced and decided.
pub proof fn law_report_on_the_first_object(hints: HintsView)
    requires
        hints.valid(),
        hints.objects.len() > 0 ==> hints.objects[0].size_fits(),
    ensures
        hints.object_report() is Some <==> hints.objects.len() > 0,
        ({
            let entry = hints.objects[0];
            let (header, payload) = (entry.header, entry.payload);
            let report = hints.object_report()->0;
            hints.objects.len() > 0 ==> {
                &&& report.ready <==> header.written == header.len && payload.written
                    == payload.len
                &&& report.total_len == header.len + payload.len
                &&& report.outstanding + header.acked + payload.acked == report.total_len
                &&& header.acked <= header.written && payload.acked <= payload.written
                    ==> report.available + header.acked + payload.acked == header.written
                    + payload.written
                &&& report.deadline_ms == entry.deadline_ms
                &&& report.admitted == entry.admitted
            }
        }),
{
    if hints.objects.len() > 0 {
        assert(hints.objects[0].valid());
    }
}

/// An object is partial while its header was written and its payload was not.
pub proof fn law_partial_objects(hints: HintsView)
    requires
        hints.valid(),
    ensures
        hints.is_partial() <==> hints.objects.len() > 0 && hints.objects[0].header.written
            == hints.objects[0].header.len && hints.objects[0].payload.written
            < hints.objects[0].payload.len,
{
    if hints.objects.len() > 0 {
        assert(hints.objects[0].valid());
    }
}

/// Admitting the first object changes that alone; discarding it leaves the ones behind it.
pub proof fn law_first_object(hints: HintsView)
    requires
        hints.objects.len() > 0,
    ensures
        ({
            let admitted = hints.with_first_admitted();
            let left = hints.without_first();
            &&& admitted.subgroup == hints.subgroup
            &&& admitted.objects.len() == hints.objects.len()
            &&& admitted.objects[0] == (ObjectEntry { admitted: true, ..hints.objects[0] })
            &&& forall|i: int|
                0 < i < hints.objects.len() ==> admitted.objects[i] == hints.objects[i]
            &&& left.subgroup == hints.subgroup
            &&& left.objects.len() == hints.objects.len() - 1
            &&& forall|i: int|
                0 <= i < left.objects.len() ==> left.objects[i] == hints.objects[i + 1]
            &&& total_unwritten(left) + hints.objects[0].unwritten() == total_unwritten(hints)
            &&& total_unacked(left) + hints.objects[0].unacked() == total_unacked(hints)
        }),
{
}

} // verus!
