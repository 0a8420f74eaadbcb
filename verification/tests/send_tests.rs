use bytes::Bytes;
use stream_pacing::float64::Float64;
use stream_pacing::hints::{ObjectEntry, StreamHints};
use stream_pacing::send::{FinishError, Send, SendState, StreamMeta, VarInt, WriteError, Written};
use stream_pacing::send_buffer::SendBuffer;
use stream_pacing::source::{ByteSlice, BytesArray};

fn frame(start: u64, end: u64, fin: bool) -> StreamMeta {
    StreamMeta { start, end, fin }
}

#[test]
fn a_new_stream_is_empty() {
    let send = Send::new(VarInt(10));
    assert_eq!(send.max_data, 10);
    assert!(send.is_writable());
    assert!(!send.is_reset());
    assert_eq!(send.offset(), 0);
    assert!(send.is_pending());
    assert_eq!(send.priority, 0);
    assert_eq!(Written::default(), Written { bytes: 0, chunks: 0 });
}

#[test]
fn writes_stop_at_the_limits() {
    let mut send = Send::new(VarInt(10));
    let data = b"0123456789abcdef".to_owned();
    let mut source = ByteSlice::from_slice(&data[..]);
    assert_eq!(send.write(&mut source, 4), Ok(Written { bytes: 4, chunks: 0 }));
    assert_eq!(source.data, b"456789abcdef");
    assert_eq!(send.write(&mut source, 100), Ok(Written { bytes: 6, chunks: 0 }));
    assert_eq!(source.data, b"abcdef");
    assert_eq!(send.offset(), 10);
    assert_eq!(send.write(&mut source, 100), Err(WriteError::Blocked));
    assert!(send.increase_max_data(12));
    assert!(!send.increase_max_data(11));
    assert_eq!(send.write(&mut source, 1), Ok(Written { bytes: 1, chunks: 0 }));
    assert!(!send.increase_max_data(200));
    assert_eq!(send.write(&mut source, 100), Ok(Written { bytes: 5, chunks: 1 }));
    assert_eq!(send.offset(), 16);
}

#[test]
fn chunks_are_counted() {
    let mut send = Send::new(VarInt(100));
    let mut chunks = [
        Bytes::from_static(b"abc"),
        Bytes::from_static(b""),
        Bytes::from_static(b"defgh"),
        Bytes::from_static(b""),
    ];
    let mut source = BytesArray::from_chunks(&mut chunks);
    assert_eq!(send.write(&mut source, 5), Ok(Written { bytes: 5, chunks: 2 }));
    assert_eq!(send.write(&mut source, 50), Ok(Written { bytes: 3, chunks: 2 }));
    assert_eq!(send.write(&mut source, 50), Ok(Written { bytes: 0, chunks: 0 }));
    assert_eq!(send.offset(), 8);
}

#[test]
fn closed_and_stopped_streams_refuse_data() {
    let data = b"xyz".to_owned();
    let mut send = Send::new(VarInt(10));
    assert!(send.try_stop(VarInt(7)));
    assert!(!send.try_stop(VarInt(8)));
    let mut source = ByteSlice::from_slice(&data[..]);
    assert_eq!(send.write(&mut source, 3), Err(WriteError::Stopped(VarInt(7))));
    assert_eq!(send.finish(), Err(FinishError::Stopped(VarInt(7))));

    let mut send = Send::new(VarInt(10));
    assert_eq!(send.finish(), Ok(()));
    assert!(send.fin_pending);
    assert_eq!(send.finish(), Err(FinishError::ClosedStream));
    assert_eq!(send.write(&mut source, 3), Err(WriteError::ClosedStream));
    // Closed comes before stopped.
    send.try_stop(VarInt(1));
    assert_eq!(send.write(&mut source, 3), Err(WriteError::ClosedStream));
    assert!(!send.increase_max_data(1000));

    let mut send = Send::new(VarInt(10));
    send.append_object_header_size(3);
    send.reset();
    assert!(send.is_reset());
    assert!(send.object_sizes.is_none());
    assert_eq!(send.finish(), Err(FinishError::ClosedStream));
    send.reset();
    assert!(send.is_reset());
}

#[test]
fn a_stream_is_done_once_all_is_acknowledged() {
    let data = b"0123456789".to_owned();
    let mut send = Send::new(VarInt(100));
    let mut source = ByteSlice::from_slice(&data[..]);
    send.write(&mut source, 100).unwrap();
    assert!(!send.ack(frame(0, 10, false)));
    assert_eq!(send.pending.unacked(), 0);

    let mut send = Send::new(VarInt(100));
    let mut source = ByteSlice::from_slice(&data[..]);
    send.write(&mut source, 100).unwrap();
    send.finish().unwrap();
    assert!(send.is_pending());
    assert!(!send.ack(frame(5, 10, true)));
    assert_eq!(send.state, SendState::DataSent { finish_acked: true });
    assert_eq!(send.pending.unacked(), 5);
    assert!(!send.ack(frame(0, 4, false)));
    assert_eq!(send.pending.unacked(), 1);
    assert!(send.ack(frame(3, 6, false)));
    assert!(send.pending.is_fully_acked());
    assert!(!send.is_pending());
}

#[test]
fn buffers_count_what_is_missing() {
    let mut buffer = SendBuffer::new();
    assert!(buffer.is_fully_acked());
    buffer.write(Bytes::from_static(b"0123456789"));
    buffer.write(Bytes::from_static(b"abcde"));
    assert_eq!(buffer.offset(), 15);
    buffer.ack(3, 5);
    buffer.ack(8, 11);
    buffer.ack(4, 6);
    assert_eq!(buffer.unacked(), 15 - 3 - 3);
    buffer.ack(14, 99);
    assert_eq!(buffer.unacked(), 8);
    buffer.ack(7, 7);
    buffer.ack(9, 2);
    assert_eq!(buffer.unacked(), 8);
    buffer.ack(0, 3);
    assert_eq!(buffer.unacked(), 5);
    buffer.ack(6, 8);
    assert_eq!(buffer.unacked(), 3);
    buffer.ack(0, 15);
    assert!(buffer.is_fully_acked());
    assert_eq!(buffer.offset(), 15);
}

#[test]
fn written_bytes_are_credited_in_order() {
    let data = [7u8; 100];
    let mut send = Send::new(VarInt(1000));
    send.append_subgroup_header_size(4);
    send.append_object_header_size(2);
    send.append_object_size(10, Some(50));
    send.append_object_size(20, None);
    let mut source = ByteSlice::from_slice(&data[..]);
    send.write(&mut source, 5).unwrap();
    {
        let hints = send.object_sizes.as_ref().unwrap();
        let group = hints.subgroup_status().unwrap();
        assert!(group.ready);
        assert_eq!(group.outstanding, 4);
        assert!(!hints.has_partial_object());
        assert_eq!(hints.objects[0].header.written, 1);
    }
    send.write(&mut source, 4).unwrap();
    {
        let hints = send.object_sizes.as_ref().unwrap();
        assert!(hints.has_partial_object());
        let status = hints.current_object_status().unwrap();
        assert!(!status.ready);
        assert_eq!(status.outstanding, 12);
        assert_eq!(status.available, 5);
        assert_eq!(status.total_len, 12);
        assert_eq!(status.deadline_ms, Some(50));
        assert!(!status.admitted);
    }
    send.write(&mut source, 20).unwrap();
    {
        let hints = send.object_sizes.as_ref().unwrap();
        assert!(hints.current_object_status().unwrap().ready);
        assert!(!hints.has_partial_object());
        assert_eq!(hints.objects[1].payload.written, 13);
    }
    send.ack(frame(0, 4, false));
    assert!(send.object_sizes.as_ref().unwrap().subgroup_status().is_none());
    send.ack(frame(4, 17, false));
    let hints = send.object_sizes.as_ref().unwrap();
    assert_eq!(hints.objects.len(), 1);
    assert_eq!(hints.objects[0].payload.acked, 1);
}

#[test]
fn a_partial_object_has_its_header_and_not_its_payload() {
    let mut hints = StreamHints::new();
    assert!(!hints.has_partial_object());
    hints.append_object_header_size(5);
    hints.append_object_size(10, None);
    // Not even the header was written.
    assert!(!hints.has_partial_object());
    hints.on_bytes_written(4);
    assert!(!hints.has_partial_object());
    hints.on_bytes_written(1);
    assert!(hints.has_partial_object());
    hints.on_bytes_written(9);
    assert!(hints.has_partial_object());
    hints.on_bytes_written(1);
    assert!(!hints.has_partial_object());
}

#[test]
fn objects_can_be_marked_and_discarded() {
    let mut hints = StreamHints::new();
    hints.mark_current_object_admitted();
    assert_eq!(hints.discard_current_object(), None);
    hints.append_object_header_size(3);
    hints.append_object_size(4, Some(9));
    hints.append_object_size(6, None);
    hints.mark_current_object_admitted();
    assert!(hints.current_object_status().unwrap().admitted);
    assert_eq!(hints.discard_current_object(), Some(7));
    assert!(!hints.current_object_status().unwrap().admitted);
    assert_eq!(hints.discard_current_object(), Some(6));
    assert!(hints.current_object_status().is_none());
}

#[test]
fn credit_adds_up() {
    let mut once = StreamHints::new();
    once.append_subgroup_header_size(3);
    once.append_object_header_size(2);
    once.append_object_size(5, None);
    once.append_object_size(8, None);
    let mut twice = StreamHints::new();
    twice.append_subgroup_header_size(3);
    twice.append_object_header_size(2);
    twice.append_object_size(5, None);
    twice.append_object_size(8, None);
    once.on_bytes_written(13);
    twice.on_bytes_written(4);
    twice.on_bytes_written(9);
    let written = |h: &StreamHints| -> Vec<(u64, u64)> {
        h.objects.iter().map(|o: &ObjectEntry| (o.header.written, o.payload.written)).collect()
    };
    assert_eq!(written(&once), vec![(2, 5), (0, 3)]);
    assert_eq!(written(&once), written(&twice));
    once.on_bytes_acked(11);
    twice.on_bytes_acked(2);
    twice.on_bytes_acked(0);
    twice.on_bytes_acked(9);
    assert_eq!(once.objects.len(), 1);
    assert_eq!(once.objects[0].payload.acked, 1);
    assert_eq!(twice.objects[0].payload.acked, 1);
    assert!(once.subgroup.is_none() && twice.subgroup.is_none());
}

#[test]
fn announcing_a_subgroup_forgets_the_rest() {
    let mut send = Send::new(VarInt(10));
    send.append_object_size(5, None);
    assert_eq!(send.object_sizes.as_ref().unwrap().objects.len(), 1);
    send.append_subgroup_header_size(2);
    let hints = send.object_sizes.as_ref().unwrap();
    assert_eq!(hints.objects.len(), 0);
    assert_eq!(hints.subgroup.unwrap().len, 2);
}

#[test]
fn slack_and_deadline_change_the_priority() {
    let mut send = Send::new(VarInt(10));
    send.set_slack_ms(Float64::from_bits((-1.0f64).to_bits()));
    assert!(!send.priority_dirty);
    send.set_slack_ms(Float64::from_bits(120.0f64.to_bits()));
    assert_eq!(send.priority, 32);
    assert!(send.priority_dirty);
    let mut other = Send::new(VarInt(10));
    other.set_deadline(Some(5));
    assert_eq!(other.deadline, Some(5));
    assert!(other.priority_dirty);
    assert_eq!(other.priority, 0);
}

#[test]
fn objects_wait_for_what_comes_first() {
    let mut hints = StreamHints::new();
    hints.append_subgroup_header_size(4);
    hints.append_object_header_size(3);
    hints.append_object_size(5, Some(8));
    hints.mark_current_object_admitted();
    hints.on_bytes_written(4);
    assert_eq!(hints.objects[0].header.written, 0);
    hints.on_bytes_written(3);
    assert_eq!(hints.objects[0].payload.written, 0);
    hints.on_bytes_written(2);
    assert_eq!(hints.objects[0].payload.written, 2);
    hints.on_bytes_acked(3);
    assert_eq!(hints.objects[0].header.acked, 0);
    hints.on_bytes_acked(3);
    assert!(hints.subgroup.is_none());
    // Only the acknowledged counts have moved.
    assert_eq!(hints.objects[0].header.acked, 2);
    assert_eq!(hints.objects[0].header.written, 3);
    assert_eq!(hints.objects[0].payload.written, 2);
    assert_eq!(hints.objects[0].deadline_ms, Some(8));
    assert!(hints.objects[0].admitted);
}

#[test]
fn a_write_empties_the_chunks_that_it_uses_up() {
    let mut send = Send::new(VarInt(100));
    let mut chunks = [
        Bytes::from_static(b"ab"),
        Bytes::from_static(b""),
        Bytes::from_static(b"cdef"),
        Bytes::from_static(b"gh"),
    ];
    let mut source = BytesArray::from_chunks(&mut chunks);
    assert_eq!(source.consumed, 0);
    assert_eq!(send.write(&mut source, 4), Ok(Written { bytes: 4, chunks: 2 }));
    assert_eq!(source.consumed, 2);
    assert_eq!(chunks.len(), 4);
    assert!(chunks[0].is_empty() && chunks[1].is_empty());
    assert_eq!(&chunks[2][..], b"ef");
    assert_eq!(&chunks[3][..], b"gh");
    assert!(format!("{:?}", send).contains("max_data: 100"));
}
