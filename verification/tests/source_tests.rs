use bytes::Bytes;
use stream_pacing::source::{ByteSlice, BytesArray, BytesSource};

#[test]
fn bytes_array() {
    let full = b"Hello World 123456789 ABCDEFGHJIJKLMNOPQRSTUVWXYZ".to_owned();
    for limit in 0..full.len() {
        let mut chunks = [
            Bytes::from_static(b""),
            Bytes::from_static(b"Hello "),
            Bytes::from_static(b"Wo"),
            Bytes::from_static(b""),
            Bytes::from_static(b"r"),
            Bytes::from_static(b"ld"),
            Bytes::from_static(b""),
            Bytes::from_static(b" 12345678"),
            Bytes::from_static(b"9 ABCDE"),
            Bytes::from_static(b"F"),
            Bytes::from_static(b"GHJIJKLMNOPQRSTUVWXYZ"),
        ];
        let num_chunks = chunks.len();
        let last_chunk_len = chunks[chunks.len() - 1].len();

        let mut array = BytesArray::from_chunks(&mut chunks);

        let mut buf = Vec::new();
        let mut chunks_popped = 0;
        let mut chunks_consumed = 0;
        let mut remaining = limit;
        loop {
            let (chunk, consumed) = array.pop_chunk(remaining);
            chunks_consumed += consumed;

            if !chunk.is_empty() {
                buf.extend_from_slice(&chunk);
                remaining -= chunk.len();
                chunks_popped += 1;
            } else {
                break;
            }
        }

        assert_eq!(&buf[..], &full[..limit]);

        if limit == full.len() {
            // Full consumption of the last chunk
            assert_eq!(chunks_consumed, num_chunks);
            // Since there are empty chunks, we consume more than there are popped
            assert_eq!(chunks_consumed, chunks_popped + 3);
        } else if limit > full.len() - last_chunk_len {
            // Partial consumption of the last chunk
            assert_eq!(chunks_consumed, num_chunks - 1);
            assert_eq!(chunks_consumed, chunks_popped + 2);
        }
    }
}

#[test]
fn byte_slice() {
    let full = b"Hello World 123456789 ABCDEFGHJIJKLMNOPQRSTUVWXYZ".to_owned();
    for limit in 0..full.len() {
        let mut array = ByteSlice::from_slice(&full[..]);

        let mut buf = Vec::new();
        let mut chunks_popped = 0;
        let mut chunks_consumed = 0;
        let mut remaining = limit;
        loop {
            let (chunk, consumed) = array.pop_chunk(remaining);
            chunks_consumed += consumed;

            if !chunk.is_empty() {
                buf.extend_from_slice(&chunk);
                remaining -= chunk.len();
                chunks_popped += 1;
            } else {
                break;
            }
        }

        assert_eq!(&buf[..], &full[..limit]);
        if limit != 0 {
            assert_eq!(chunks_popped, 1);
        } else {
            assert_eq!(chunks_popped, 0);
        }

        if limit == full.len() {
            assert_eq!(chunks_consumed, 1);
        } else {
            assert_eq!(chunks_consumed, 0);
        }
    }
}

#[test]
fn whole_sources_are_used_up() {
    let data = b"abcdef".to_owned();
    let mut slice = ByteSlice::from_slice(&data[..]);
    let (chunk, consumed) = slice.pop_chunk(6);
    assert_eq!(&chunk[..], &data[..]);
    assert_eq!(consumed, 1);
    let (chunk, consumed) = slice.pop_chunk(6);
    assert!(chunk.is_empty());
    assert_eq!(consumed, 0);

    let mut chunks = [
        Bytes::from_static(b""),
        Bytes::from_static(b"abc"),
        Bytes::from_static(b""),
        Bytes::from_static(b"def"),
        Bytes::from_static(b""),
    ];
    let mut array = BytesArray::from_chunks(&mut chunks);
    let (chunk, consumed) = array.pop_chunk(100);
    assert_eq!((&chunk[..], consumed), (&b"abc"[..], 2));
    let (chunk, consumed) = array.pop_chunk(2);
    assert_eq!((&chunk[..], consumed), (&b"de"[..], 1));
    let (chunk, consumed) = array.pop_chunk(2);
    assert_eq!((&chunk[..], consumed), (&b"f"[..], 1));
    let (chunk, consumed) = array.pop_chunk(2);
    assert_eq!((&chunk[..], consumed), (&b""[..], 1));
    assert_eq!(array.consumed, 5);
    assert!(chunks.iter().all(|c| c.is_empty()));
}

#[test]
fn a_limit_of_zero_takes_only_empty_chunks() {
    let mut chunks = [Bytes::from_static(b""), Bytes::from_static(b"x")];
    let mut array = BytesArray::from_chunks(&mut chunks);
    let (chunk, consumed) = array.pop_chunk(0);
    assert!(chunk.is_empty());
    assert_eq!(consumed, 1);
    let (chunk, consumed) = array.pop_chunk(0);
    assert!(chunk.is_empty());
    assert_eq!(consumed, 0);
    assert_eq!(&chunks[1][..], b"x");
}
