use bytes::Bytes;
use staticserve::fieldreader::{Fill, FieldReader, Polled};

/// Reads a scripted source to its end through a reader, with a buffer of
/// `room` bytes for every pull. `pending_every` puts a "not ready" answer
/// before each n-th chunk.
fn read_through(chunks: &[Vec<u8>], room: usize, pending_every: usize) -> (Vec<u8>, usize) {
    let mut reader = FieldReader::new();
    let mut next = 0;
    let mut polls = 0;
    let mut out = Vec::new();
    let mut pulls = 0;
    let mut buf = vec![0u8; room];
    loop {
        let mut ended = false;
        while !reader.has_chunk() {
            polls += 1;
            if pending_every > 0 && polls % pending_every == 0 {
                assert_eq!(reader.poll_fill_buf(Polled::Pending), Fill::Suspend);
                continue;
            }
            if next < chunks.len() {
                let chunk = Bytes::from(chunks[next].clone());
                next += 1;
                assert_eq!(reader.poll_fill_buf(Polled::Chunk(chunk)), Fill::Again);
            } else {
                assert_eq!(reader.poll_fill_buf(Polled::End), Fill::Eof);
                ended = true;
                break;
            }
        }
        let n = reader.poll_read(&mut buf);
        pulls += 1;
        out.extend_from_slice(&buf[..n]);
        if n == 0 {
            assert!(ended);
            return (out, pulls);
        }
    }
}

fn split(bytes: &[u8], size: usize) -> Vec<Vec<u8>> {
    bytes.chunks(size).map(|c| c.to_vec()).collect()
}

fn sample(len: usize) -> Vec<u8> {
    (0..len).map(|i| (i * 31 % 251) as u8).collect()
}

#[test]
fn new_reader_holds_nothing() {
    let reader = FieldReader::new();
    assert!(!reader.has_chunk());
    assert_eq!(reader.buffer(), &[] as &[u8]);
}

#[test]
fn chunk_with_bytes_is_held() {
    let mut reader = FieldReader::new();
    let next = reader.poll_fill_buf(Polled::Chunk(Bytes::from_static(b"hello")));
    assert_eq!(next, Fill::Again);
    assert!(reader.has_chunk());
    assert_eq!(reader.buffer(), b"hello");
}

#[test]
fn empty_chunk_is_not_held_and_is_not_the_end() {
    let mut reader = FieldReader::new();
    let next = reader.poll_fill_buf(Polled::Chunk(Bytes::new()));
    assert_eq!(next, Fill::Again);
    assert!(!reader.has_chunk());
    assert_eq!(reader.buffer(), &[] as &[u8]);
}

#[test]
fn end_of_source_is_eof() {
    let mut reader = FieldReader::new();
    assert_eq!(reader.poll_fill_buf(Polled::End), Fill::Eof);
    assert!(!reader.has_chunk());
    let mut buf = [0u8; 8];
    assert_eq!(reader.poll_read(&mut buf), 0);
}

#[test]
fn pending_source_suspends() {
    let mut reader = FieldReader::new();
    assert_eq!(reader.poll_fill_buf(Polled::Pending), Fill::Suspend);
    assert!(!reader.has_chunk());
}

#[test]
fn failed_source_is_a_read_failure() {
    let mut reader = FieldReader::new();
    let next = reader.poll_fill_buf(Polled::Failed("connection reset".to_string()));
    assert_eq!(next, Fill::Failed("connection reset".to_string()));
    assert!(!reader.has_chunk());
}

#[test]
fn consume_advances_the_cursor() {
    let mut reader = FieldReader::new();
    reader.poll_fill_buf(Polled::Chunk(Bytes::from_static(b"abcdef")));
    reader.consume(2);
    assert_eq!(reader.buffer(), b"cdef");
    reader.consume(0);
    assert_eq!(reader.buffer(), b"cdef");
    reader.consume(3);
    assert_eq!(reader.buffer(), b"f");
    assert!(reader.has_chunk());
}

#[test]
fn consume_of_everything_empties_the_reader() {
    let mut reader = FieldReader::new();
    reader.poll_fill_buf(Polled::Chunk(Bytes::from_static(b"abc")));
    reader.consume(3);
    assert!(!reader.has_chunk());
    assert_eq!(reader.buffer(), &[] as &[u8]);
    assert_eq!(
        reader.poll_fill_buf(Polled::Chunk(Bytes::from_static(b"xyz"))),
        Fill::Again
    );
    assert_eq!(reader.buffer(), b"xyz");
}

#[test]
fn consume_nothing_on_empty_reader() {
    let mut reader = FieldReader::new();
    reader.consume(0);
    assert!(!reader.has_chunk());
}

#[test]
fn poll_read_smaller_than_chunk() {
    let mut reader = FieldReader::new();
    reader.poll_fill_buf(Polled::Chunk(Bytes::from_static(b"abcdef")));
    let mut buf = [0u8; 4];
    assert_eq!(reader.poll_read(&mut buf), 4);
    assert_eq!(&buf, b"abcd");
    assert_eq!(reader.buffer(), b"ef");
    assert_eq!(reader.poll_read(&mut buf), 2);
    assert_eq!(&buf, b"efcd");
    assert!(!reader.has_chunk());
}

#[test]
fn poll_read_equal_to_chunk() {
    let mut reader = FieldReader::new();
    reader.poll_fill_buf(Polled::Chunk(Bytes::from_static(b"abcd")));
    let mut buf = [0u8; 4];
    assert_eq!(reader.poll_read(&mut buf), 4);
    assert_eq!(&buf, b"abcd");
    assert!(!reader.has_chunk());
}

#[test]
fn poll_read_larger_than_chunk_leaves_the_rest_of_the_buffer() {
    let mut reader = FieldReader::new();
    reader.poll_fill_buf(Polled::Chunk(Bytes::from_static(b"ab")));
    let mut buf = [9u8; 5];
    assert_eq!(reader.poll_read(&mut buf), 2);
    assert_eq!(&buf, &[b'a', b'b', 9, 9, 9]);
    assert!(!reader.has_chunk());
}

#[test]
fn poll_read_into_no_room_moves_nothing() {
    let mut reader = FieldReader::new();
    reader.poll_fill_buf(Polled::Chunk(Bytes::from_static(b"ab")));
    let mut buf = [0u8; 0];
    assert_eq!(reader.poll_read(&mut buf), 0);
    assert_eq!(reader.buffer(), b"ab");
}

#[test]
fn any_chunking_and_any_room_gives_the_same_bytes() {
    let content = sample(1000);
    for chunk_size in [1usize, 2, 3, 7, 64, 999, 1000, 1001, 5000] {
        for room in [1usize, 2, 5, 7, 8, 64, 1000, 4096] {
            let (out, _) = read_through(&split(&content, chunk_size), room, 0);
            assert_eq!(out, content, "chunks of {chunk_size}, room {room}");
        }
    }
}

#[test]
fn chunks_of_1_7_512_4096_give_identical_output() {
    let content = sample(10_240);
    let mut outputs = Vec::new();
    for chunk_size in [1usize, 7, 512, 4096] {
        let (out, _) = read_through(&split(&content, chunk_size), 700, 0);
        outputs.push(out);
    }
    assert_eq!(outputs[0], content);
    assert_eq!(outputs[1], outputs[0]);
    assert_eq!(outputs[2], outputs[0]);
    assert_eq!(outputs[3], outputs[0]);
}

#[test]
fn uneven_chunks_keep_their_order() {
    let chunks = vec![b"ab".to_vec(), b"c".to_vec(), b"defgh".to_vec(), b"i".to_vec()];
    let (out, _) = read_through(&chunks, 3, 0);
    assert_eq!(out, b"abcdefghi");
}

#[test]
fn pending_answers_change_nothing() {
    let content = sample(300);
    let (out, _) = read_through(&split(&content, 7), 5, 2);
    assert_eq!(out, content);
}

#[test]
fn empty_chunk_before_data_is_no_early_eof() {
    let chunks = vec![Vec::new(), b"data".to_vec()];
    let (out, pulls) = read_through(&chunks, 16, 0);
    assert_eq!(out, b"data");
    // one pull for the data, one that finds the end
    assert_eq!(pulls, 2);
}

#[test]
fn empty_chunks_anywhere_are_passed_over() {
    let chunks = vec![
        Vec::new(),
        Vec::new(),
        b"ab".to_vec(),
        Vec::new(),
        b"cd".to_vec(),
        Vec::new(),
        Vec::new(),
    ];
    let (out, pulls) = read_through(&chunks, 2, 0);
    assert_eq!(out, b"abcd");
    assert_eq!(pulls, 3);
}

#[test]
fn only_empty_chunks_is_an_empty_stream() {
    let chunks = vec![Vec::new(), Vec::new()];
    let (out, pulls) = read_through(&chunks, 4, 0);
    assert!(out.is_empty());
    assert_eq!(pulls, 1);
}

#[test]
fn drain_reads_the_stream_exactly_once() {
    let content = sample(100);
    let (out, pulls) = read_through(&split(&content, 10), 10, 0);
    assert_eq!(out, content);
    // ten pulls of ten bytes, and the one that returns 0
    assert_eq!(pulls, 11);
}

#[test]
fn drain_with_room_across_chunk_borders() {
    let content = sample(100);
    let (out, pulls) = read_through(&split(&content, 7), 64, 0);
    assert_eq!(out, content);
    // a pull never reaches past the held chunk: 15 chunks, then the end
    assert_eq!(pulls, 16);
}

#[test]
fn shared_bytes_are_not_changed_by_the_reader() {
    let whole = Bytes::from_static(b"0123456789");
    let mut reader = FieldReader::new();
    reader.poll_fill_buf(Polled::Chunk(whole.slice(2..8)));
    reader.consume(1);
    assert_eq!(reader.buffer(), b"34567");
    assert_eq!(&whole[..], b"0123456789");
}
