use ev3_runner::stream_framer::{StreamFramer, CHUNK_SIZE};

fn frame_all(writes: &[&[u8]]) -> Vec<u8> {
    let mut w = StreamFramer::streaming_writer();
    let mut out = Vec::new();
    for piece in writes {
        assert_eq!(w.write(piece), piece.len());
        out.extend(w.take_output());
    }
    w.finish();
    out.extend(w.take_output());
    out
}

fn read_all(stream: &[u8], step: usize) -> (Vec<u8>, usize, bool) {
    let mut r = StreamFramer::streaming_reader();
    let mut data = Vec::new();
    let mut taken = 0;
    while taken < stream.len() && !r.is_done() {
        let end = (taken + step).min(stream.len());
        let (n, got) = r.feed(&stream[taken..end]);
        data.extend(got);
        taken += n;
    }
    (data, taken, r.is_done())
}

#[test]
fn round_trip_across_chunk_boundaries() {
    let data: Vec<u8> = (0..(3 * CHUNK_SIZE + 17)).map(|i| (i % 251) as u8).collect();
    let pieces: Vec<&[u8]> = vec![&data[..5], &data[5..CHUNK_SIZE + 3], &data[CHUNK_SIZE + 3..]];
    let stream = frame_all(&pieces);
    for step in [1usize, 3, 4, 4096, 100_000] {
        let (back, taken, done) = read_all(&stream, step);
        assert!(done);
        assert_eq!(taken, stream.len());
        assert_eq!(back, data);
    }
}

#[test]
fn empty_stream_is_just_the_end_marker() {
    let stream = frame_all(&[]);
    assert_eq!(stream, vec![0, 0, 0, 0]);
    let (back, taken, done) = read_all(&stream, 2);
    assert!(done);
    assert_eq!(taken, 4);
    assert!(back.is_empty());
}

#[test]
fn chunk_headers_are_little_endian() {
    let stream = frame_all(&[&[1, 2, 3]]);
    assert_eq!(stream, vec![3, 0, 0, 0, 1, 2, 3, 0, 0, 0, 0]);
    let full = vec![5u8; CHUNK_SIZE];
    let stream = frame_all(&[&full]);
    assert_eq!(&stream[..4], &(CHUNK_SIZE as u32).to_le_bytes());
    assert_eq!(stream.len(), 4 + CHUNK_SIZE + 4);
}

#[test]
fn reader_stops_at_the_end_marker() {
    let mut stream = frame_all(&[&[42]]);
    stream.extend_from_slice(&[9, 9, 9]);
    let mut r = StreamFramer::streaming_reader();
    let (n, data) = r.feed(&stream);
    assert_eq!(n, stream.len() - 3);
    assert_eq!(data, vec![42]);
    assert!(r.is_done());
    let (n, data) = r.feed(&[1, 2]);
    assert_eq!(n, 0);
    assert!(data.is_empty());
}

#[test]
fn reader_accepts_foreign_chunk_sizes() {
    let stream = vec![2, 0, 0, 0, 10, 11, 1, 0, 0, 0, 12, 0, 0, 0, 0];
    let (back, _, done) = read_all(&stream, 5);
    assert!(done);
    assert_eq!(back, vec![10, 11, 12]);
}
