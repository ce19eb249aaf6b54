use ev3_runner::transfer::{decode_body, encode_body, read_body};

fn file(n: usize) -> Vec<u8> {
    (0..n).map(|i| (i % 13) as u8).collect()
}

#[test]
fn plain_body_round_trip() {
    let contents = file(20_000);
    let body = encode_body(&contents, false);
    let (payload, used) = read_body(&body).unwrap();
    assert_eq!(used, body.len());
    assert_eq!(payload, contents);
    assert_eq!(decode_body(payload, false), Some(contents));
}

#[test]
fn compressed_body_round_trip() {
    let contents = file(200_000);
    let body = encode_body(&contents, true);
    assert!(body.len() < contents.len());
    let (payload, _) = read_body(&body).unwrap();
    assert_ne!(payload, contents);
    assert_eq!(payload, zstd::encode_all(&contents[..], 3).unwrap());
    assert_eq!(decode_body(payload, true), Some(contents));
}

#[test]
fn truncated_body_is_incomplete() {
    let body = encode_body(&file(100), false);
    assert_eq!(read_body(&body[..body.len() - 1]), None);
}

#[test]
fn corrupt_compressed_payload_is_refused() {
    assert_eq!(decode_body(vec![1, 2, 3, 4, 5], true), None);
}

#[test]
fn body_frames_are_full_chunks_then_the_rest() {
    let contents = file(8192 + 5);
    let body = encode_body(&contents, false);
    assert_eq!(&body[..4], &[0x00, 0x20, 0x00, 0x00]);
    assert_eq!(&body[4..8196], &contents[..8192]);
    assert_eq!(&body[8196..8200], &[5, 0, 0, 0]);
    assert_eq!(&body[8200..8205], &contents[8192..]);
    assert_eq!(&body[8205..], &[0, 0, 0, 0]);
}

#[test]
fn read_body_stops_at_the_end_marker() {
    let mut body = encode_body(b"abc", false);
    let len = body.len();
    body.extend_from_slice(&[7, 7]);
    let (data, used) = read_body(&body).unwrap();
    assert_eq!(data, b"abc".to_vec());
    assert_eq!(used, len);
}
