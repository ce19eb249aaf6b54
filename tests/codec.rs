use ev3_runner::codec::{
    decode_request, decode_validation, decode_version_header, decode_version_response,
    encode_request, encode_validation, encode_version_header, encode_version_response,
    frame_message, message_length,
};
use ev3_runner::protocol::{
    Action, MatchStatus, PathStatus, Request, Validation, VersionHeader, VersionResponse,
    VersionStatus,
};

fn sample(action: Action, size: u64, hash: u64) -> Request {
    Request {
        action,
        path: "bin/prögram".to_string(),
        size,
        hash,
        password: [7u8; 32],
        use_compression: true,
        version: "0.1.0".to_string(),
    }
}

#[test]
fn request_round_trip() {
    for (action, size, hash) in [
        (Action::Upload, 0u64, 0u64),
        (Action::Run(true), 250, 251),
        (Action::Run(false), 65_535, 65_536),
        (Action::Upload, 4_294_967_295, 4_294_967_296),
        (Action::Run(true), u64::MAX, 12_345_678_901_234),
    ] {
        let r = sample(action, size, hash);
        let bytes = encode_request(&r);
        assert!(decode_request(&bytes) == Some(r));
    }
}

#[test]
fn request_encoding_matches_bincode() {
    let r = sample(Action::Run(true), 300, u64::MAX);
    let expected = bincode::encode_to_vec(
        (1u32, true, r.path.clone(), 300u64, u64::MAX, [7u8; 32], true, "0.1.0".to_string()),
        bincode::config::standard(),
    )
    .unwrap();
    assert_eq!(encode_request(&r), expected);
    let u = sample(Action::Upload, 7, 70_000);
    let expected = bincode::encode_to_vec(
        (0u32, u.path.clone(), 7u64, 70_000u64, [7u8; 32], true, "0.1.0".to_string()),
        bincode::config::standard(),
    )
    .unwrap();
    assert_eq!(encode_request(&u), expected);
}

#[test]
fn varint_boundaries_are_exact() {
    let r = sample(Action::Upload, 251, 0);
    let bytes = encode_request(&r);
    // action, path length and path, then 251 as a marker and two bytes
    let at = 1 + 1 + "bin/prögram".len();
    assert_eq!(&bytes[at..at + 3], &[251, 251, 0]);
}

#[test]
fn truncated_or_malformed_requests_are_refused() {
    let bytes = encode_request(&sample(Action::Upload, 1, 2));
    for cut in 0..bytes.len() {
        assert!(decode_request(&bytes[..cut]).is_none());
    }
    let mut bad = bytes.clone();
    bad[0] = 2;
    assert!(decode_request(&bad).is_none());
    // a non-canonical length prefix
    let mut long = vec![0u8, 251, 1, 0];
    long.extend_from_slice(&bytes[2..]);
    assert!(decode_request(&long).is_none());
}

#[test]
fn invalid_utf8_path_is_refused() {
    let mut bytes = encode_request(&sample(Action::Upload, 1, 2));
    bytes[2] = 0xff;
    assert!(decode_request(&bytes).is_none());
}

#[test]
fn version_messages_round_trip() {
    let h = VersionHeader("1.2.3".to_string());
    let b = encode_version_header(&h);
    assert_eq!(b, vec![5, b'1', b'.', b'2', b'.', b'3']);
    assert_eq!(decode_version_header(&b), Some(h));
    let m = VersionResponse(VersionStatus::Match);
    assert_eq!(encode_version_response(&m), vec![0]);
    assert_eq!(decode_version_response(&[0]), Some(m));
    let mm = VersionResponse(VersionStatus::Mismatch("1.1.0".to_string()));
    let b = encode_version_response(&mm);
    assert_eq!(b, vec![1, 5, b'1', b'.', b'1', b'.', b'0']);
    assert_eq!(decode_version_response(&b), Some(mm));
    assert_eq!(decode_version_response(&[2]), None);
}

#[test]
fn validation_round_trip() {
    let v = Validation {
        password: MatchStatus::Match,
        hash: MatchStatus::Mismatch,
        path: PathStatus::EscapesWorkingDir,
    };
    let b = encode_validation(&v);
    assert_eq!(b, vec![0, 1, 3]);
    assert_eq!(decode_validation(&b), Some(v));
    assert_eq!(decode_validation(&[0, 1, 5]), None);
    assert_eq!(decode_validation(&[0, 1]), None);
}

#[test]
fn frames_carry_big_endian_lengths() {
    let f = frame_message(&[9, 8, 7]);
    assert_eq!(f, vec![0, 0, 0, 3, 9, 8, 7]);
    assert_eq!(message_length(&[0, 1, 0, 2]), 65_538);
    let payload = vec![1u8; 300];
    let f = frame_message(&payload);
    assert_eq!(message_length(&[f[0], f[1], f[2], f[3]]), 300);
}
