use ev3_runner::hash::{digests_equal, Hasher, CONTENT_SEED};

#[test]
fn content_digest_is_seeded_xxh64() {
    let data = b"hello, robot";
    assert_eq!(CONTENT_SEED, 4167);
    assert_eq!(Hasher::hash_file(data), twox_hash::XxHash64::oneshot(4167, data));
    assert_ne!(Hasher::hash_file(data), twox_hash::XxHash64::oneshot(0, data));
}

#[test]
fn content_digest_is_deterministic() {
    let a: Vec<u8> = (0..100_000u32).map(|i| (i * 7 % 256) as u8).collect();
    let b = a.clone();
    assert_eq!(Hasher::hash_file(&a), Hasher::hash_file(&b));
    let mut c = a.clone();
    c[500] ^= 1;
    assert_ne!(Hasher::hash_file(&a), Hasher::hash_file(&c));
}

#[test]
fn password_digest_is_sha256() {
    let d = Hasher::hash_password("abc");
    let expected: [u8; 32] = [
        0xba, 0x78, 0x16, 0xbf, 0x8f, 0x01, 0xcf, 0xea, 0x41, 0x41, 0x40, 0xde, 0x5d, 0xae, 0x22,
        0x23, 0xb0, 0x03, 0x61, 0xa3, 0x96, 0x17, 0x7a, 0x9c, 0xb4, 0x10, 0xff, 0x61, 0xf2, 0x00,
        0x15, 0xad,
    ];
    assert_eq!(d, expected);
}

#[test]
fn digests_compare_byte_for_byte() {
    let a = Hasher::hash_password("maker");
    let mut b = a;
    assert!(digests_equal(&a, &b));
    b[31] ^= 0x80;
    assert!(!digests_equal(&a, &b));
}
