use threshold_encryption::symmetric::{apply_stream, derive_key};

// SHA-256 of the ASCII text "hello".
const HELLO_DIGEST: [u8; 32] = [
    44, 242, 77, 186, 95, 176, 163, 14, 38, 232, 59, 42, 197, 185, 226, 158, 27, 22, 30, 92, 31,
    167, 66, 94, 115, 4, 51, 98, 147, 139, 152, 36,
];

#[test]
fn key_is_the_sha256_digest() {
    assert_eq!(derive_key(b"hello"), HELLO_DIGEST.to_vec());
}

#[test]
fn key_of_the_empty_input() {
    let key = derive_key(b"");
    assert_eq!(key.len(), 32);
    assert_eq!(&key[..4], &[0xe3, 0xb0, 0xc4, 0x42]);
    assert_eq!(&key[28..], &[0x78, 0x52, 0xb8, 0x55]);
}

#[test]
fn keys_of_different_inputs_differ() {
    assert_ne!(derive_key(b"hello"), derive_key(b"hellp"));
}

#[test]
fn stream_matches_chacha20() {
    assert_eq!(apply_stream(&HELLO_DIGEST, b"abc"), Some(vec![40, 91, 44]));
}

#[test]
fn stream_of_zeros_is_the_keystream() {
    let keystream = apply_stream(&HELLO_DIGEST, &[0u8; 70]).unwrap();
    assert_eq!(&keystream[..8], &[73, 57, 79, 33, 222, 195, 170, 240]);
    // the second block of the keystream
    assert_eq!(&keystream[64..], &[126, 39, 154, 227, 88, 161]);
}

#[test]
fn stream_applied_twice_restores_the_data() {
    let data: Vec<u8> = (0..=255u8).collect();
    let once = apply_stream(&HELLO_DIGEST, &data).unwrap();
    assert_ne!(once, data);
    assert_eq!(once.len(), data.len());
    assert_eq!(apply_stream(&HELLO_DIGEST, &once), Some(data));
}

#[test]
fn stream_of_nothing_is_nothing() {
    assert_eq!(apply_stream(&HELLO_DIGEST, b""), Some(Vec::new()));
}

#[test]
fn stream_depends_on_the_key() {
    let other = derive_key(b"another element");
    assert_ne!(apply_stream(&HELLO_DIGEST, b"abc"), apply_stream(&other, b"abc"));
}
