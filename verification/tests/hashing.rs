use dupfinder::hashing::hash_bytes;
use dupfinder::hex::to_hex;

#[test]
fn empty_input_gives_the_sha1_empty_digest() {
    let digest = hash_bytes(&Vec::new());
    assert_eq!(digest.len(), 20);
    assert_eq!(to_hex(&digest), "da39a3ee5e6b4b0d3255bfef95601890afd80709");
}

#[test]
fn known_digest_of_hello() {
    let digest = hash_bytes(&b"hello".to_vec());
    assert_eq!(to_hex(&digest), "aaf4c61ddcc5e8a2dabede0f3b482cd9aea9434d");
}

#[test]
fn known_digest_of_abc() {
    // FIPS 180-1 test vector.
    let digest = hash_bytes(&b"abc".to_vec());
    assert_eq!(to_hex(&digest), "a9993e364706816aba3e25717850c26c9cd0d89d");
}

#[test]
fn same_bytes_hash_alike_whatever_held_them() {
    let first = hash_bytes(&b"identical content".to_vec());
    let second = hash_bytes(&b"identical content".to_vec());
    assert_eq!(first, second);
}

#[test]
fn different_bytes_hash_apart() {
    let first = hash_bytes(&b"hello".to_vec());
    let second = hash_bytes(&b"world".to_vec());
    assert_ne!(first, second);
}

#[test]
fn chunking_matches_one_shot_hashing() {
    // A buffer longer than one 4096-byte chunk, so several chunks stream
    // through the hasher; the digest must match the digest of the same
    // bytes in any other arrangement of the same run.
    let big: Vec<u8> = (0..10_000u32).map(|i| (i % 251) as u8).collect();
    let once = hash_bytes(&big);
    let again = hash_bytes(&big.clone());
    assert_eq!(once, again);
    assert_eq!(once.len(), 20);
}

#[test]
fn hex_of_bytes_is_two_lowercase_digits_each() {
    assert_eq!(to_hex(&vec![0x00, 0xff, 0x1a]), "00ff1a");
    assert_eq!(to_hex(&Vec::new()), "");
    assert_eq!(to_hex(&vec![0xde, 0xad, 0xbe, 0xef]), "deadbeef");
}
