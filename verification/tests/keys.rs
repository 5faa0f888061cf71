use berkle::{FieldHash, KeyWithCounter};
use std::cmp::Ordering;

#[test]
fn equality_ignores_the_counter() {
    assert_eq!(KeyWithCounter([1u8, 2, 3], 0), KeyWithCounter([1u8, 2, 3], 7));
    assert_ne!(KeyWithCounter([1u8, 2, 3], 0), KeyWithCounter([1u8, 2, 4], 0));
}

#[test]
fn order_is_lexicographic_on_key_bytes() {
    let a = KeyWithCounter([1u8, 2, 3], 9);
    let b = KeyWithCounter([1u8, 2, 4], 0);
    let c = KeyWithCounter([2u8, 0, 0], 0);
    assert_eq!(a.partial_cmp(&b), Some(Ordering::Less));
    assert_eq!(c.partial_cmp(&b), Some(Ordering::Greater));
    assert_eq!(a.partial_cmp(&KeyWithCounter([1u8, 2, 3], 1)), Some(Ordering::Equal));
    assert!(a < b && b < c);
}

#[test]
fn as_ref_gives_the_key_bytes() {
    let k = KeyWithCounter([4u8, 5, 6], 2);
    let bytes: &[u8] = k.as_ref();
    assert_eq!(bytes, &[4u8, 5, 6][..]);
}

#[test]
fn hash_digests_key_then_counter() {
    let k = KeyWithCounter([10u8, 20, 30, 40], 3);
    assert_eq!(k.hash(), *blake3::hash(&[10, 20, 30, 40, 3]).as_bytes());
    assert_ne!(k.hash(), KeyWithCounter([10u8, 20, 30, 40], 4).hash());
}

#[test]
fn hash_with_idx_appends_little_endian_index() {
    let k = KeyWithCounter([1u8, 2], 0);
    let mut input = vec![1u8, 2, 0];
    input.extend_from_slice(&300usize.to_le_bytes());
    assert_eq!(k.hash_with_idx(300), *blake3::hash(&input).as_bytes());
    assert_ne!(k.hash_with_idx(300), k.hash_with_idx(301));
}

#[test]
fn field_hash_with_idx_clears_top_bits() {
    let k = KeyWithCounter([9u8; 8], 1);
    let digest = k.hash_with_idx(5);
    let fh = k.field_hash_with_idx(5);
    assert_eq!(fh.bytes[..31], digest[..31]);
    assert_eq!(fh.bytes[31], digest[31] & 0x3f);
    assert_eq!(fh, FieldHash::from_digest(digest));
}

#[test]
fn from_digest_masks_the_last_byte() {
    let fh = FieldHash::from_digest([0xff; 32]);
    let mut expected = [0xff; 32];
    expected[31] = 0x3f;
    assert_eq!(fh.bytes, expected);
    assert_eq!(FieldHash::from_digest([0x11; 32]).bytes, [0x11; 32]);
}
