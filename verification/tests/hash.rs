use generator_native::hash::{copy_slice, sha256, HashingIter};
use sha2::{Digest, Sha256};

#[test]
fn hash_iter_okay() {
    let hash_this = vec![
        vec![0, 1, 2, 3, 4],
        vec![5, 6, 7, 8, 9],
        vec![10, 11, 12, 13, 14],
        vec![15, 16, 17, 18, 19],
    ];

    let mut digest2 = Sha256::new();
    let mut it = HashingIter::new(hash_this);
    while let Some(byte) = it.next() {
        digest2.input(&byte[..]);
    }

    assert_eq!(it.finish()[..], digest2.result()[..]);
}

#[test]
fn copy_slice_works() {
    let slice = [0xab, 0xad, 0xca, 0xfe];
    let mut output = [0u8; 4];

    assert_eq!(copy_slice(&mut output, &slice), 4);
    assert_eq!(slice[..], output[..]);
}

#[test]
fn copy_slice_shorter_source_keeps_rest() {
    let mut output = [9u8; 5];
    assert_eq!(copy_slice(&mut output, &[1u8, 2]), 2);
    assert_eq!(output, [1, 2, 9, 9, 9]);
}

#[test]
fn copy_slice_shorter_destination() {
    let mut output = [0u8; 2];
    assert_eq!(copy_slice(&mut output, &[7u8, 8, 9]), 2);
    assert_eq!(output, [7, 8]);
    let mut empty: [u8; 0] = [];
    assert_eq!(copy_slice(&mut empty, &[1u8]), 0);
}

#[test]
fn sha256_of_abc() {
    let expected: [u8; 32] = [
        0xba, 0x78, 0x16, 0xbf, 0x8f, 0x01, 0xcf, 0xea, 0x41, 0x41, 0x40, 0xde, 0x5d, 0xae,
        0x22, 0x23, 0xb0, 0x03, 0x61, 0xa3, 0x96, 0x17, 0x7a, 0x9c, 0xb4, 0x10, 0xff, 0x61,
        0xf2, 0x00, 0x15, 0xad,
    ];
    assert_eq!(sha256(b"abc"), expected);
}

#[test]
fn hashing_iter_hands_out_items_in_order_and_hashes_concatenation() {
    let items = vec![b"ab".to_vec(), Vec::new(), b"c".to_vec()];
    let mut it = HashingIter::new(items.clone());
    let mut out = Vec::new();
    while let Some(v) = it.next() {
        out.push(v);
    }
    assert_eq!(out, items);
    assert!(it.next().is_none());
    assert_eq!(it.finish(), sha256(b"abc"));
}

#[test]
fn hashing_iter_partial_digest() {
    let mut it = HashingIter::new(vec![b"abc".to_vec(), b"def".to_vec()]);
    assert_eq!(it.next(), Some(b"abc".to_vec()));
    assert_eq!(it.finish(), sha256(b"abc"));
}
