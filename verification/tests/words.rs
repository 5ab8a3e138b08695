use steel_query::addr::Address;
use steel_query::word::{read_word, Word256};

fn word(x: u64) -> Word256 {
    Word256 { limb0: 0, limb1: 0, limb2: 0, limb3: x }
}

#[test]
fn from_u64_sets_low_limb() {
    assert_eq!(Word256::from_u64(77), word(77));
}

#[test]
fn is_zero_looks_at_all_limbs() {
    assert!(word(0).is_zero());
    assert!(!word(1).is_zero());
    assert!(!Word256 { limb0: 1, limb1: 0, limb2: 0, limb3: 0 }.is_zero());
    assert!(!Word256 { limb0: 0, limb1: 0, limb2: 1, limb3: 0 }.is_zero());
}

#[test]
fn ge_orders_by_value_not_by_low_limb() {
    // A high limb outweighs any lower limbs.
    let big = Word256 { limb0: 1, limb1: 0, limb2: 0, limb3: 0 };
    let small = Word256 { limb0: 0, limb1: u64::MAX, limb2: u64::MAX, limb3: u64::MAX };
    assert!(big.ge(&small));
    assert!(!small.ge(&big));
    assert!(word(500_000_000_000).ge(&word(500_000_000_000)));
    assert!(word(500_000_000_000).ge(&word(499_999_999_999)));
    assert!(!word(499_999_999_999).ge(&word(500_000_000_000)));
}

#[test]
fn words_read_back_big_endian() {
    let w = Word256 {
        limb0: 0x0102030405060708,
        limb1: 0x1112131415161718,
        limb2: 0x2122232425262728,
        limb3: 0x3132333435363738,
    };
    let mut bytes: Vec<u8> = Vec::new();
    steel_query::word::push_word(&mut bytes, &w);
    assert_eq!(bytes.len(), 32);
    assert_eq!(bytes[0], 0x01);
    assert_eq!(bytes[31], 0x38);
    assert_eq!(read_word(&bytes, 0), w);
}

#[test]
fn padded_addresses_read_back() {
    let a = Address { head: 0xa1a2a3a4, mid: 0xb1b2b3b4b5b6b7b8, tail: 0xc1c2c3c4c5c6c7c8 };
    let mut bytes: Vec<u8> = Vec::new();
    steel_query::addr::push_addr_padded(&mut bytes, &a);
    assert_eq!(bytes.len(), 32);
    assert!(bytes[0..12].iter().all(|&b| b == 0));
    assert_eq!(bytes[12], 0xa1);
    assert_eq!(bytes[31], 0xc8);
    assert_eq!(steel_query::addr::read_addr_padded(&bytes, 0), Some(a));
    let mut tampered = bytes.clone();
    tampered[5] = 1;
    assert_eq!(steel_query::addr::read_addr_padded(&tampered, 0), None);
}
