use steel_query::addr::{parse_hex_u64_text, parse_hex_word, Address};
use steel_query::state::{parent_block_number, query_slot_plan, slot_key, QueryKind, SLOT_TAG_AMOUNT, SLOT_TAG_BALANCE, SLOT_TAG_NULLIFIER, SLOT_TAG_TIMESTAMP};
use steel_query::word::Word256;

fn addr(head: u32, mid: u64, tail: u64) -> Address {
    Address { head, mid, tail }
}

#[test]
fn hex_u64_text_parses_chain_quantities() {
    assert_eq!(parse_hex_u64_text(b"0x0"), Some(0));
    assert_eq!(parse_hex_u64_text(b"0x1b4"), Some(436));
    assert_eq!(parse_hex_u64_text(b"aA55467"), Some(0xaa55467));
    assert_eq!(parse_hex_u64_text(b"ffffffffffffffff"), Some(u64::MAX));
    assert_eq!(parse_hex_u64_text(b"0x"), None);
    assert_eq!(parse_hex_u64_text(b"0x10000000000000000"), None); // 17 digits
    assert_eq!(parse_hex_u64_text(b"0x12g4"), None);
}

#[test]
fn hex_word_text_parses_storage_values() {
    assert_eq!(
        parse_hex_word(b"0x2a"),
        Some(Word256 { limb0: 0, limb1: 0, limb2: 0, limb3: 0x2a })
    );
    assert_eq!(
        parse_hex_word(b"0x0102030405060708090a0b0c0d0e0f101112131415161718191a1b1c1d1e1f20"),
        Some(Word256 {
            limb0: 0x0102030405060708,
            limb1: 0x090a0b0c0d0e0f10,
            limb2: 0x1112131415161718,
            limb3: 0x191a1b1c1d1e1f20,
        })
    );
    assert_eq!(parse_hex_word(b""), None);
    assert_eq!(parse_hex_word(b"0x"), None);
    // 65 digits
    assert_eq!(
        parse_hex_word(b"10102030405060708090a0b0c0d0e0f101112131415161718191a1b1c1d1e1f20"),
        None
    );
    assert_eq!(parse_hex_word(b"0xzz"), None);
}

#[test]
fn parent_block_is_strictly_older_by_one() {
    assert_eq!(parent_block_number(0), None);
    assert_eq!(parent_block_number(1), Some(0));
    assert_eq!(parent_block_number(1_000_000), Some(999_999));
}

#[test]
fn slot_plan_names_exactly_the_slots_a_query_reads() {
    let token = addr(1, 2, 3);
    let account = addr(4, 5, 6);
    let plan = query_slot_plan(&QueryKind::TokenBalance { token, account });
    assert_eq!(plan, vec![(token, slot_key(SLOT_TAG_BALANCE, &account))]);

    let receiver = addr(7, 8, 9);
    let plan = query_slot_plan(&QueryKind::LatestTransfer { receiver, sender: account });
    assert_eq!(
        plan,
        vec![
            (receiver, slot_key(SLOT_TAG_AMOUNT, &account)),
            (receiver, slot_key(SLOT_TAG_TIMESTAMP, &account)),
            (receiver, slot_key(SLOT_TAG_NULLIFIER, &account)),
        ]
    );
}
