use steel_query::addr::{parse_address, Address};
use steel_query::error::PipelineError;
use steel_query::inputs::{decode_inputs, encode_inputs};
use steel_query::journal::{decode_journal, encode_journal, Journal, BALANCE_JOURNAL_LEN, TRANSFER_JOURNAL_LEN};
use steel_query::receipt::{decode_seal, encode_seal, ProofKind, ReceiptData};
use steel_query::state::{QueryKind, SlotEntry, StateBundle, StateCommitment};
use steel_query::word::Word256;

fn word(x: u64) -> Word256 {
    Word256 { limb0: 0, limb1: 0, limb2: 0, limb3: x }
}

fn full_word(a: u64, b: u64, c: u64, d: u64) -> Word256 {
    Word256 { limb0: a, limb1: b, limb2: c, limb3: d }
}

fn addr(head: u32, mid: u64, tail: u64) -> Address {
    Address { head, mid, tail }
}

fn commitment() -> StateCommitment {
    StateCommitment {
        block_id: word(7_654_321),
        chain_id: 11_155_111,
        state_digest: full_word(0x1111, 0x2222, 0x3333, 0x4444),
    }
}

#[test]
fn parse_address_with_prefix() {
    let a = parse_address(b"0x00112233445566778899aabbccddeeff00112233").unwrap();
    assert_eq!(a, addr(0x00112233, 0x445566778899aabb, 0xccddeeff00112233));
}

#[test]
fn parse_address_without_prefix() {
    let a = parse_address(b"FFEEDDCCBBAA99887766554433221100FFEEDDCC").unwrap();
    assert_eq!(a, addr(0xffeeddcc, 0xbbaa998877665544, 0x33221100ffeeddcc));
}

#[test]
fn parse_address_rejects_bad_input() {
    assert_eq!(
        parse_address(b"0x123").unwrap_err(),
        PipelineError::InvalidAddress
    );
    assert_eq!(
        parse_address(b"0x0011223344556677g899aabbccddeeff00112233").unwrap_err(),
        PipelineError::InvalidAddress
    );
    assert_eq!(parse_address(b"").unwrap_err(), PipelineError::InvalidAddress);
}

#[test]
fn balance_journal_roundtrips() {
    let j = Journal::Balance {
        commitment: commitment(),
        token_contract: addr(0xaabbccdd, 1, 2),
        quantity: word(1),
    };
    let bytes = encode_journal(&j);
    assert_eq!(bytes.len(), BALANCE_JOURNAL_LEN);
    assert_eq!(decode_journal(&bytes).unwrap(), j);
}

#[test]
fn transfer_journal_roundtrips() {
    let j = Journal::Transfer {
        commitment: commitment(),
        from: addr(0x01020304, 0x05060708090a0b0c, 0x0d0e0f1011121314),
        amount: word(500_000_000_000),
        timestamp: word(1_700_000_000),
        nullifier: full_word(9, 8, 7, 6),
    };
    let bytes = encode_journal(&j);
    assert_eq!(bytes.len(), TRANSFER_JOURNAL_LEN);
    assert_eq!(decode_journal(&bytes).unwrap(), j);
}

#[test]
fn journal_decode_rejects_bad_length() {
    assert_eq!(
        decode_journal(&[0u8; 100]).unwrap_err(),
        PipelineError::InvalidJournal
    );
    assert_eq!(decode_journal(&[]).unwrap_err(), PipelineError::InvalidJournal);
}

#[test]
fn journal_decode_rejects_bad_address_padding() {
    let j = Journal::Balance {
        commitment: commitment(),
        token_contract: addr(1, 2, 3),
        quantity: word(5),
    };
    let mut bytes = encode_journal(&j);
    bytes[96] = 1; // first padding byte of the address field
    assert_eq!(decode_journal(&bytes).unwrap_err(), PipelineError::InvalidJournal);
}

#[test]
fn journal_decode_rejects_wide_chain_word() {
    let j = Journal::Balance {
        commitment: commitment(),
        token_contract: addr(1, 2, 3),
        quantity: word(5),
    };
    let mut bytes = encode_journal(&j);
    bytes[32] = 1; // highest byte of the chain identifier word
    assert_eq!(decode_journal(&bytes).unwrap_err(), PipelineError::InvalidJournal);
}

#[test]
fn journal_encoding_is_big_endian_fixed_order() {
    let j = Journal::Balance {
        commitment: StateCommitment {
            block_id: word(1),
            chain_id: 2,
            state_digest: word(3),
        },
        token_contract: addr(0, 0, 4),
        quantity: word(5),
    };
    let bytes = encode_journal(&j);
    assert_eq!(bytes[31], 1); // block identifier word
    assert_eq!(bytes[63], 2); // chain identifier word
    assert_eq!(bytes[95], 3); // state digest word
    assert_eq!(bytes[127], 4); // padded token contract
    assert_eq!(bytes[159], 5); // quantity word
    assert!(bytes[96..108].iter().all(|&b| b == 0));
}

fn sample_bundle() -> StateBundle {
    StateBundle {
        block_number: 1000,
        chain_id: 11_155_111,
        state_digest: full_word(1, 2, 3, 4),
        slots: vec![
            SlotEntry { contract: addr(1, 1, 1), key: word(10), value: word(20) },
            SlotEntry { contract: addr(2, 2, 2), key: word(30), value: full_word(4, 3, 2, 1) },
        ],
    }
}

#[test]
fn inputs_roundtrip() {
    let bundle = sample_bundle();
    let q = QueryKind::LatestTransfer { receiver: addr(2, 2, 2), sender: addr(9, 9, 9) };
    let bytes = encode_inputs(&bundle, &q);
    assert_eq!(bytes.len(), 256 + 96 * 2);
    let (decoded, dq) = decode_inputs(&bytes).unwrap();
    assert_eq!(dq, q);
    assert_eq!(decoded.block_number, bundle.block_number);
    assert_eq!(decoded.chain_id, bundle.chain_id);
    assert_eq!(decoded.state_digest, bundle.state_digest);
    assert_eq!(decoded.slots, bundle.slots);
}

#[test]
fn inputs_decode_rejects_wrong_version() {
    let bundle = sample_bundle();
    let q = QueryKind::TokenBalance { token: addr(1, 1, 1), account: addr(9, 9, 9) };
    let mut bytes = encode_inputs(&bundle, &q);
    bytes[31] = 99; // version word
    assert_eq!(
        decode_inputs(&bytes).unwrap_err(),
        PipelineError::MalformedGuestInput
    );
}

#[test]
fn inputs_decode_rejects_truncation() {
    let bundle = sample_bundle();
    let q = QueryKind::TokenBalance { token: addr(1, 1, 1), account: addr(9, 9, 9) };
    let mut bytes = encode_inputs(&bundle, &q);
    bytes.pop();
    assert_eq!(
        decode_inputs(&bytes).unwrap_err(),
        PipelineError::MalformedGuestInput
    );
}

#[test]
fn inputs_decode_rejects_unknown_query_tag() {
    let bundle = sample_bundle();
    let q = QueryKind::TokenBalance { token: addr(1, 1, 1), account: addr(9, 9, 9) };
    let mut bytes = encode_inputs(&bundle, &q);
    let tag_word_last = 160 + 96 * 2 + 31;
    bytes[tag_word_last] = 7;
    assert_eq!(
        decode_inputs(&bytes).unwrap_err(),
        PipelineError::MalformedGuestInput
    );
}

#[test]
fn seal_roundtrips() {
    let r = ReceiptData {
        kind: ProofKind::Succinct { selector: 0x310fe598 },
        proof_bytes: vec![1, 2, 3, 4, 5],
        journal: vec![],
    };
    let seal = encode_seal(&r).unwrap();
    assert_eq!(&seal[0..4], &[0x31, 0x0f, 0xe5, 0x98]);
    let (selector, body) = decode_seal(&seal).unwrap();
    assert_eq!(selector, 0x310fe598);
    assert_eq!(body, vec![1, 2, 3, 4, 5]);
}

#[test]
fn seal_rejects_unsupported_proof() {
    let r = ReceiptData { kind: ProofKind::Unsupported, proof_bytes: vec![1], journal: vec![] };
    assert_eq!(encode_seal(&r).unwrap_err(), PipelineError::InvalidReceipt);
    assert_eq!(decode_seal(&[1, 2]).unwrap_err(), PipelineError::InvalidReceipt);
}
