use steel_query::addr::Address;
use steel_query::digest::slots_digest;
use steel_query::error::{ErrorKind, PipelineError};
use steel_query::journal::{decode_journal, Journal};
use steel_query::pipeline::{
    finalize_receipt, guest_run, journal_admissible, prepare_proof_inputs, preflight,
};
use steel_query::receipt::{ProofKind, ReceiptData};
use steel_query::state::{
    derive_commitment, slot_key, QueryKind, QueryOutput, SlotEntry, StateBundle, StateCommitment,
    SLOT_TAG_AMOUNT, SLOT_TAG_BALANCE, SLOT_TAG_NULLIFIER, SLOT_TAG_TIMESTAMP,
};
use steel_query::word::Word256;

fn word(x: u64) -> Word256 {
    Word256 { limb0: 0, limb1: 0, limb2: 0, limb3: x }
}

fn token() -> Address {
    Address { head: 0xaaaa0001, mid: 2, tail: 3 }
}

fn receiver() -> Address {
    Address { head: 0xbbbb0001, mid: 4, tail: 5 }
}

fn account() -> Address {
    Address { head: 0xcccc0001, mid: 6, tail: 7 }
}

fn balance_bundle(balance: u64) -> StateBundle {
    let slots = vec![SlotEntry {
        contract: token(),
        key: slot_key(SLOT_TAG_BALANCE, &account()),
        value: word(balance),
    }];
    let state_digest = slots_digest(&slots);
    StateBundle { block_number: 1234, chain_id: 11_155_111, state_digest, slots }
}

fn transfer_bundle(amount: u64, nullifier: u64) -> StateBundle {
    let slots = vec![
        SlotEntry {
            contract: receiver(),
            key: slot_key(SLOT_TAG_AMOUNT, &account()),
            value: word(amount),
        },
        SlotEntry {
            contract: receiver(),
            key: slot_key(SLOT_TAG_TIMESTAMP, &account()),
            value: word(1_700_000_000),
        },
        SlotEntry {
            contract: receiver(),
            key: slot_key(SLOT_TAG_NULLIFIER, &account()),
            value: word(nullifier),
        },
    ];
    let state_digest = slots_digest(&slots);
    StateBundle { block_number: 5678, chain_id: 11_155_111, state_digest, slots }
}

#[test]
fn zero_balance_is_rejected_before_proving() {
    let bundle = balance_bundle(0);
    let q = QueryKind::TokenBalance { token: token(), account: account() };
    let e = prepare_proof_inputs(&bundle, &q).unwrap_err();
    assert_eq!(e, PipelineError::BalanceBelowMinimum);
    assert_eq!(e.kind(), ErrorKind::Predicate);
    assert_eq!(e.message(), "Account balance must be at least 1");
}

#[test]
fn balance_of_one_proves_and_journal_decodes() {
    let bundle = balance_bundle(1);
    let q = QueryKind::TokenBalance { token: token(), account: account() };
    let (observed, input) = prepare_proof_inputs(&bundle, &q).unwrap();
    assert_eq!(observed, QueryOutput::Balance { quantity: word(1) });
    let journal_bytes = guest_run(&input).unwrap();
    let journal = decode_journal(&journal_bytes).unwrap();
    let expected_commitment = derive_commitment(&bundle);
    assert_eq!(
        expected_commitment,
        StateCommitment {
            block_id: word(1234),
            chain_id: 11_155_111,
            state_digest: slots_digest(&bundle.slots),
        }
    );
    assert_eq!(expected_commitment.state_digest, bundle.state_digest);
    assert_eq!(
        journal,
        Journal::Balance {
            commitment: expected_commitment,
            token_contract: token(),
            quantity: word(1),
        }
    );
    assert!(journal_admissible(&journal));
}

#[test]
fn large_transfer_with_token_proves() {
    let bundle = transfer_bundle(500_000_000_000, 42);
    let q = QueryKind::LatestTransfer { receiver: receiver(), sender: account() };
    let (observed, input) = prepare_proof_inputs(&bundle, &q).unwrap();
    assert_eq!(
        observed,
        QueryOutput::Transfer {
            amount: word(500_000_000_000),
            timestamp: word(1_700_000_000),
            nullifier: word(42),
        }
    );
    let journal_bytes = guest_run(&input).unwrap();
    let journal = decode_journal(&journal_bytes).unwrap();
    assert_eq!(
        journal,
        Journal::Transfer {
            commitment: derive_commitment(&bundle),
            from: account(),
            amount: word(500_000_000_000),
            timestamp: word(1_700_000_000),
            nullifier: word(42),
        }
    );
    assert!(journal_admissible(&journal));
}

#[test]
fn transfer_one_wei_short_is_rejected_despite_token() {
    let bundle = transfer_bundle(499_999_999_999, 42);
    let q = QueryKind::LatestTransfer { receiver: receiver(), sender: account() };
    let e = prepare_proof_inputs(&bundle, &q).unwrap_err();
    assert_eq!(e, PipelineError::TransferBelowMinimum);
    assert_eq!(e.message(), "No sufficient transfers found for this address");
}

#[test]
fn zero_nullifier_is_rejected_despite_amount() {
    let bundle = transfer_bundle(600_000_000_000, 0);
    let q = QueryKind::LatestTransfer { receiver: receiver(), sender: account() };
    let e = prepare_proof_inputs(&bundle, &q).unwrap_err();
    assert_eq!(e, PipelineError::ZeroNullifier);
    assert_eq!(e.message(), "Nullifier is zero, invalid transfer");
}

#[test]
fn guest_rejects_what_preflight_rejects() {
    // The guest re-checks the predicate itself: feed it inputs for a
    // failing request directly, bypassing preflight.
    let bundle = transfer_bundle(499_999_999_999, 42);
    let q = QueryKind::LatestTransfer { receiver: receiver(), sender: account() };
    let input = steel_query::inputs::encode_inputs(&bundle, &q);
    assert_eq!(guest_run(&input).unwrap_err(), PipelineError::TransferBelowMinimum);
}

#[test]
fn missing_state_fails_whole_request() {
    // A bundle lacking the nullifier slot cannot answer the query.
    let mut bundle = transfer_bundle(600_000_000_000, 42);
    bundle.slots.pop();
    bundle.state_digest = slots_digest(&bundle.slots);
    let q = QueryKind::LatestTransfer { receiver: receiver(), sender: account() };
    let e = preflight(&bundle, &q).unwrap_err();
    assert_eq!(e, PipelineError::MissingState);
    assert_eq!(e.kind(), ErrorKind::StateAccess);
}

#[test]
fn tampered_slot_value_changes_commitment() {
    // Tampering a slot value after assembly changes the derived
    // commitment, even though every header field is untouched.
    let bundle = balance_bundle(5);
    let mut tampered = balance_bundle(5);
    tampered.slots[0].value = word(7);
    assert_ne!(derive_commitment(&bundle), derive_commitment(&tampered));
    let mut reordered = balance_bundle(5);
    reordered.block_number += 1;
    assert_ne!(derive_commitment(&bundle), derive_commitment(&reordered));
}

#[test]
fn stale_digest_header_is_rejected() {
    // A bundle whose slot content no longer matches its digest header is
    // rejected by preflight and by the guest alike.
    let mut bundle = transfer_bundle(600_000_000_000, 42);
    bundle.slots[0].value = word(700_000_000_000);
    let q = QueryKind::LatestTransfer { receiver: receiver(), sender: account() };
    let e = preflight(&bundle, &q).unwrap_err();
    assert_eq!(e, PipelineError::StateDigestMismatch);
    assert_eq!(e.kind(), ErrorKind::StateAccess);
    assert_eq!(e.message(), "state bundle digest does not match its contents");
    let input = steel_query::inputs::encode_inputs(&bundle, &q);
    assert_eq!(guest_run(&input).unwrap_err(), PipelineError::StateDigestMismatch);
}

#[test]
fn consistent_tamper_yields_a_different_commitment() {
    // An attacker who alters a slot and recomputes the digest header gets
    // past the consistency check, but the journal then carries a different
    // commitment than the honest bundle's, so the swap is detectable.
    let honest = balance_bundle(1);
    let q = QueryKind::TokenBalance { token: token(), account: account() };
    let mut tampered = balance_bundle(1);
    tampered.slots[0].value = word(1_000_000);
    tampered.state_digest = slots_digest(&tampered.slots);
    let input = steel_query::inputs::encode_inputs(&tampered, &q);
    let journal = decode_journal(&guest_run(&input).unwrap()).unwrap();
    match journal {
        Journal::Balance { commitment, .. } => {
            assert_ne!(commitment, derive_commitment(&honest));
        }
        _ => panic!("expected a balance journal"),
    }
}

#[test]
fn zero_token_journal_never_admissible() {
    let journal = Journal::Transfer {
        commitment: derive_commitment(&transfer_bundle(600_000_000_000, 0)),
        from: account(),
        amount: word(600_000_000_000),
        timestamp: word(1),
        nullifier: word(0),
    };
    assert!(!journal_admissible(&journal));
}

#[test]
fn finalize_builds_response_artifacts() {
    let bundle = balance_bundle(1);
    let q = QueryKind::TokenBalance { token: token(), account: account() };
    let (_, input) = prepare_proof_inputs(&bundle, &q).unwrap();
    let journal_bytes = guest_run(&input).unwrap();
    let receipt = ReceiptData {
        kind: ProofKind::Succinct { selector: 0x310fe598 },
        proof_bytes: vec![0xde, 0xad, 0xbe, 0xef],
        journal: journal_bytes.clone(),
    };
    let artifacts = finalize_receipt(&receipt).unwrap();
    assert_eq!(artifacts.journal_bytes, journal_bytes);
    assert_eq!(&artifacts.seal[0..4], &[0x31, 0x0f, 0xe5, 0x98]);
    assert_eq!(&artifacts.seal[4..], &[0xde, 0xad, 0xbe, 0xef]);
    assert_eq!(
        artifacts.journal,
        Journal::Balance {
            commitment: derive_commitment(&bundle),
            token_contract: token(),
            quantity: word(1),
        }
    );
}

#[test]
fn finalize_rejects_unsupported_proof() {
    let bundle = balance_bundle(1);
    let q = QueryKind::TokenBalance { token: token(), account: account() };
    let (_, input) = prepare_proof_inputs(&bundle, &q).unwrap();
    let receipt = ReceiptData {
        kind: ProofKind::Unsupported,
        proof_bytes: vec![],
        journal: guest_run(&input).unwrap(),
    };
    assert_eq!(finalize_receipt(&receipt).unwrap_err(), PipelineError::InvalidReceipt);
}

#[test]
fn finalize_rejects_garbled_journal() {
    let receipt = ReceiptData {
        kind: ProofKind::Succinct { selector: 1 },
        proof_bytes: vec![1],
        journal: vec![0u8; 33],
    };
    assert_eq!(finalize_receipt(&receipt).unwrap_err(), PipelineError::InvalidJournal);
}
