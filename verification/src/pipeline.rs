use vstd::prelude::*;

use crate::error::PipelineError;
use crate::inputs::{
    decode_inputs, encode_inputs, lemma_inputs_roundtrip, spec_decode_inputs, spec_encode_inputs,
};
use crate::journal::{
    decode_journal, encode_journal, lemma_journal_roundtrip, spec_decode_journal,
    spec_encode_journal, Journal,
};
use crate::predicate::{
    check_predicate, spec_predicate, spec_predicate_error, MIN_TOKEN_BALANCE,
    MIN_TRANSFER_AMOUNT_WEI,
};
use crate::receipt::{encode_seal, spec_encode_seal, ProofKind, ReceiptData};
use crate::state::{
    derive_commitment, execute_call, lemma_execute_shape, spec_commitment, spec_execute,
    spec_shapes_match, QueryKind, QueryOutput, SlotEntry, StateBundle, StateCommitment,
};
use crate::word::{spec_word_of_u64, Word256};

verus! {

/// The commitment denoted by the header fields of a bundle or of a decoded
/// input stream.
pub open spec fn spec_commitment_parts(
    block_number: u64,
    chain_id: u64,
    state_digest: Word256,
) -> StateCommitment {
    StateCommitment {
        block_id: spec_word_of_u64(block_number),
        chain_id: chain_id,
        state_digest: state_digest,
    }
}

/// The journal the guest commits for a query and its freshly computed
/// output, bound to a commitment: `None` only on an output of the wrong
/// shape, which execution never produces.
pub open spec fn spec_build_journal(c: StateCommitment, q: QueryKind, out: QueryOutput) -> Option<
    Journal,
> {
    match (q, out) {
        (QueryKind::TokenBalance { token, .. }, QueryOutput::Balance { quantity }) => Some(
            Journal::Balance { commitment: c, token_contract: token, quantity },
        ),
        (
            QueryKind::LatestTransfer { sender, .. },
            QueryOutput::Transfer { amount, timestamp, nullifier },
        ) => Some(Journal::Transfer { commitment: c, from: sender, amount, timestamp, nullifier }),
        _ => None,
    }
}

/// What the guest circuit commits for given state and query: a journal
/// exactly when the bundle's digest header matches the digest recomputed
/// from its slots, the state answers the query, and the answer passes the
/// predicate. There is no path to a journal for a failing predicate or a
/// tampered bundle, and the committed commitment always carries the
/// recomputed digest.
pub open spec fn spec_guest_journal(
    block_number: u64,
    chain_id: u64,
    state_digest: Word256,
    slots: Seq<SlotEntry>,
    q: QueryKind,
) -> Option<Journal> {
    if state_digest != crate::digest::spec_slots_digest(slots) {
        None
    } else {
        match spec_execute(slots, q) {
            Some(out) => {
                if spec_predicate(q, out) {
                    spec_build_journal(
                        spec_commitment_parts(
                            block_number,
                            chain_id,
                            crate::digest::spec_slots_digest(slots),
                        ),
                        q,
                        out,
                    )
                } else {
                    None
                }
            },
            None => None,
        }
    }
}

/// The guest circuit as a function of the raw input stream: the journal
/// bytes it commits, or nothing.
pub open spec fn spec_guest_output(input: Seq<u8>) -> Option<Seq<u8>> {
    match spec_decode_inputs(input) {
        Some(m) => {
            match spec_guest_journal(m.0, m.1, m.2, m.3, m.4) {
                Some(j) => Some(spec_encode_journal(j)),
                None => None,
            }
        },
        None => None,
    }
}

/// Build the journal for a query and its output.
pub fn build_journal(c: StateCommitment, q: &QueryKind, out: &QueryOutput) -> (r: Journal)
    requires
        spec_shapes_match(*q, *out),
    ensures
        Some(r) == spec_build_journal(c, *q, *out),
{
    match (q, out) {
        (QueryKind::TokenBalance { token, .. }, QueryOutput::Balance { quantity }) =>
            Journal::Balance { commitment: c, token_contract: *token, quantity: *quantity },
        (
            QueryKind::LatestTransfer { sender, .. },
            QueryOutput::Transfer { amount, timestamp, nullifier },
        ) => Journal::Transfer {
            commitment: c,
            from: *sender,
            amount: *amount,
            timestamp: *timestamp,
            nullifier: *nullifier,
        },
        _ => {
            proof {
                assert(false);
            }
            Journal::Balance {
                commitment: c,
                token_contract: crate::addr::Address { head: 0, mid: 0, tail: 0 },
                quantity: Word256 { limb0: 0, limb1: 0, limb2: 0, limb3: 0 },
            }
        },
    }
}

/// Host-side preflight: evaluate the query against the assembled bundle
/// and enforce the predicate, without the proving machine. Its only
/// purpose is early rejection: `Ok` exactly when the bundle's digest
/// header matches its slot content, the state answers the query and the
/// answer passes the predicate; the specific business rejection or
/// state-access error otherwise. It is advisory — the guest re-checks
/// everything.
pub fn preflight(b: &StateBundle, q: &QueryKind) -> (r: Result<QueryOutput, PipelineError>)
    ensures
        match r {
            Ok(out) => b.state_digest == crate::digest::spec_slots_digest(b.slots@)
                && spec_execute(b.slots@, *q) == Some(out) && spec_predicate(*q, out),
            Err(e) => ({
                if b.state_digest != crate::digest::spec_slots_digest(b.slots@) {
                    e == PipelineError::StateDigestMismatch
                } else {
                    match spec_execute(b.slots@, *q) {
                        Some(out) => !spec_predicate(*q, out) && e == spec_predicate_error(
                            *q,
                            out,
                        ),
                        None => e == PipelineError::MissingState,
                    }
                }
            }),
        },
{
    let digest = crate::digest::slots_digest(&b.slots);
    if !(b.state_digest == digest) {
        return Err(PipelineError::StateDigestMismatch);
    }
    let out = match execute_call(b, q) {
        Ok(out) => out,
        Err(e) => {
            return Err(e);
        },
    };
    match check_predicate(q, &out) {
        Ok(()) => Ok(out),
        Err(e) => Err(e),
    }
}

/// The guest circuit's decision on decoded inputs: derive the commitment
/// from the bundle itself (recomputing the state digest from the slots and
/// rejecting a bundle whose digest header disagrees), re-execute the
/// query, re-check the predicate, and only then build the journal. The
/// host's preflight result is not an input to any step.
pub fn guest_evaluate(b: &StateBundle, q: &QueryKind) -> (r: Result<Journal, PipelineError>)
    ensures
        match r {
            Ok(j) => spec_guest_journal(b.block_number, b.chain_id, b.state_digest, b.slots@, *q)
                == Some(j),
            Err(e) => spec_guest_journal(b.block_number, b.chain_id, b.state_digest, b.slots@, *q)
                is None && ({
                if b.state_digest != crate::digest::spec_slots_digest(b.slots@) {
                    e == PipelineError::StateDigestMismatch
                } else {
                    match spec_execute(b.slots@, *q) {
                        Some(out) => !spec_predicate(*q, out) && e == spec_predicate_error(
                            *q,
                            out,
                        ),
                        None => e == PipelineError::MissingState,
                    }
                }
            }),
        },
{
    let commitment = derive_commitment(b);
    if !(commitment.state_digest == b.state_digest) {
        return Err(PipelineError::StateDigestMismatch);
    }
    let out = match execute_call(b, q) {
        Ok(out) => out,
        Err(e) => {
            return Err(e);
        },
    };
    if let Err(e) = check_predicate(q, &out) {
        return Err(e);
    }
    proof {
        lemma_execute_shape(b.slots@, *q);
    }
    Ok(build_journal(commitment, q, &out))
}

/// The guest circuit, end to end: decode the fixed-order input stream,
/// evaluate, and commit the encoded journal. Returns the journal bytes
/// exactly when the inputs are well formed, the state answers the query
/// and the predicate holds.
pub fn guest_run(input: &[u8]) -> (r: Result<Vec<u8>, PipelineError>)
    ensures
        match r {
            Ok(jb) => spec_guest_output(input@) == Some(jb@),
            Err(e) => spec_guest_output(input@) is None,
        },
{
    let (bundle, q) = match decode_inputs(input) {
        Ok(p) => p,
        Err(e) => {
            return Err(e);
        },
    };
    let j = match guest_evaluate(&bundle, &q) {
        Ok(j) => j,
        Err(e) => {
            return Err(e);
        },
    };
    Ok(encode_journal(&j))
}

/// Preflight, then package the inputs for proof synthesis: the host-side
/// steps between state assembly and the proving backend. `Ok` carries the
/// observed output (advisory) and the exact input stream for the guest.
pub fn prepare_proof_inputs(b: &StateBundle, q: &QueryKind) -> (r: Result<
    (QueryOutput, Vec<u8>),
    PipelineError,
>)
    ensures
        match r {
            Ok(p) => b.state_digest == crate::digest::spec_slots_digest(b.slots@)
                && spec_execute(b.slots@, *q) == Some(p.0) && spec_predicate(*q, p.0)
                && p.1@ == spec_encode_inputs(b.block_number, b.chain_id, b.state_digest, b.slots@, *q),
            Err(e) => ({
                if b.state_digest != crate::digest::spec_slots_digest(b.slots@) {
                    e == PipelineError::StateDigestMismatch
                } else {
                    match spec_execute(b.slots@, *q) {
                        Some(out) => !spec_predicate(*q, out) && e == spec_predicate_error(
                            *q,
                            out,
                        ),
                        None => e == PipelineError::MissingState,
                    }
                }
            }),
        },
{
    let out = match preflight(b, q) {
        Ok(out) => out,
        Err(e) => {
            return Err(e);
        },
    };
    let bytes = encode_inputs(b, q);
    Ok((out, bytes))
}

/// What the pipeline hands back for a successful request: the decoded
/// journal, the raw journal bytes, and the encoded seal.
#[derive(Debug)]
pub struct ProofArtifacts {
    pub journal: Journal,
    pub journal_bytes: Vec<u8>,
    pub seal: Vec<u8>,
}

/// Turn a proving-backend receipt into the response artifacts: decode and
/// validate the journal bytes, and encode the seal. Fails exactly on a
/// journal that no guest could have committed or on a receipt without a
/// verifier-compatible proof.
pub fn finalize_receipt(r: &ReceiptData) -> (a: Result<ProofArtifacts, PipelineError>)
    ensures
        match a {
            Ok(art) => spec_decode_journal(r.journal@) == Some(art.journal) && art.journal_bytes@
                == r.journal@ && (r.kind matches ProofKind::Succinct { selector } && art.seal@
                == spec_encode_seal(selector, r.proof_bytes@)),
            Err(e) => (spec_decode_journal(r.journal@) is None && e
                == PipelineError::InvalidJournal) || (spec_decode_journal(r.journal@) is Some
                && r.kind is Unsupported && e == PipelineError::InvalidReceipt),
        },
{
    let journal = match decode_journal(r.journal.as_slice()) {
        Ok(j) => j,
        Err(e) => {
            return Err(e);
        },
    };
    let seal = match encode_seal(r) {
        Ok(s) => s,
        Err(e) => {
            return Err(e);
        },
    };
    let mut journal_bytes: Vec<u8> = Vec::new();
    let n: usize = r.journal.len();
    let mut i: usize = 0;
    while i < n
        invariant
            0 <= i <= n,
            n == r.journal@.len(),
            journal_bytes@ == r.journal@.subrange(0, i as int),
        decreases n - i,
    {
        journal_bytes.push(r.journal[i]);
        i = i + 1;
        proof {
            assert(journal_bytes@ =~= r.journal@.subrange(0, i as int));
        }
    }
    proof {
        assert(r.journal@.subrange(0, n as int) =~= r.journal@);
    }
    Ok(ProofArtifacts { journal, journal_bytes, seal })
}

/// What a downstream verifier accepts of a decoded journal: the same
/// application predicate the guest enforced, now on the journal's public
/// fields.
pub open spec fn spec_journal_admissible(j: Journal) -> bool {
    match j {
        Journal::Balance { quantity, .. } => quantity.value() >= MIN_TOKEN_BALANCE,
        Journal::Transfer { amount, nullifier, .. } => amount.value() >= MIN_TRANSFER_AMOUNT_WEI
            && nullifier.value() != 0,
    }
}

/// The downstream check on a decoded journal.
pub fn journal_admissible(j: &Journal) -> (r: bool)
    ensures
        r == spec_journal_admissible(*j),
{
    match j {
        Journal::Balance { quantity, .. } => {
            let min = Word256::from_u64(MIN_TOKEN_BALANCE);
            quantity.ge(&min)
        },
        Journal::Transfer { amount, nullifier, .. } => {
            let min = Word256::from_u64(MIN_TRANSFER_AMOUNT_WEI);
            amount.ge(&min) && !nullifier.is_zero()
        },
    }
}

/// Anti-replay: a transfer journal whose anti-replay token is zero is
/// never accepted by the downstream verifier check.
pub proof fn lemma_zero_token_never_accepted(j: Journal)
    requires
        j matches Journal::Transfer { nullifier, .. } && nullifier.value() == 0,
    ensures
        !spec_journal_admissible(j),
{
}

/// Every journal the guest can commit passes the downstream check: the
/// predicate enforced inside the circuit is the one the verifier applies.
pub proof fn lemma_guest_journal_admissible(
    block_number: u64,
    chain_id: u64,
    state_digest: Word256,
    slots: Seq<SlotEntry>,
    q: QueryKind,
)
    ensures
        spec_guest_journal(block_number, chain_id, state_digest, slots, q) matches Some(j)
            ==> spec_journal_admissible(j),
{
}

/// Soundness of predicate enforcement: whenever the true state's answer
/// fails the predicate, the guest commits nothing — on those inputs no
/// journal, and so no proof, is obtainable.
pub proof fn lemma_failing_predicate_no_journal(
    input: Seq<u8>,
    block_number: u64,
    chain_id: u64,
    state_digest: Word256,
    slots: Seq<SlotEntry>,
    q: QueryKind,
    out: QueryOutput,
)
    requires
        spec_decode_inputs(input) == Some((block_number, chain_id, state_digest, slots, q)),
        spec_execute(slots, q) == Some(out),
        !spec_predicate(q, out),
    ensures
        spec_guest_output(input) is None,
{
}

/// Commitment integrity: every journal the guest commits carries exactly
/// the commitment derived from the bundle it was handed — the same
/// function of block number, chain and state digest the host uses.
pub proof fn lemma_guest_commitment_binding(b: StateBundle, q: QueryKind)
    ensures
        spec_guest_journal(b.block_number, b.chain_id, b.state_digest, b.slots@, q)
            matches Some(j) ==> j.spec_commitment_field() == spec_commitment(b),
{
    let r = spec_guest_journal(b.block_number, b.chain_id, b.state_digest, b.slots@, q);
    if r is Some {
        assert(spec_commitment_parts(
            b.block_number,
            b.chain_id,
            crate::digest::spec_slots_digest(b.slots@),
        ) == spec_commitment(b));
    }
}

/// Tamper evidence, end to end: a bundle whose slot content differs from
/// the honest bundle's (its slot digest differs) can never make the guest
/// commit a journal carrying the honest bundle's commitment — either the
/// guest rejects it, or the committed commitment differs.
pub proof fn lemma_tampered_bundle_detected(
    honest: StateBundle,
    tampered: StateBundle,
    q: QueryKind,
)
    requires
        crate::digest::spec_slots_digest(tampered.slots@) != crate::digest::spec_slots_digest(
            honest.slots@,
        ),
    ensures
        spec_guest_journal(
            tampered.block_number,
            tampered.chain_id,
            tampered.state_digest,
            tampered.slots@,
            q,
        ) matches Some(j) ==> j.spec_commitment_field() != spec_commitment(honest),
{
    let r = spec_guest_journal(
        tampered.block_number,
        tampered.chain_id,
        tampered.state_digest,
        tampered.slots@,
        q,
    );
    if r is Some {
        let j = r->0;
        assert(j.spec_commitment_field().state_digest == crate::digest::spec_slots_digest(
            tampered.slots@,
        ));
        assert(spec_commitment(honest).state_digest == crate::digest::spec_slots_digest(
            honest.slots@,
        ));
    }
}

/// Preflight/guest agreement: on any request that passes preflight (its
/// digest header matches the slots, the state answers the query, the
/// predicate holds), the guest, run on exactly the inputs the packager
/// serialized, commits a journal, and that journal decodes back to the
/// preflight's own typed outputs under the bundle's commitment. Preflight
/// admits no false positives under unchanged state.
pub proof fn lemma_preflight_guest_agreement(b: StateBundle, q: QueryKind, out: QueryOutput)
    requires
        b.state_digest == crate::digest::spec_slots_digest(b.slots@),
        spec_execute(b.slots@, q) == Some(out),
        spec_predicate(q, out),
        b.slots@.len() <= 0xffffffffffffffff,
    ensures
        ({
            let input = spec_encode_inputs(b.block_number, b.chain_id, b.state_digest, b.slots@, q);
            let j = spec_build_journal(spec_commitment(b), q, out);
            j is Some && spec_guest_output(input) == Some(spec_encode_journal(j->0))
                && spec_decode_journal(spec_encode_journal(j->0)) == j
        }),
{
    lemma_execute_shape(b.slots@, q);
    lemma_inputs_roundtrip(b.block_number, b.chain_id, b.state_digest, b.slots@, q);
    let j = spec_build_journal(spec_commitment(b), q, out);
    assert(spec_commitment_parts(
        b.block_number,
        b.chain_id,
        crate::digest::spec_slots_digest(b.slots@),
    ) == spec_commitment(b));
    lemma_journal_roundtrip(j->0);
}

} // verus!
