use vstd::prelude::*;

use crate::addr::Address;
use crate::error::PipelineError;
use crate::word::{spec_word_of_u64, Word256};

verus! {

/// Tag of the storage slot holding a token balance for an account.
pub const SLOT_TAG_BALANCE: u64 = 1;

/// Tag of the storage slot holding the amount of an account's latest
/// recorded transfer.
pub const SLOT_TAG_AMOUNT: u64 = 2;

/// Tag of the storage slot holding the timestamp of that transfer.
pub const SLOT_TAG_TIMESTAMP: u64 = 3;

/// Tag of the storage slot holding the transfer's anti-replay token.
pub const SLOT_TAG_NULLIFIER: u64 = 4;

/// The storage key under which a contract keeps one typed datum for one
/// account: the tag in the most significant limb, the account's twenty
/// bytes in the rest.
pub open spec fn spec_slot_key(tag: u64, a: Address) -> Word256 {
    Word256 { limb0: tag, limb1: a.head as u64, limb2: a.mid, limb3: a.tail }
}

/// Build the storage key for a tagged per-account datum.
pub fn slot_key(tag: u64, a: &Address) -> (k: Word256)
    ensures
        k == spec_slot_key(tag, *a),
{
    Word256 { limb0: tag, limb1: a.head as u64, limb2: a.mid, limb3: a.tail }
}

/// One storage slot carried by a state bundle: a contract, a key in that
/// contract's storage, and the value the slot held at the bundle's block.
#[derive(Clone, Copy, PartialEq, Eq, Structural, Debug)]
pub struct SlotEntry {
    pub contract: Address,
    pub key: Word256,
    pub value: Word256,
}

/// The minimal, self-contained snapshot of chain state needed to answer one
/// query: the identity of the block it was drawn from, the chain, exactly
/// the storage slots the query touches, and a digest header the assembler
/// claims for that content. The digest header is never trusted: commitment
/// derivation recomputes the digest from the slots, and preflight and the
/// guest reject a bundle whose header disagrees.
#[derive(Debug)]
pub struct StateBundle {
    pub block_number: u64,
    pub chain_id: u64,
    pub state_digest: Word256,
    pub slots: Vec<SlotEntry>,
}

/// The commitment every proof claim is bound to: the block, the chain and
/// the state digest of the bundle the guest re-executed against. Host and
/// guest derive it from the bundle by this same function, so they cannot
/// silently diverge.
#[derive(Clone, Copy, PartialEq, Eq, Structural, Debug)]
pub struct StateCommitment {
    pub block_id: Word256,
    pub chain_id: u64,
    pub state_digest: Word256,
}

/// The commitment a bundle denotes: block number, chain, and the digest
/// recomputed from the bundle's slot content. The bundle's own digest
/// header never enters the commitment; it is only checked against this
/// recomputation.
pub open spec fn spec_commitment(b: StateBundle) -> StateCommitment {
    StateCommitment {
        block_id: spec_word_of_u64(b.block_number),
        chain_id: b.chain_id,
        state_digest: crate::digest::spec_slots_digest(b.slots@),
    }
}

/// Derive the state commitment from a bundle, recomputing the state digest
/// from the slot content. The guest calls this on the bundle it was handed
/// and never trusts a caller-supplied commitment or digest.
pub fn derive_commitment(b: &StateBundle) -> (c: StateCommitment)
    ensures
        c == spec_commitment(*b),
{
    StateCommitment {
        block_id: Word256::from_u64(b.block_number),
        chain_id: b.chain_id,
        state_digest: crate::digest::slots_digest(&b.slots),
    }
}

/// Two bundles denote the same commitment exactly when block number, chain
/// and the digest of their slot content all agree.
pub proof fn lemma_commitment_binding(b1: StateBundle, b2: StateBundle)
    ensures
        spec_commitment(b1) == spec_commitment(b2) <==> (b1.block_number == b2.block_number
            && b1.chain_id == b2.chain_id && crate::digest::spec_slots_digest(b1.slots@)
            == crate::digest::spec_slots_digest(b2.slots@)),
{
}

/// Tamper evidence of the commitment: bundles whose slot content digests
/// differ never denote equal commitments, whatever their headers claim. A
/// bundle whose slots were altered after assembly is detected up to
/// checksum collisions.
pub proof fn lemma_tamper_changes_commitment(b1: StateBundle, b2: StateBundle)
    requires
        crate::digest::spec_slots_digest(b1.slots@) != crate::digest::spec_slots_digest(b2.slots@),
    ensures
        spec_commitment(b1) != spec_commitment(b2),
{
}

/// A read-only query against contract state. The two shapes the pipeline
/// proves: a token balance of one account, and the latest recorded transfer
/// a receiver contract holds for one sender.
#[derive(Clone, Copy, PartialEq, Eq, Structural, Debug)]
pub enum QueryKind {
    TokenBalance { token: Address, account: Address },
    LatestTransfer { receiver: Address, sender: Address },
}

/// The typed values a query evaluates to.
#[derive(Clone, Copy, PartialEq, Eq, Structural, Debug)]
pub enum QueryOutput {
    Balance { quantity: Word256 },
    Transfer { amount: Word256, timestamp: Word256, nullifier: Word256 },
}

/// First-match lookup of a storage slot among a bundle's entries.
pub open spec fn spec_lookup(slots: Seq<SlotEntry>, c: Address, k: Word256) -> Option<Word256>
    decreases slots.len(),
{
    if slots.len() == 0 {
        None
    } else if slots[0].contract == c && slots[0].key == k {
        Some(slots[0].value)
    } else {
        spec_lookup(slots.drop_first(), c, k)
    }
}

/// Look a storage slot up in a bundle.
pub fn lookup_slot(slots: &Vec<SlotEntry>, c: &Address, k: &Word256) -> (r: Option<Word256>)
    ensures
        r == spec_lookup(slots@, *c, *k),
{
    let n: usize = slots.len();
    let mut i: usize = 0;
    proof {
        assert(slots@.skip(0) =~= slots@);
    }
    while i < n
        invariant
            0 <= i <= n,
            n == slots@.len(),
            spec_lookup(slots@, *c, *k) == spec_lookup(slots@.skip(i as int), *c, *k),
        decreases n - i,
    {
        let e = slots[i];
        proof {
            assert(slots@.skip(i as int)[0] == slots@[i as int]);
            assert(slots@.skip(i as int).drop_first() =~= slots@.skip(i as int + 1));
        }
        if e.contract == *c && e.key == *k {
            return Some(e.value);
        }
        i = i + 1;
    }
    proof {
        assert(slots@.skip(n as int) =~= Seq::<SlotEntry>::empty());
    }
    None
}

/// The authoritative evaluation of a query against a bundle's slots: read
/// exactly the slots the query touches. `None` means the bundle is
/// incomplete for this query; a request is then failed whole, never
/// answered from a partial bundle.
pub open spec fn spec_execute(slots: Seq<SlotEntry>, q: QueryKind) -> Option<QueryOutput> {
    match q {
        QueryKind::TokenBalance { token, account } => {
            match spec_lookup(slots, token, spec_slot_key(SLOT_TAG_BALANCE, account)) {
                Some(v) => Some(QueryOutput::Balance { quantity: v }),
                None => None,
            }
        },
        QueryKind::LatestTransfer { receiver, sender } => {
            let amount = spec_lookup(slots, receiver, spec_slot_key(SLOT_TAG_AMOUNT, sender));
            let timestamp = spec_lookup(
                slots,
                receiver,
                spec_slot_key(SLOT_TAG_TIMESTAMP, sender),
            );
            let nullifier = spec_lookup(
                slots,
                receiver,
                spec_slot_key(SLOT_TAG_NULLIFIER, sender),
            );
            if amount is Some && timestamp is Some && nullifier is Some {
                Some(QueryOutput::Transfer {
                    amount: amount->0,
                    timestamp: timestamp->0,
                    nullifier: nullifier->0,
                })
            } else {
                None
            }
        },
    }
}

/// Evaluate a query against a bundle, reading the slots it touches.
pub fn execute_call(b: &StateBundle, q: &QueryKind) -> (r: Result<QueryOutput, PipelineError>)
    ensures
        match r {
            Ok(out) => spec_execute(b.slots@, *q) == Some(out),
            Err(e) => spec_execute(b.slots@, *q) is None && e == PipelineError::MissingState,
        },
{
    match q {
        QueryKind::TokenBalance { token, account } => {
            let key = slot_key(SLOT_TAG_BALANCE, account);
            match lookup_slot(&b.slots, token, &key) {
                Some(v) => Ok(QueryOutput::Balance { quantity: v }),
                None => Err(PipelineError::MissingState),
            }
        },
        QueryKind::LatestTransfer { receiver, sender } => {
            let amount_key = slot_key(SLOT_TAG_AMOUNT, sender);
            let timestamp_key = slot_key(SLOT_TAG_TIMESTAMP, sender);
            let nullifier_key = slot_key(SLOT_TAG_NULLIFIER, sender);
            let amount = lookup_slot(&b.slots, receiver, &amount_key);
            let timestamp = lookup_slot(&b.slots, receiver, &timestamp_key);
            let nullifier = lookup_slot(&b.slots, receiver, &nullifier_key);
            match (amount, timestamp, nullifier) {
                (Some(a), Some(t), Some(n)) => Ok(QueryOutput::Transfer {
                    amount: a,
                    timestamp: t,
                    nullifier: n,
                }),
                _ => Err(PipelineError::MissingState),
            }
        },
    }
}

/// The outputs a query can produce have its own shape: a balance query
/// yields a balance, a transfer query yields a transfer record.
pub open spec fn spec_shapes_match(q: QueryKind, out: QueryOutput) -> bool {
    match (q, out) {
        (QueryKind::TokenBalance { .. }, QueryOutput::Balance { .. }) => true,
        (QueryKind::LatestTransfer { .. }, QueryOutput::Transfer { .. }) => true,
        _ => false,
    }
}

/// Executing a query only ever yields an output of the query's shape.
pub proof fn lemma_execute_shape(slots: Seq<SlotEntry>, q: QueryKind)
    ensures
        spec_execute(slots, q) matches Some(out) ==> spec_shapes_match(q, out),
{
}

/// The storage slots a query touches, as (contract, key) pairs in the
/// order the query reads them. The host assembles a bundle by fetching
/// exactly these slots.
pub open spec fn spec_query_plan(q: QueryKind) -> Seq<(Address, Word256)> {
    match q {
        QueryKind::TokenBalance { token, account } => seq![
            (token, spec_slot_key(SLOT_TAG_BALANCE, account)),
        ],
        QueryKind::LatestTransfer { receiver, sender } => seq![
            (receiver, spec_slot_key(SLOT_TAG_AMOUNT, sender)),
            (receiver, spec_slot_key(SLOT_TAG_TIMESTAMP, sender)),
            (receiver, spec_slot_key(SLOT_TAG_NULLIFIER, sender)),
        ],
    }
}

/// List the storage slots a query touches.
pub fn query_slot_plan(q: &QueryKind) -> (r: Vec<(Address, Word256)>)
    ensures
        r@ == spec_query_plan(*q),
{
    let mut out: Vec<(Address, Word256)> = Vec::new();
    match q {
        QueryKind::TokenBalance { token, account } => {
            out.push((*token, slot_key(SLOT_TAG_BALANCE, account)));
        },
        QueryKind::LatestTransfer { receiver, sender } => {
            out.push((*receiver, slot_key(SLOT_TAG_AMOUNT, sender)));
            out.push((*receiver, slot_key(SLOT_TAG_TIMESTAMP, sender)));
            out.push((*receiver, slot_key(SLOT_TAG_NULLIFIER, sender)));
        },
    }
    proof {
        assert(out@ =~= spec_query_plan(*q));
    }
    out
}

/// The plan is sufficient: a bundle holding every slot of a query's plan
/// can answer the query.
pub proof fn lemma_plan_sufficient(slots: Seq<SlotEntry>, q: QueryKind)
    requires
        forall|i: int|
            #![trigger spec_query_plan(q)[i]]
            0 <= i < spec_query_plan(q).len() ==> spec_lookup(
                slots,
                spec_query_plan(q)[i].0,
                spec_query_plan(q)[i].1,
            ) is Some,
    ensures
        spec_execute(slots, q) is Some,
{
    let plan = spec_query_plan(q);
    match q {
        QueryKind::TokenBalance { token, account } => {
            assert(plan[0] == (token, spec_slot_key(SLOT_TAG_BALANCE, account)));
        },
        QueryKind::LatestTransfer { receiver, sender } => {
            assert(plan[0] == (receiver, spec_slot_key(SLOT_TAG_AMOUNT, sender)));
            assert(plan[1] == (receiver, spec_slot_key(SLOT_TAG_TIMESTAMP, sender)));
            assert(plan[2] == (receiver, spec_slot_key(SLOT_TAG_NULLIFIER, sender)));
        },
    }
}

/// The block a request is served from: the parent of the latest block,
/// strictly older than the head by one, so assembly sits clear of chain
/// reorganisation. `None` when the chain has no parent block yet.
pub fn parent_block_number(latest: u64) -> (r: Option<u64>)
    ensures
        latest == 0 ==> r is None,
        latest > 0 ==> r == Some((latest - 1) as u64),
{
    if latest == 0 {
        None
    } else {
        Some(latest - 1)
    }
}

} // verus!
