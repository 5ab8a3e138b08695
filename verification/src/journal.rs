use vstd::prelude::*;

use crate::addr::{
    lemma_addr_padded_roundtrip, push_addr_padded, read_addr_padded, spec_addr_of_padded,
    spec_addr_padded, spec_addr_padding_ok, Address,
};
use crate::error::PipelineError;
use crate::state::StateCommitment;
use crate::word::{
    lemma_concat_parts, lemma_subrange_of_subrange,
    lemma_word_bytes_len, lemma_word_bytes_roundtrip, push_word, read_word, spec_word_bytes, spec_word_of_bytes,
    spec_word_of_u64, Word256,
};

verus! {

/// The public record a proof commits to: the state commitment it is bound
/// to, then the query's typed outputs, in a fixed field order. The byte
/// layout below is the wire contract with the on-chain verifier.
#[derive(Clone, Copy, PartialEq, Eq, Structural, Debug)]
pub enum Journal {
    /// A proven balance query: the token contract asked about and the
    /// account's balance in it.
    Balance { commitment: StateCommitment, token_contract: Address, quantity: Word256 },
    /// A proven transfer query: the sender asked about, the recorded
    /// amount and timestamp, and the anti-replay token.
    Transfer {
        commitment: StateCommitment,
        from: Address,
        amount: Word256,
        timestamp: Word256,
        nullifier: Word256,
    },
}

impl Journal {
    /// The state commitment a journal is bound to.
    pub open spec fn spec_commitment_field(self) -> StateCommitment {
        match self {
            Journal::Balance { commitment, .. } => commitment,
            Journal::Transfer { commitment, .. } => commitment,
        }
    }
}

/// Length in bytes of an encoded balance journal: five 32-byte fields.
pub const BALANCE_JOURNAL_LEN: usize = 160;

/// Length in bytes of an encoded transfer journal: seven 32-byte fields.
pub const TRANSFER_JOURNAL_LEN: usize = 224;

/// The 96 bytes of a commitment: block identifier word, chain identifier
/// as a 64-bit value in a full word, state digest word.
pub open spec fn spec_encode_commitment(c: StateCommitment) -> Seq<u8> {
    spec_word_bytes(c.block_id) + spec_word_bytes(spec_word_of_u64(c.chain_id))
        + spec_word_bytes(c.state_digest)
}

/// The encoded bytes of a journal, fields in their fixed order.
pub open spec fn spec_encode_journal(j: Journal) -> Seq<u8> {
    match j {
        Journal::Balance { commitment, token_contract, quantity } => spec_encode_commitment(
            commitment,
        ) + spec_addr_padded(token_contract) + spec_word_bytes(quantity),
        Journal::Transfer { commitment, from, amount, timestamp, nullifier } =>
            spec_encode_commitment(commitment) + spec_addr_padded(from) + spec_word_bytes(amount)
                + spec_word_bytes(timestamp) + spec_word_bytes(nullifier),
    }
}

/// The commitment fields read back from the first 96 bytes, provided the
/// chain identifier word fits 64 bits.
pub open spec fn spec_decode_commitment(b: Seq<u8>) -> Option<StateCommitment>
    recommends
        b.len() >= 96,
{
    let cw = spec_word_of_bytes(b.subrange(32, 64));
    if cw.fits_u64() {
        Some(StateCommitment {
            block_id: spec_word_of_bytes(b.subrange(0, 32)),
            chain_id: cw.limb3,
            state_digest: spec_word_of_bytes(b.subrange(64, 96)),
        })
    } else {
        None
    }
}

/// The journal denoted by a byte string, when the length matches one of
/// the two variants and every constrained field is well-formed. This is
/// the inverse of `spec_encode_journal` on everything the guest circuit
/// can produce.
pub open spec fn spec_decode_journal(b: Seq<u8>) -> Option<Journal> {
    if b.len() == 160 {
        match spec_decode_commitment(b) {
            Some(c) => {
                if spec_addr_padding_ok(b.subrange(96, 128)) {
                    Some(Journal::Balance {
                        commitment: c,
                        token_contract: spec_addr_of_padded(b.subrange(96, 128)),
                        quantity: spec_word_of_bytes(b.subrange(128, 160)),
                    })
                } else {
                    None
                }
            },
            None => None,
        }
    } else if b.len() == 224 {
        match spec_decode_commitment(b) {
            Some(c) => {
                if spec_addr_padding_ok(b.subrange(96, 128)) {
                    Some(Journal::Transfer {
                        commitment: c,
                        from: spec_addr_of_padded(b.subrange(96, 128)),
                        amount: spec_word_of_bytes(b.subrange(128, 160)),
                        timestamp: spec_word_of_bytes(b.subrange(160, 192)),
                        nullifier: spec_word_of_bytes(b.subrange(192, 224)),
                    })
                } else {
                    None
                }
            },
            None => None,
        }
    } else {
        None
    }
}

/// Append the 96 bytes of a commitment.
fn push_commitment(out: &mut Vec<u8>, c: &StateCommitment)
    ensures
        final(out)@ == old(out)@ + spec_encode_commitment(*c),
{
    push_word(out, &c.block_id);
    let cw = Word256::from_u64(c.chain_id);
    push_word(out, &cw);
    push_word(out, &c.state_digest);
    proof {
        assert(out@ =~= old(out)@ + spec_encode_commitment(*c));
    }
}

/// Encode a journal into the byte layout the on-chain verifier decodes.
pub fn encode_journal(j: &Journal) -> (r: Vec<u8>)
    ensures
        r@ == spec_encode_journal(*j),
{
    let mut out: Vec<u8> = Vec::new();
    match j {
        Journal::Balance { commitment, token_contract, quantity } => {
            push_commitment(&mut out, commitment);
            push_addr_padded(&mut out, token_contract);
            push_word(&mut out, quantity);
        },
        Journal::Transfer { commitment, from, amount, timestamp, nullifier } => {
            push_commitment(&mut out, commitment);
            push_addr_padded(&mut out, from);
            push_word(&mut out, amount);
            push_word(&mut out, timestamp);
            push_word(&mut out, nullifier);
        },
    }
    proof {
        assert(out@ =~= spec_encode_journal(*j));
    }
    out
}

/// Decode journal bytes back into typed fields, for host-side checks and
/// logging. Fails exactly on input that no journal encodes to: a length
/// that is neither variant's, a chain identifier over 64 bits, or a
/// misshapen address field.
pub fn decode_journal(b: &[u8]) -> (r: Result<Journal, PipelineError>)
    ensures
        match r {
            Ok(j) => spec_decode_journal(b@) == Some(j),
            Err(e) => spec_decode_journal(b@) is None && e == PipelineError::InvalidJournal,
        },
{
    let n: usize = b.len();
    if n != 160 && n != 224 {
        return Err(PipelineError::InvalidJournal);
    }
    let block_id = read_word(b, 0);
    let cw = read_word(b, 32);
    if !(cw.limb0 == 0 && cw.limb1 == 0 && cw.limb2 == 0) {
        return Err(PipelineError::InvalidJournal);
    }
    let state_digest = read_word(b, 64);
    let commitment = StateCommitment { block_id, chain_id: cw.limb3, state_digest };
    let addr = match read_addr_padded(b, 96) {
        Some(a) => a,
        None => {
            return Err(PipelineError::InvalidJournal);
        },
    };
    if n == 160 {
        let quantity = read_word(b, 128);
        Ok(Journal::Balance { commitment, token_contract: addr, quantity })
    } else {
        let amount = read_word(b, 128);
        let timestamp = read_word(b, 160);
        let nullifier = read_word(b, 192);
        Ok(Journal::Transfer { commitment, from: addr, amount, timestamp, nullifier })
    }
}

/// Round trip of the journal codec: decoding the encoding of any journal
/// yields that journal again, field for field.
pub proof fn lemma_journal_roundtrip(j: Journal)
    ensures
        spec_decode_journal(spec_encode_journal(j)) == Some(j),
{
    match j {
        Journal::Balance { .. } => lemma_balance_roundtrip(j),
        Journal::Transfer { .. } => lemma_transfer_roundtrip(j),
    }
}

/// Round trip of the balance variant.
#[verifier::rlimit(100)]
proof fn lemma_balance_roundtrip(j: Journal)
    requires
        j is Balance,
    ensures
        spec_decode_journal(spec_encode_journal(j)) == Some(j),
{
    let b = spec_encode_journal(j);
    match j {
        Journal::Balance { commitment, token_contract, quantity } => {
            let ec = spec_encode_commitment(commitment);
            let ap = spec_addr_padded(token_contract);
            let wq = spec_word_bytes(quantity);
            lemma_encode_commitment_len(commitment);
            lemma_word_bytes_len(quantity);
            assert(ap.len() == 32);
            let p1 = ec + ap;
            assert(b == p1 + wq);
            lemma_concat_parts(p1, wq);
            lemma_concat_parts(ec, ap);
            lemma_subrange_of_subrange(b, 0, 128, 0, 96);
            lemma_subrange_of_subrange(b, 0, 128, 96, 128);
            assert(b.subrange(0, 96) == ec);
            assert(b.subrange(96, 128) == ap);
            assert(b.subrange(128, 160) == wq);
            lemma_commitment_block_roundtrip(b, commitment);
            lemma_addr_padded_roundtrip(token_contract);
            lemma_word_bytes_roundtrip(quantity);
        },
        _ => {},
    }
}

/// Round trip of the transfer variant.
#[verifier::rlimit(100)]
proof fn lemma_transfer_roundtrip(j: Journal)
    requires
        j is Transfer,
    ensures
        spec_decode_journal(spec_encode_journal(j)) == Some(j),
{
    let b = spec_encode_journal(j);
    match j {
        Journal::Transfer { commitment, from, amount, timestamp, nullifier } => {
            let ec = spec_encode_commitment(commitment);
            let ap = spec_addr_padded(from);
            let wa = spec_word_bytes(amount);
            let wt = spec_word_bytes(timestamp);
            let wn = spec_word_bytes(nullifier);
            lemma_encode_commitment_len(commitment);
            lemma_word_bytes_len(amount);
            lemma_word_bytes_len(timestamp);
            lemma_word_bytes_len(nullifier);
            assert(ap.len() == 32);
            let p1 = ec + ap;
            let p2 = p1 + wa;
            let p3 = p2 + wt;
            assert(b == p3 + wn);
            lemma_concat_parts(p3, wn);
            lemma_concat_parts(p2, wt);
            lemma_concat_parts(p1, wa);
            lemma_concat_parts(ec, ap);
            lemma_subrange_of_subrange(b, 0, 192, 0, 160);
            lemma_subrange_of_subrange(b, 0, 192, 160, 192);
            lemma_subrange_of_subrange(b, 0, 160, 0, 128);
            lemma_subrange_of_subrange(b, 0, 160, 128, 160);
            lemma_subrange_of_subrange(b, 0, 128, 0, 96);
            lemma_subrange_of_subrange(b, 0, 128, 96, 128);
            assert(b.subrange(0, 192) == p3);
            assert(b.subrange(192, 224) == wn);
            assert(b.subrange(0, 160) == p2);
            assert(b.subrange(160, 192) == wt);
            assert(b.subrange(0, 128) == p1);
            assert(b.subrange(128, 160) == wa);
            assert(b.subrange(0, 96) == ec);
            assert(b.subrange(96, 128) == ap);
            lemma_commitment_block_roundtrip(b, commitment);
            lemma_addr_padded_roundtrip(from);
            lemma_word_bytes_roundtrip(amount);
            lemma_word_bytes_roundtrip(timestamp);
            lemma_word_bytes_roundtrip(nullifier);
        },
        _ => {},
    }
}

/// An encoded commitment is 96 bytes.
proof fn lemma_encode_commitment_len(c: StateCommitment)
    ensures
        spec_encode_commitment(c).len() == 96,
{
    lemma_word_bytes_len(c.block_id);
    lemma_word_bytes_len(spec_word_of_u64(c.chain_id));
    lemma_word_bytes_len(c.state_digest);
}

/// The first 96 bytes of an encoded journal decode to its commitment.
proof fn lemma_commitment_block_roundtrip(b: Seq<u8>, c: StateCommitment)
    requires
        b.len() >= 96,
        b.subrange(0, 96) == spec_encode_commitment(c),
    ensures
        spec_decode_commitment(b) == Some(c),
{
    let e = spec_encode_commitment(c);
    let w0 = spec_word_bytes(c.block_id);
    let wc = spec_word_bytes(spec_word_of_u64(c.chain_id));
    let wd = spec_word_bytes(c.state_digest);
    lemma_word_bytes_len(c.block_id);
    lemma_word_bytes_len(spec_word_of_u64(c.chain_id));
    lemma_word_bytes_len(c.state_digest);
    let p1 = w0 + wc;
    assert(e == p1 + wd);
    lemma_concat_parts(p1, wd);
    lemma_concat_parts(w0, wc);
    lemma_subrange_of_subrange(e, 0, 64, 0, 32);
    lemma_subrange_of_subrange(e, 0, 64, 32, 64);
    lemma_subrange_of_subrange(b, 0, 96, 0, 32);
    lemma_subrange_of_subrange(b, 0, 96, 32, 64);
    lemma_subrange_of_subrange(b, 0, 96, 64, 96);
    assert(b.subrange(0, 32) == w0);
    assert(b.subrange(32, 64) == wc);
    assert(b.subrange(64, 96) == wd);
    lemma_word_bytes_roundtrip(c.block_id);
    lemma_word_bytes_roundtrip(spec_word_of_u64(c.chain_id));
    lemma_word_bytes_roundtrip(c.state_digest);
}

} // verus!
