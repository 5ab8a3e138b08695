use vstd::prelude::*;

use crate::error::PipelineError;
use crate::word::{
    lemma_concat_parts, lemma_u32_bytes_roundtrip, push_u32_be, read_u32_be, spec_u32_bytes,
    spec_u32_of_bytes,
};

verus! {

/// What kind of proof a receipt carries. Only a succinct proof with a
/// known verifier selector can be encoded for the on-chain entry point;
/// anything else is a format mismatch.
#[derive(Clone, Copy, PartialEq, Eq, Structural, Debug)]
pub enum ProofKind {
    /// A verifier-compatible succinct proof, tagged with the four-byte
    /// selector of the on-chain verifier route that checks it.
    Succinct { selector: u32 },
    /// Any proof shape the on-chain verifier cannot check.
    Unsupported,
}

/// The plain content of a proving-backend receipt, as the pipeline reads
/// it: the kind of proof, the raw proof bytes, and the journal bytes the
/// guest committed. The service converts the backend's receipt into this
/// shape at its boundary.
#[derive(Debug)]
pub struct ReceiptData {
    pub kind: ProofKind,
    pub proof_bytes: Vec<u8>,
    pub journal: Vec<u8>,
}

/// The seal an on-chain verifier consumes: the verifier selector, then the
/// raw proof bytes.
pub open spec fn spec_encode_seal(selector: u32, body: Seq<u8>) -> Seq<u8> {
    spec_u32_bytes(selector) + body
}

/// The selector and proof bytes split back out of a seal.
pub open spec fn spec_decode_seal(b: Seq<u8>) -> Option<(u32, Seq<u8>)> {
    if b.len() >= 4 {
        Some((spec_u32_of_bytes(b.subrange(0, 4)), b.skip(4)))
    } else {
        None
    }
}

/// Encode a receipt's proof into the exact byte layout the on-chain
/// verifier's proof-checking entry point expects. Fails exactly when the
/// receipt does not carry a verifier-compatible proof.
pub fn encode_seal(r: &ReceiptData) -> (s: Result<Vec<u8>, PipelineError>)
    ensures
        match s {
            Ok(b) => r.kind matches ProofKind::Succinct { selector } && b@ == spec_encode_seal(
                selector,
                r.proof_bytes@,
            ),
            Err(e) => r.kind is Unsupported && e == PipelineError::InvalidReceipt,
        },
{
    match r.kind {
        ProofKind::Succinct { selector } => {
            let mut out: Vec<u8> = Vec::new();
            push_u32_be(&mut out, selector);
            let n: usize = r.proof_bytes.len();
            let mut i: usize = 0;
            while i < n
                invariant
                    0 <= i <= n,
                    n == r.proof_bytes@.len(),
                    out@ == spec_u32_bytes(selector) + r.proof_bytes@.subrange(0, i as int),
                decreases n - i,
            {
                out.push(r.proof_bytes[i]);
                i = i + 1;
                proof {
                    assert(out@ =~= spec_u32_bytes(selector) + r.proof_bytes@.subrange(0, i as int));
                }
            }
            proof {
                assert(r.proof_bytes@.subrange(0, n as int) =~= r.proof_bytes@);
            }
            Ok(out)
        },
        ProofKind::Unsupported => Err(PipelineError::InvalidReceipt),
    }
}

/// Split a seal back into selector and proof bytes. Fails exactly on input
/// shorter than a selector.
pub fn decode_seal(b: &[u8]) -> (r: Result<(u32, Vec<u8>), PipelineError>)
    ensures
        match r {
            Ok(p) => spec_decode_seal(b@) == Some((p.0, p.1@)),
            Err(e) => spec_decode_seal(b@) is None && e == PipelineError::InvalidReceipt,
        },
{
    let n: usize = b.len();
    if n < 4 {
        return Err(PipelineError::InvalidReceipt);
    }
    let selector = read_u32_be(b, 0);
    let mut body: Vec<u8> = Vec::new();
    let mut i: usize = 4;
    while i < n
        invariant
            4 <= i <= n,
            n == b@.len(),
            body@ == b@.subrange(4, i as int),
        decreases n - i,
    {
        body.push(b[i]);
        i = i + 1;
        proof {
            assert(body@ =~= b@.subrange(4, i as int));
        }
    }
    proof {
        assert(body@ =~= b@.skip(4));
    }
    Ok((selector, body))
}

/// The seal codec round trips: a seal encoded from any verifier-compatible
/// receipt splits back into the same selector and proof bytes. Encoding is
/// a function of the receipt alone, so it is deterministic.
pub proof fn lemma_seal_roundtrip(selector: u32, body: Seq<u8>)
    ensures
        spec_decode_seal(spec_encode_seal(selector, body)) == Some((selector, body)),
{
    let b = spec_encode_seal(selector, body);
    lemma_concat_parts(spec_u32_bytes(selector), body);
    assert(b.subrange(0, 4) == spec_u32_bytes(selector));
    lemma_u32_bytes_roundtrip(selector);
    assert(b.skip(4) =~= body);
}

} // verus!
