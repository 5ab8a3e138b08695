use vstd::prelude::*;

use crate::addr::{
    lemma_addr_padded_roundtrip, push_addr_padded, read_addr_padded, spec_addr_of_padded,
    spec_addr_padded, spec_addr_padding_ok, Address,
};
use crate::error::PipelineError;
use crate::state::{QueryKind, SlotEntry, StateBundle};
use crate::word::{
    lemma_concat_parts, lemma_subrange_of_subrange, lemma_word_bytes_len, lemma_word_bytes_roundtrip, push_word,
    read_word, spec_word_bytes, spec_word_of_bytes, spec_word_of_u64, Word256,
};

verus! {

/// Version tag of the guest input schema. Host and guest both pin it; a
/// schema change must bump it, and the guest rejects any other value.
pub const INPUT_SCHEMA_VERSION: u64 = 1;

/// Wire tag of a token-balance query.
pub const QUERY_TAG_BALANCE: u64 = 1;

/// Wire tag of a latest-transfer query.
pub const QUERY_TAG_TRANSFER: u64 = 2;

/// The wire tag of a query.
pub open spec fn spec_query_tag(q: QueryKind) -> u64 {
    match q {
        QueryKind::TokenBalance { .. } => QUERY_TAG_BALANCE,
        QueryKind::LatestTransfer { .. } => QUERY_TAG_TRANSFER,
    }
}

/// The two addresses of a query, in wire order: the contract queried, then
/// the account asked about.
pub open spec fn spec_query_addrs(q: QueryKind) -> (Address, Address) {
    match q {
        QueryKind::TokenBalance { token, account } => (token, account),
        QueryKind::LatestTransfer { receiver, sender } => (receiver, sender),
    }
}

/// The 96-byte query section: tag word, contract address, account address.
pub open spec fn spec_query_bytes(q: QueryKind) -> Seq<u8> {
    spec_word_bytes(spec_word_of_u64(spec_query_tag(q))) + spec_addr_padded(spec_query_addrs(q).0)
        + spec_addr_padded(spec_query_addrs(q).1)
}

/// The 160-byte header: schema version, block number, chain identifier,
/// state digest, slot count — each a full word.
pub open spec fn spec_header_bytes(
    block_number: u64,
    chain_id: u64,
    state_digest: Word256,
    count: u64,
) -> Seq<u8> {
    spec_word_bytes(spec_word_of_u64(INPUT_SCHEMA_VERSION)) + spec_word_bytes(
        spec_word_of_u64(block_number),
    ) + spec_word_bytes(spec_word_of_u64(chain_id)) + spec_word_bytes(state_digest)
        + spec_word_bytes(spec_word_of_u64(count))
}

/// The 96 bytes of one storage slot: contract, key, value.
pub open spec fn spec_slot_bytes(e: SlotEntry) -> Seq<u8> {
    spec_addr_padded(e.contract) + spec_word_bytes(e.key) + spec_word_bytes(e.value)
}

/// The slot list, each entry in order.
pub open spec fn spec_slots_bytes(s: Seq<SlotEntry>) -> Seq<u8>
    decreases s.len(),
{
    if s.len() == 0 {
        Seq::empty()
    } else {
        spec_slots_bytes(s.drop_last()) + spec_slot_bytes(s.last())
    }
}

/// The whole input stream, in its fixed order: header, slots, query.
pub open spec fn spec_encode_inputs(
    block_number: u64,
    chain_id: u64,
    state_digest: Word256,
    slots: Seq<SlotEntry>,
    q: QueryKind,
) -> Seq<u8> {
    spec_header_bytes(block_number, chain_id, state_digest, slots.len() as u64)
        + spec_slots_bytes(slots) + spec_query_bytes(q)
}

/// An encoded slot list is 96 bytes per slot.
pub proof fn lemma_slots_bytes_len(s: Seq<SlotEntry>)
    ensures
        spec_slots_bytes(s).len() == 96 * s.len(),
    decreases s.len(),
{
    if s.len() > 0 {
        lemma_slots_bytes_len(s.drop_last());
    }
}

/// The bytes of slot `i` sit at offset `96 * i` of the encoded list.
pub proof fn lemma_slots_bytes_at(s: Seq<SlotEntry>, i: int)
    requires
        0 <= i < s.len(),
    ensures
        spec_slots_bytes(s).subrange(96 * i, 96 * i + 96) == spec_slot_bytes(s[i]),
    decreases s.len(),
{
    lemma_slots_bytes_len(s);
    lemma_slots_bytes_len(s.drop_last());
    let whole = spec_slots_bytes(s);
    let front = spec_slots_bytes(s.drop_last());
    lemma_concat_parts(front, spec_slot_bytes(s.last()));
    if i == s.len() - 1 {
        assert(whole.subrange(96 * i, 96 * i + 96) == spec_slot_bytes(s.last()));
    } else {
        lemma_slots_bytes_at(s.drop_last(), i);
        lemma_subrange_of_subrange(whole, 0, front.len() as int, 96 * i, 96 * i + 96);
        assert(s.drop_last()[i] == s[i]);
    }
}

/// The slot decoded from offset `160 + 96 * i`, when its address field is
/// well padded.
pub open spec fn spec_slot_at(b: Seq<u8>, i: int) -> Option<SlotEntry>
    recommends
        0 <= i,
        160 + 96 * i + 96 <= b.len(),
{
    let s = b.subrange(160 + 96 * i, 160 + 96 * i + 96);
    if spec_addr_padding_ok(s.subrange(0, 32)) {
        Some(SlotEntry {
            contract: spec_addr_of_padded(s.subrange(0, 32)),
            key: spec_word_of_bytes(s.subrange(32, 64)),
            value: spec_word_of_bytes(s.subrange(64, 96)),
        })
    } else {
        None
    }
}

/// The decoded input stream: `Some` exactly when the version matches, the
/// length is consistent with the slot count, every slot is well formed and
/// the query tag is known. Yields the header fields, the slot list and the
/// query.
pub open spec fn spec_decode_inputs(b: Seq<u8>) -> Option<
    (u64, u64, Word256, Seq<SlotEntry>, QueryKind),
> {
    if b.len() < 256 {
        None
    } else {
        let vw = spec_word_of_bytes(b.subrange(0, 32));
        let bw = spec_word_of_bytes(b.subrange(32, 64));
        let cw = spec_word_of_bytes(b.subrange(64, 96));
        let dg = spec_word_of_bytes(b.subrange(96, 128));
        let nw = spec_word_of_bytes(b.subrange(128, 160));
        if !(vw.fits_u64() && vw.limb3 == INPUT_SCHEMA_VERSION) {
            None
        } else if !(bw.fits_u64() && cw.fits_u64() && nw.fits_u64()) {
            None
        } else if b.len() != 256 + 96 * (nw.limb3 as int) {
            None
        } else {
            let n = nw.limb3 as int;
            if !(forall|i: int| 0 <= i < n ==> #[trigger] spec_slot_at(b, i) is Some) {
                None
            } else {
                let slots = Seq::new(n as nat, |i: int| spec_slot_at(b, i)->0);
                let qoff = 160 + 96 * n;
                let tw = spec_word_of_bytes(b.subrange(qoff, qoff + 32));
                if !(tw.fits_u64() && (tw.limb3 == QUERY_TAG_BALANCE || tw.limb3
                    == QUERY_TAG_TRANSFER)) {
                    None
                } else if !(spec_addr_padding_ok(b.subrange(qoff + 32, qoff + 64))
                    && spec_addr_padding_ok(b.subrange(qoff + 64, qoff + 96))) {
                    None
                } else {
                    let a1 = spec_addr_of_padded(b.subrange(qoff + 32, qoff + 64));
                    let a2 = spec_addr_of_padded(b.subrange(qoff + 64, qoff + 96));
                    let q = if tw.limb3 == QUERY_TAG_BALANCE {
                        QueryKind::TokenBalance { token: a1, account: a2 }
                    } else {
                        QueryKind::LatestTransfer { receiver: a1, sender: a2 }
                    };
                    Some((bw.limb3, cw.limb3, dg, slots, q))
                }
            }
        }
    }
}

/// Serialize a bundle and a query into the fixed-order stream the guest
/// consumes. The field order and widths here and in `decode_inputs` are one
/// wire contract; the version word protects against the two sides drifting
/// apart.
pub fn encode_inputs(b: &StateBundle, q: &QueryKind) -> (r: Vec<u8>)
    ensures
        r@ == spec_encode_inputs(b.block_number, b.chain_id, b.state_digest, b.slots@, *q),
{
    let n: usize = b.slots.len();
    let mut out: Vec<u8> = Vec::new();
    let vw = Word256::from_u64(INPUT_SCHEMA_VERSION);
    push_word(&mut out, &vw);
    let bw = Word256::from_u64(b.block_number);
    push_word(&mut out, &bw);
    let cw = Word256::from_u64(b.chain_id);
    push_word(&mut out, &cw);
    push_word(&mut out, &b.state_digest);
    let nw = Word256::from_u64(n as u64);
    push_word(&mut out, &nw);
    let ghost header = spec_header_bytes(b.block_number, b.chain_id, b.state_digest, n as u64);
    proof {
        assert(out@ =~= header + spec_slots_bytes(b.slots@.subrange(0, 0)));
    }
    let mut i: usize = 0;
    while i < n
        invariant
            0 <= i <= n,
            n == b.slots@.len(),
            out@ == header + spec_slots_bytes(b.slots@.subrange(0, i as int)),
        decreases n - i,
    {
        let e = b.slots[i];
        push_addr_padded(&mut out, &e.contract);
        push_word(&mut out, &e.key);
        push_word(&mut out, &e.value);
        proof {
            let pre = b.slots@.subrange(0, i as int);
            let post = b.slots@.subrange(0, i as int + 1);
            assert(post.drop_last() =~= pre);
            assert(post.last() == b.slots@[i as int]);
            assert(out@ =~= header + spec_slots_bytes(post));
        }
        i = i + 1;
    }
    proof {
        assert(b.slots@.subrange(0, n as int) =~= b.slots@);
    }
    let (a1, a2) = match q {
        QueryKind::TokenBalance { token, account } => (token, account),
        QueryKind::LatestTransfer { receiver, sender } => (receiver, sender),
    };
    let tag: u64 = match q {
        QueryKind::TokenBalance { .. } => QUERY_TAG_BALANCE,
        QueryKind::LatestTransfer { .. } => QUERY_TAG_TRANSFER,
    };
    let tw = Word256::from_u64(tag);
    push_word(&mut out, &tw);
    push_addr_padded(&mut out, a1);
    push_addr_padded(&mut out, a2);
    proof {
        assert(out@ =~= spec_encode_inputs(
            b.block_number,
            b.chain_id,
            b.state_digest,
            b.slots@,
            *q,
        ));
    }
    out
}

/// Deserialize the guest input stream. The guest runs this on the bytes it
/// was handed and fails on any malformed or wrongly-versioned stream.
pub fn decode_inputs(b: &[u8]) -> (r: Result<(StateBundle, QueryKind), PipelineError>)
    ensures
        match r {
            Ok(p) => spec_decode_inputs(b@) == Some(
                (p.0.block_number, p.0.chain_id, p.0.state_digest, p.0.slots@, p.1),
            ),
            Err(e) => spec_decode_inputs(b@) is None && e == PipelineError::MalformedGuestInput,
        },
{
    let blen: usize = b.len();
    if blen < 256 {
        return Err(PipelineError::MalformedGuestInput);
    }
    let vw = read_word(b, 0);
    if !(vw.limb0 == 0 && vw.limb1 == 0 && vw.limb2 == 0 && vw.limb3 == INPUT_SCHEMA_VERSION) {
        return Err(PipelineError::MalformedGuestInput);
    }
    let bw = read_word(b, 32);
    let cw = read_word(b, 64);
    let dg = read_word(b, 96);
    let nw = read_word(b, 128);
    if !(bw.limb0 == 0 && bw.limb1 == 0 && bw.limb2 == 0) || !(cw.limb0 == 0 && cw.limb1 == 0
        && cw.limb2 == 0) || !(nw.limb0 == 0 && nw.limb1 == 0 && nw.limb2 == 0) {
        return Err(PipelineError::MalformedGuestInput);
    }
    if nw.limb3 > 192153584101141159 {
        proof {
            assert(96 * (nw.limb3 as int) >= 96 * 192153584101141160);
            assert(blen <= u64::MAX);
            assert(b@.len() < 256 + 96 * (nw.limb3 as int));
        }
        return Err(PipelineError::MalformedGuestInput);
    }
    let need: u64 = 256 + 96 * nw.limb3;
    if (blen as u64) != need {
        return Err(PipelineError::MalformedGuestInput);
    }
    let cnt: usize = nw.limb3 as usize;
    let mut slots: Vec<SlotEntry> = Vec::new();
    let mut i: usize = 0;
    let mut off: usize = 160;
    while i < cnt
        invariant
            0 <= i <= cnt,
            off == 160 + 96 * i,
            blen == b@.len(),
            blen == 256 + 96 * cnt,
            slots@.len() == i as int,
            forall|j: int| 0 <= j < i ==> #[trigger] spec_slot_at(b@, j) == Some(slots@[j]),
        decreases cnt - i,
    {
        let ghost s = b@.subrange(160 + 96 * (i as int), 160 + 96 * (i as int) + 96);
        proof {
            assert(b@.subrange(off as int, off as int + 32) =~= s.subrange(0, 32));
            assert(b@.subrange(off as int + 32, off as int + 64) =~= s.subrange(32, 64));
            assert(b@.subrange(off as int + 64, off as int + 96) =~= s.subrange(64, 96));
        }
        let contract = match read_addr_padded(b, off) {
            Some(a) => a,
            None => {
                proof {
                    assert(spec_slot_at(b@, i as int) is None);
                }
                return Err(PipelineError::MalformedGuestInput);
            },
        };
        let key = read_word(b, off + 32);
        let value = read_word(b, off + 64);
        slots.push(SlotEntry { contract, key, value });
        proof {
            assert(spec_slot_at(b@, i as int) == Some(
                SlotEntry { contract, key, value },
            ));
        }
        i = i + 1;
        off = off + 96;
    }
    let tw = read_word(b, off);
    if !(tw.limb0 == 0 && tw.limb1 == 0 && tw.limb2 == 0 && (tw.limb3 == QUERY_TAG_BALANCE
        || tw.limb3 == QUERY_TAG_TRANSFER)) {
        return Err(PipelineError::MalformedGuestInput);
    }
    let a1 = match read_addr_padded(b, off + 32) {
        Some(a) => a,
        None => {
            return Err(PipelineError::MalformedGuestInput);
        },
    };
    let a2 = match read_addr_padded(b, off + 64) {
        Some(a) => a,
        None => {
            return Err(PipelineError::MalformedGuestInput);
        },
    };
    let q = if tw.limb3 == QUERY_TAG_BALANCE {
        QueryKind::TokenBalance { token: a1, account: a2 }
    } else {
        QueryKind::LatestTransfer { receiver: a1, sender: a2 }
    };
    let bundle = StateBundle {
        block_number: bw.limb3,
        chain_id: cw.limb3,
        state_digest: dg,
        slots,
    };
    proof {
        let n = nw.limb3 as int;
        assert(bundle.slots@ =~= Seq::new(n as nat, |j: int| spec_slot_at(b@, j)->0));
    }
    Ok((bundle, q))
}

/// The five header words read back from an encoded header.
proof fn lemma_header_roundtrip(
    b: Seq<u8>,
    block_number: u64,
    chain_id: u64,
    state_digest: Word256,
    count: u64,
)
    requires
        b.len() >= 160,
        b.subrange(0, 160) == spec_header_bytes(block_number, chain_id, state_digest, count),
    ensures
        spec_word_of_bytes(b.subrange(0, 32)) == spec_word_of_u64(INPUT_SCHEMA_VERSION),
        spec_word_of_bytes(b.subrange(32, 64)) == spec_word_of_u64(block_number),
        spec_word_of_bytes(b.subrange(64, 96)) == spec_word_of_u64(chain_id),
        spec_word_of_bytes(b.subrange(96, 128)) == state_digest,
        spec_word_of_bytes(b.subrange(128, 160)) == spec_word_of_u64(count),
{
    let wv = spec_word_bytes(spec_word_of_u64(INPUT_SCHEMA_VERSION));
    let wb = spec_word_bytes(spec_word_of_u64(block_number));
    let wc = spec_word_bytes(spec_word_of_u64(chain_id));
    let wd = spec_word_bytes(state_digest);
    let wn = spec_word_bytes(spec_word_of_u64(count));
    lemma_word_bytes_len(spec_word_of_u64(INPUT_SCHEMA_VERSION));
    lemma_word_bytes_len(spec_word_of_u64(block_number));
    lemma_word_bytes_len(spec_word_of_u64(chain_id));
    lemma_word_bytes_len(state_digest);
    lemma_word_bytes_len(spec_word_of_u64(count));
    let h = spec_header_bytes(block_number, chain_id, state_digest, count);
    let p1 = wv + wb;
    let p2 = p1 + wc;
    let p3 = p2 + wd;
    assert(h == p3 + wn);
    lemma_concat_parts(p3, wn);
    lemma_concat_parts(p2, wd);
    lemma_concat_parts(p1, wc);
    lemma_concat_parts(wv, wb);
    lemma_subrange_of_subrange(h, 0, 128, 0, 96);
    lemma_subrange_of_subrange(h, 0, 128, 96, 128);
    lemma_subrange_of_subrange(h, 0, 96, 0, 64);
    lemma_subrange_of_subrange(h, 0, 96, 64, 96);
    lemma_subrange_of_subrange(h, 0, 64, 0, 32);
    lemma_subrange_of_subrange(h, 0, 64, 32, 64);
    assert(h.subrange(0, 32) == wv);
    assert(h.subrange(32, 64) == wb);
    assert(h.subrange(64, 96) == wc);
    assert(h.subrange(96, 128) == wd);
    assert(h.subrange(128, 160) == wn);
    lemma_subrange_of_subrange(b, 0, 160, 0, 32);
    lemma_subrange_of_subrange(b, 0, 160, 32, 64);
    lemma_subrange_of_subrange(b, 0, 160, 64, 96);
    lemma_subrange_of_subrange(b, 0, 160, 96, 128);
    lemma_subrange_of_subrange(b, 0, 160, 128, 160);
    lemma_word_bytes_roundtrip(spec_word_of_u64(INPUT_SCHEMA_VERSION));
    lemma_word_bytes_roundtrip(spec_word_of_u64(block_number));
    lemma_word_bytes_roundtrip(spec_word_of_u64(chain_id));
    lemma_word_bytes_roundtrip(state_digest);
    lemma_word_bytes_roundtrip(spec_word_of_u64(count));
}

/// The three query fields read back from an encoded query section.
proof fn lemma_query_roundtrip(b: Seq<u8>, qoff: int, q: QueryKind)
    requires
        0 <= qoff,
        qoff + 96 <= b.len(),
        b.subrange(qoff, qoff + 96) == spec_query_bytes(q),
    ensures
        spec_word_of_bytes(b.subrange(qoff, qoff + 32)) == spec_word_of_u64(spec_query_tag(q)),
        spec_addr_padding_ok(b.subrange(qoff + 32, qoff + 64)),
        spec_addr_of_padded(b.subrange(qoff + 32, qoff + 64)) == spec_query_addrs(q).0,
        spec_addr_padding_ok(b.subrange(qoff + 64, qoff + 96)),
        spec_addr_of_padded(b.subrange(qoff + 64, qoff + 96)) == spec_query_addrs(q).1,
{
    let wt = spec_word_bytes(spec_word_of_u64(spec_query_tag(q)));
    let a1 = spec_addr_padded(spec_query_addrs(q).0);
    let a2 = spec_addr_padded(spec_query_addrs(q).1);
    lemma_word_bytes_len(spec_word_of_u64(spec_query_tag(q)));
    assert(a1.len() == 32);
    assert(a2.len() == 32);
    let e = spec_query_bytes(q);
    let p1 = wt + a1;
    assert(e == p1 + a2);
    lemma_concat_parts(p1, a2);
    lemma_concat_parts(wt, a1);
    lemma_subrange_of_subrange(e, 0, 64, 0, 32);
    lemma_subrange_of_subrange(e, 0, 64, 32, 64);
    assert(e.subrange(0, 32) == wt);
    assert(e.subrange(32, 64) == a1);
    assert(e.subrange(64, 96) == a2);
    lemma_subrange_of_subrange(b, qoff, qoff + 96, 0, 32);
    lemma_subrange_of_subrange(b, qoff, qoff + 96, 32, 64);
    lemma_subrange_of_subrange(b, qoff, qoff + 96, 64, 96);
    lemma_word_bytes_roundtrip(spec_word_of_u64(spec_query_tag(q)));
    lemma_addr_padded_roundtrip(spec_query_addrs(q).0);
    lemma_addr_padded_roundtrip(spec_query_addrs(q).1);
}

/// One slot reads back from its 96-byte block.
proof fn lemma_one_slot_decodes(b: Seq<u8>, i: int, e: SlotEntry)
    requires
        0 <= i,
        160 + 96 * i + 96 <= b.len(),
        b.subrange(160 + 96 * i, 160 + 96 * i + 96) == spec_slot_bytes(e),
    ensures
        spec_slot_at(b, i) == Some(e),
{
    let sb = spec_slot_bytes(e);
    let ap = spec_addr_padded(e.contract);
    let wk = spec_word_bytes(e.key);
    let wv2 = spec_word_bytes(e.value);
    assert(ap.len() == 32);
    lemma_word_bytes_len(e.key);
    lemma_word_bytes_len(e.value);
    let p1 = ap + wk;
    assert(sb == p1 + wv2);
    lemma_concat_parts(p1, wv2);
    lemma_concat_parts(ap, wk);
    lemma_subrange_of_subrange(sb, 0, 64, 0, 32);
    lemma_subrange_of_subrange(sb, 0, 64, 32, 64);
    assert(sb.subrange(0, 32) == ap);
    assert(sb.subrange(32, 64) == wk);
    assert(sb.subrange(64, 96) == wv2);
    let off = 160 + 96 * i;
    let s = b.subrange(off, off + 96);
    lemma_subrange_of_subrange(b, off, off + 96, 0, 32);
    lemma_subrange_of_subrange(b, off, off + 96, 32, 64);
    lemma_subrange_of_subrange(b, off, off + 96, 64, 96);
    assert(s.subrange(0, 32) == ap);
    assert(s.subrange(32, 64) == wk);
    assert(s.subrange(64, 96) == wv2);
    lemma_addr_padded_roundtrip(e.contract);
    lemma_word_bytes_roundtrip(e.key);
    lemma_word_bytes_roundtrip(e.value);
}

/// Every slot of an encoded list reads back in place.
proof fn lemma_all_slots_decode(b: Seq<u8>, slots: Seq<SlotEntry>)
    requires
        160 + 96 * slots.len() <= b.len(),
        b.subrange(160, 160 + 96 * (slots.len() as int)) == spec_slots_bytes(slots),
    ensures
        forall|i: int| 0 <= i < slots.len() ==> #[trigger] spec_slot_at(b, i) == Some(slots[i]),
{
    let n = slots.len() as int;
    lemma_slots_bytes_len(slots);
    assert forall|i: int| 0 <= i < n implies #[trigger] spec_slot_at(b, i) == Some(slots[i]) by {
        lemma_slots_bytes_at(slots, i);
        lemma_subrange_of_subrange(b, 160, 160 + 96 * n, 96 * i, 96 * i + 96);
        assert(b.subrange(160 + 96 * i, 160 + 96 * i + 96) == spec_slot_bytes(slots[i]));
        lemma_one_slot_decodes(b, i, slots[i]);
    }
}

/// Round trip of the input schema: the guest decodes exactly the header
/// fields, slot list and query the packager serialized. Packager and guest
/// therefore agree on the schema, version included.
#[verifier::rlimit(100)]
pub proof fn lemma_inputs_roundtrip(
    block_number: u64,
    chain_id: u64,
    state_digest: Word256,
    slots: Seq<SlotEntry>,
    q: QueryKind,
)
    requires
        slots.len() <= 0xffffffffffffffff,
    ensures
        spec_decode_inputs(spec_encode_inputs(block_number, chain_id, state_digest, slots, q))
            == Some((block_number, chain_id, state_digest, slots, q)),
{
    let n = slots.len() as int;
    let h = spec_header_bytes(block_number, chain_id, state_digest, slots.len() as u64);
    let s = spec_slots_bytes(slots);
    let qb = spec_query_bytes(q);
    let b = spec_encode_inputs(block_number, chain_id, state_digest, slots, q);
    lemma_slots_bytes_len(slots);
    lemma_word_bytes_len(spec_word_of_u64(INPUT_SCHEMA_VERSION));
    lemma_word_bytes_len(spec_word_of_u64(block_number));
    lemma_word_bytes_len(spec_word_of_u64(chain_id));
    lemma_word_bytes_len(state_digest);
    lemma_word_bytes_len(spec_word_of_u64(slots.len() as u64));
    lemma_word_bytes_len(spec_word_of_u64(spec_query_tag(q)));
    assert(h.len() == 160);
    assert(qb.len() == 96);
    let hs = h + s;
    assert(b == hs + qb);
    lemma_concat_parts(hs, qb);
    lemma_concat_parts(h, s);
    assert(b.len() == 256 + 96 * n);
    assert(b.subrange(0, 160 + 96 * n) == hs);
    assert(b.subrange(160 + 96 * n, 256 + 96 * n) == qb);
    lemma_subrange_of_subrange(b, 0, 160 + 96 * n, 0, 160);
    assert(b.subrange(0, 160) == h);
    lemma_header_roundtrip(b, block_number, chain_id, state_digest, slots.len() as u64);
    // Header words decode and carry the right 64-bit values.
    let vw = spec_word_of_bytes(b.subrange(0, 32));
    let nw = spec_word_of_bytes(b.subrange(128, 160));
    assert(vw.fits_u64() && vw.limb3 == INPUT_SCHEMA_VERSION);
    assert(nw.fits_u64() && nw.limb3 == slots.len() as u64);
    assert(nw.limb3 as int == n);
    // Every slot reads back from its 96-byte block.
    lemma_subrange_of_subrange(b, 0, 160 + 96 * n, 160, 160 + 96 * n);
    assert(b.subrange(160, 160 + 96 * n) == s);
    lemma_all_slots_decode(b, slots);
    assert(Seq::new(n as nat, |i: int| spec_slot_at(b, i)->0) =~= slots);
    // The query section reads back.
    lemma_query_roundtrip(b, 160 + 96 * n, q);
    let tw = spec_word_of_bytes(b.subrange(160 + 96 * n, 160 + 96 * n + 32));
    assert(tw.fits_u64());
    match q {
        QueryKind::TokenBalance { token, account } => {
            assert(tw.limb3 == QUERY_TAG_BALANCE);
        },
        QueryKind::LatestTransfer { receiver, sender } => {
            assert(tw.limb3 == QUERY_TAG_TRANSFER);
        },
    }
}

} // verus!
