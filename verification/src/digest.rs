use vstd::prelude::*;

use crate::addr::push_addr_padded;
use crate::inputs::spec_slots_bytes;
use crate::state::SlotEntry;
use crate::word::{push_word, spec_word_of_u64, Word256};

verus! {

/// Offset basis of the 64-bit Fowler–Noll–Vo checksum.
pub const CHECKSUM_BASIS: u64 = 0xcbf29ce484222325;

/// Multiplier of the 64-bit Fowler–Noll–Vo checksum.
pub const CHECKSUM_PRIME: u64 = 0x100000001b3;

/// One checksum step: fold a byte in, then multiply, wrapping at 64 bits.
pub open spec fn spec_checksum_step(h: u64, b: u8) -> u64 {
    vstd::wrapping::u64_specs::wrapping_mul(h ^ (b as u64), CHECKSUM_PRIME)
}

/// The checksum of a byte string, folded left to right from the basis.
pub open spec fn spec_checksum(s: Seq<u8>) -> u64
    decreases s.len(),
{
    if s.len() == 0 {
        CHECKSUM_BASIS
    } else {
        spec_checksum_step(spec_checksum(s.drop_last()), s.last())
    }
}

/// The digest a state bundle's slot content denotes: the checksum of the
/// encoded slot list, carried in a full word. It stands in for the chain's
/// state root in this build and makes the commitment a function of every
/// byte of the slots, so content tampered after assembly is detectable up
/// to checksum collisions.
pub open spec fn spec_slots_digest(slots: Seq<SlotEntry>) -> Word256 {
    spec_word_of_u64(spec_checksum(spec_slots_bytes(slots)))
}

/// Compute the digest of a slot list: encode the slots in wire order and
/// checksum the bytes. The host uses it when assembling a bundle; the
/// commitment derivation recomputes it and never trusts the bundle's own
/// digest header.
pub fn slots_digest(slots: &Vec<SlotEntry>) -> (d: Word256)
    ensures
        d == spec_slots_digest(slots@),
{
    let n: usize = slots.len();
    let mut buf: Vec<u8> = Vec::new();
    let mut i: usize = 0;
    proof {
        assert(buf@ =~= spec_slots_bytes(slots@.subrange(0, 0)));
    }
    while i < n
        invariant
            0 <= i <= n,
            n == slots@.len(),
            buf@ == spec_slots_bytes(slots@.subrange(0, i as int)),
        decreases n - i,
    {
        let e = slots[i];
        push_addr_padded(&mut buf, &e.contract);
        push_word(&mut buf, &e.key);
        push_word(&mut buf, &e.value);
        proof {
            let pre = slots@.subrange(0, i as int);
            let post = slots@.subrange(0, i as int + 1);
            assert(post.drop_last() =~= pre);
            assert(post.last() == slots@[i as int]);
            assert(buf@ =~= spec_slots_bytes(post));
        }
        i = i + 1;
    }
    proof {
        assert(slots@.subrange(0, n as int) =~= slots@);
    }
    let m: usize = buf.len();
    let mut h: u64 = CHECKSUM_BASIS;
    let mut j: usize = 0;
    proof {
        assert(buf@.subrange(0, 0) =~= Seq::<u8>::empty());
    }
    while j < m
        invariant
            0 <= j <= m,
            m == buf@.len(),
            h == spec_checksum(buf@.subrange(0, j as int)),
        decreases m - j,
    {
        let b = buf[j];
        proof {
            let pre = buf@.subrange(0, j as int);
            let post = buf@.subrange(0, j as int + 1);
            assert(post.drop_last() =~= pre);
            assert(post.last() == buf@[j as int]);
        }
        h = (h ^ (b as u64)).wrapping_mul(CHECKSUM_PRIME);
        j = j + 1;
    }
    proof {
        assert(buf@.subrange(0, m as int) =~= buf@);
    }
    Word256::from_u64(h)
}

} // verus!
