use vstd::prelude::*;

verus! {

/// A 256-bit unsigned integer, held as four 64-bit limbs with the most
/// significant limb first. Token amounts, storage keys, state digests and
/// anti-replay tokens are all values of this type, and every 32-byte field of
/// the wire formats is one of these words, big-endian.
#[derive(Clone, Copy, PartialEq, Eq, Structural, Debug)]
pub struct Word256 {
    pub limb0: u64,
    pub limb1: u64,
    pub limb2: u64,
    pub limb3: u64,
}

/// The word whose value is the given 64-bit integer.
pub open spec fn spec_word_of_u64(x: u64) -> Word256 {
    Word256 { limb0: 0, limb1: 0, limb2: 0, limb3: x }
}

impl Word256 {
    /// The mathematical value of the word.
    pub open spec fn value(self) -> int {
        (self.limb0 as int) * 0x1000000000000000000000000000000000000000000000000
            + (self.limb1 as int) * 0x100000000000000000000000000000000
            + (self.limb2 as int) * 0x10000000000000000
            + (self.limb3 as int)
    }

    /// The value contributed by the three least significant limbs.
    pub open spec fn tail1(self) -> int {
        (self.limb1 as int) * 0x100000000000000000000000000000000
            + (self.limb2 as int) * 0x10000000000000000
            + (self.limb3 as int)
    }

    /// The value contributed by the two least significant limbs.
    pub open spec fn tail2(self) -> int {
        (self.limb2 as int) * 0x10000000000000000 + (self.limb3 as int)
    }

    /// Bounds of the partial values: each tail is below the weight of the
    /// limb above it, so limbs compare lexicographically.
    pub proof fn lemma_tail_bounds(self)
        ensures
            0 <= self.tail2() < 0x100000000000000000000000000000000,
            0 <= self.tail1() < 0x1000000000000000000000000000000000000000000000000,
            0 <= self.value() < 0x10000000000000000000000000000000000000000000000000000000000000000,
    {
        assert((self.limb1 as int) * 0x100000000000000000000000000000000
            <= 0xffffffffffffffff * 0x100000000000000000000000000000000);
        assert((self.limb2 as int) * 0x10000000000000000
            <= 0xffffffffffffffff * 0x10000000000000000);
        assert((self.limb0 as int) * 0x1000000000000000000000000000000000000000000000000
            <= 0xffffffffffffffff * 0x1000000000000000000000000000000000000000000000000);
    }

    /// Build a word from a 64-bit value.
    pub fn from_u64(x: u64) -> (r: Word256)
        ensures
            r == spec_word_of_u64(x),
            r.value() == x,
    {
        Word256 { limb0: 0, limb1: 0, limb2: 0, limb3: x }
    }

    /// True when the upper three limbs are clear, so the word is exactly its
    /// least significant limb.
    pub open spec fn fits_u64(self) -> bool {
        self.limb0 == 0 && self.limb1 == 0 && self.limb2 == 0
    }

    /// Test whether the word is zero.
    pub fn is_zero(&self) -> (r: bool)
        ensures
            r <==> self.value() == 0,
    {
        proof {
            self.lemma_tail_bounds();
            if self.limb0 != 0 {
                assert((self.limb0 as int) * 0x1000000000000000000000000000000000000000000000000
                    >= 0x1000000000000000000000000000000000000000000000000);
            }
            if self.limb1 != 0 {
                assert((self.limb1 as int) * 0x100000000000000000000000000000000
                    >= 0x100000000000000000000000000000000);
            }
            if self.limb2 != 0 {
                assert((self.limb2 as int) * 0x10000000000000000 >= 0x10000000000000000);
            }
        }
        self.limb0 == 0 && self.limb1 == 0 && self.limb2 == 0 && self.limb3 == 0
    }

    /// A strictly greater most significant limb makes a strictly greater word.
    proof fn lemma_limb0_order(self, other: Word256)
        requires
            self.limb0 > other.limb0,
        ensures
            self.value() > other.value(),
    {
        self.lemma_tail_bounds();
        other.lemma_tail_bounds();
        assert((self.limb0 as int) * 0x1000000000000000000000000000000000000000000000000
            >= ((other.limb0 as int) + 1) * 0x1000000000000000000000000000000000000000000000000);
    }

    /// With equal top limbs, a strictly greater second limb decides.
    proof fn lemma_limb1_order(self, other: Word256)
        requires
            self.limb0 == other.limb0,
            self.limb1 > other.limb1,
        ensures
            self.value() > other.value(),
    {
        self.lemma_tail_bounds();
        other.lemma_tail_bounds();
        assert((self.limb1 as int) * 0x100000000000000000000000000000000
            >= ((other.limb1 as int) + 1) * 0x100000000000000000000000000000000);
    }

    /// With equal top halves, a strictly greater third limb decides.
    proof fn lemma_limb2_order(self, other: Word256)
        requires
            self.limb0 == other.limb0,
            self.limb1 == other.limb1,
            self.limb2 > other.limb2,
        ensures
            self.value() > other.value(),
    {
        self.lemma_tail_bounds();
        other.lemma_tail_bounds();
        assert((self.limb2 as int) * 0x10000000000000000
            >= ((other.limb2 as int) + 1) * 0x10000000000000000);
    }

    /// Compare two words: at-least relation on their values.
    pub fn ge(&self, other: &Word256) -> (r: bool)
        ensures
            r <==> self.value() >= other.value(),
    {
        if self.limb0 != other.limb0 {
            proof {
                if self.limb0 > other.limb0 {
                    self.lemma_limb0_order(*other);
                } else {
                    other.lemma_limb0_order(*self);
                }
            }
            self.limb0 > other.limb0
        } else if self.limb1 != other.limb1 {
            proof {
                if self.limb1 > other.limb1 {
                    self.lemma_limb1_order(*other);
                } else {
                    other.lemma_limb1_order(*self);
                }
            }
            self.limb1 > other.limb1
        } else if self.limb2 != other.limb2 {
            proof {
                if self.limb2 > other.limb2 {
                    self.lemma_limb2_order(*other);
                } else {
                    other.lemma_limb2_order(*self);
                }
            }
            self.limb2 > other.limb2
        } else {
            self.limb3 >= other.limb3
        }
    }
}

/// The eight bytes of a 64-bit integer, most significant first.
pub open spec fn spec_u64_bytes(x: u64) -> Seq<u8> {
    seq![
        ((x >> 56) & 0xff) as u8,
        ((x >> 48) & 0xff) as u8,
        ((x >> 40) & 0xff) as u8,
        ((x >> 32) & 0xff) as u8,
        ((x >> 24) & 0xff) as u8,
        ((x >> 16) & 0xff) as u8,
        ((x >> 8) & 0xff) as u8,
        (x & 0xff) as u8,
    ]
}

/// The 64-bit integer read from eight bytes, most significant first.
pub open spec fn spec_u64_of_bytes(s: Seq<u8>) -> u64
    recommends
        s.len() == 8,
{
    ((s[0] as u64) << 56) | ((s[1] as u64) << 48) | ((s[2] as u64) << 40) | ((s[3] as u64) << 32)
        | ((s[4] as u64) << 24) | ((s[5] as u64) << 16) | ((s[6] as u64) << 8) | (s[7] as u64)
}

/// The four bytes of a 32-bit integer, most significant first.
pub open spec fn spec_u32_bytes(x: u32) -> Seq<u8> {
    seq![
        ((x >> 24) & 0xff) as u8,
        ((x >> 16) & 0xff) as u8,
        ((x >> 8) & 0xff) as u8,
        (x & 0xff) as u8,
    ]
}

/// The 32-bit integer read from four bytes, most significant first.
pub open spec fn spec_u32_of_bytes(s: Seq<u8>) -> u32
    recommends
        s.len() == 4,
{
    ((s[0] as u32) << 24) | ((s[1] as u32) << 16) | ((s[2] as u32) << 8) | (s[3] as u32)
}

/// Reading back the bytes of a 64-bit integer yields the integer.
pub proof fn lemma_u64_bytes_roundtrip(x: u64)
    ensures
        spec_u64_of_bytes(spec_u64_bytes(x)) == x,
{
    assert((((((x >> 56) & 0xff) as u8) as u64) << 56)
        | (((((x >> 48) & 0xff) as u8) as u64) << 48)
        | (((((x >> 40) & 0xff) as u8) as u64) << 40)
        | (((((x >> 32) & 0xff) as u8) as u64) << 32)
        | (((((x >> 24) & 0xff) as u8) as u64) << 24)
        | (((((x >> 16) & 0xff) as u8) as u64) << 16)
        | (((((x >> 8) & 0xff) as u8) as u64) << 8)
        | (((x & 0xff) as u8) as u64) == x) by (bit_vector);
}

/// Reading back the bytes of a 32-bit integer yields the integer.
pub proof fn lemma_u32_bytes_roundtrip(x: u32)
    ensures
        spec_u32_of_bytes(spec_u32_bytes(x)) == x,
{
    assert((((((x >> 24) & 0xff) as u8) as u32) << 24)
        | (((((x >> 16) & 0xff) as u8) as u32) << 16)
        | (((((x >> 8) & 0xff) as u8) as u32) << 8)
        | (((x & 0xff) as u8) as u32) == x) by (bit_vector);
}

/// A 64-bit integer whose eight bytes are all zero is zero.
pub proof fn lemma_u64_of_zero_bytes(s: Seq<u8>)
    requires
        s.len() == 8,
        spec_u64_of_bytes(s) == 0,
    ensures
        forall|i: int| 0 <= i < 8 ==> s[i] == 0u8,
{
    let b0 = s[0];
    let b1 = s[1];
    let b2 = s[2];
    let b3 = s[3];
    let b4 = s[4];
    let b5 = s[5];
    let b6 = s[6];
    let b7 = s[7];
    assert(((b0 as u64) << 56) | ((b1 as u64) << 48) | ((b2 as u64) << 40) | ((b3 as u64) << 32)
        | ((b4 as u64) << 24) | ((b5 as u64) << 16) | ((b6 as u64) << 8) | (b7 as u64) == 0
        ==> b0 == 0 && b1 == 0 && b2 == 0 && b3 == 0 && b4 == 0 && b5 == 0 && b6 == 0 && b7 == 0)
        by (bit_vector);
    assert forall|i: int| 0 <= i < 8 implies s[i] == 0u8 by {
        if i == 0 { } else if i == 1 { } else if i == 2 { } else if i == 3 { }
        else if i == 4 { } else if i == 5 { } else if i == 6 { } else { assert(i == 7); }
    }
}

/// A 32-bit integer whose four bytes are all zero is zero.
pub proof fn lemma_u32_of_zero_bytes(s: Seq<u8>)
    requires
        s.len() == 4,
        spec_u32_of_bytes(s) == 0,
    ensures
        forall|i: int| 0 <= i < 4 ==> s[i] == 0u8,
{
    let b0 = s[0];
    let b1 = s[1];
    let b2 = s[2];
    let b3 = s[3];
    assert(((b0 as u32) << 24) | ((b1 as u32) << 16) | ((b2 as u32) << 8) | (b3 as u32) == 0
        ==> b0 == 0 && b1 == 0 && b2 == 0 && b3 == 0) by (bit_vector);
    assert forall|i: int| 0 <= i < 4 implies s[i] == 0u8 by {
        if i == 0 { } else if i == 1 { } else if i == 2 { } else { assert(i == 3); }
    }
}

/// A concatenation splits back into its two parts.
pub proof fn lemma_concat_parts<T>(a: Seq<T>, b: Seq<T>)
    ensures
        (a + b).subrange(0, a.len() as int) == a,
        (a + b).subrange(a.len() as int, a.len() + b.len() as int) == b,
{
    assert((a + b).subrange(0, a.len() as int) =~= a);
    assert((a + b).subrange(a.len() as int, a.len() + b.len() as int) =~= b);
}

/// A subrange of a subrange is a subrange of the whole.
pub proof fn lemma_subrange_of_subrange<T>(s: Seq<T>, i: int, j: int, k: int, l: int)
    requires
        0 <= i <= j <= s.len(),
        0 <= k <= l <= j - i,
    ensures
        s.subrange(i, j).subrange(k, l) == s.subrange(i + k, i + l),
{
    assert(s.subrange(i, j).subrange(k, l) =~= s.subrange(i + k, i + l));
}

/// Eight zero bytes read back as zero.
pub proof fn lemma_u64_of_bytes_all_zero(s: Seq<u8>)
    requires
        s.len() == 8,
        forall|i: int| 0 <= i < 8 ==> s[i] == 0u8,
    ensures
        spec_u64_of_bytes(s) == 0,
{
    let b0 = s[0];
    let b1 = s[1];
    let b2 = s[2];
    let b3 = s[3];
    let b4 = s[4];
    let b5 = s[5];
    let b6 = s[6];
    let b7 = s[7];
    assert(((b0 as u64) << 56) | ((b1 as u64) << 48) | ((b2 as u64) << 40) | ((b3 as u64) << 32)
        | ((b4 as u64) << 24) | ((b5 as u64) << 16) | ((b6 as u64) << 8) | (b7 as u64) == 0)
        by (bit_vector)
        requires
            b0 == 0u8 && b1 == 0u8 && b2 == 0u8 && b3 == 0u8 && b4 == 0u8 && b5 == 0u8
                && b6 == 0u8 && b7 == 0u8,
    ;
}

/// Four zero bytes read back as zero.
pub proof fn lemma_u32_of_bytes_all_zero(s: Seq<u8>)
    requires
        s.len() == 4,
        forall|i: int| 0 <= i < 4 ==> s[i] == 0u8,
    ensures
        spec_u32_of_bytes(s) == 0,
{
    let b0 = s[0];
    let b1 = s[1];
    let b2 = s[2];
    let b3 = s[3];
    assert(((b0 as u32) << 24) | ((b1 as u32) << 16) | ((b2 as u32) << 8) | (b3 as u32) == 0)
        by (bit_vector)
        requires
            b0 == 0u8 && b1 == 0u8 && b2 == 0u8 && b3 == 0u8,
    ;
}

/// Append the big-endian bytes of a 64-bit integer.
pub fn push_u64_be(out: &mut Vec<u8>, x: u64)
    ensures
        final(out)@ == old(out)@ + spec_u64_bytes(x),
{
    out.push(((x >> 56) & 0xff) as u8);
    out.push(((x >> 48) & 0xff) as u8);
    out.push(((x >> 40) & 0xff) as u8);
    out.push(((x >> 32) & 0xff) as u8);
    out.push(((x >> 24) & 0xff) as u8);
    out.push(((x >> 16) & 0xff) as u8);
    out.push(((x >> 8) & 0xff) as u8);
    out.push((x & 0xff) as u8);
    proof {
        assert(out@ =~= old(out)@ + spec_u64_bytes(x));
    }
}

/// Append the big-endian bytes of a 32-bit integer.
pub fn push_u32_be(out: &mut Vec<u8>, x: u32)
    ensures
        final(out)@ == old(out)@ + spec_u32_bytes(x),
{
    out.push(((x >> 24) & 0xff) as u8);
    out.push(((x >> 16) & 0xff) as u8);
    out.push(((x >> 8) & 0xff) as u8);
    out.push((x & 0xff) as u8);
    proof {
        assert(out@ =~= old(out)@ + spec_u32_bytes(x));
    }
}

/// Read a big-endian 64-bit integer at the given offset.
pub fn read_u64_be(b: &[u8], off: usize) -> (x: u64)
    requires
        off + 8 <= b@.len(),
    ensures
        x == spec_u64_of_bytes(b@.subrange(off as int, off as int + 8)),
{
    let x = ((b[off] as u64) << 56) | ((b[off + 1] as u64) << 48) | ((b[off + 2] as u64) << 40)
        | ((b[off + 3] as u64) << 32) | ((b[off + 4] as u64) << 24) | ((b[off + 5] as u64) << 16)
        | ((b[off + 6] as u64) << 8) | (b[off + 7] as u64);
    proof {
        let s = b@.subrange(off as int, off as int + 8);
        assert(s[0] == b@[off as int]);
        assert(s[1] == b@[off as int + 1]);
        assert(s[2] == b@[off as int + 2]);
        assert(s[3] == b@[off as int + 3]);
        assert(s[4] == b@[off as int + 4]);
        assert(s[5] == b@[off as int + 5]);
        assert(s[6] == b@[off as int + 6]);
        assert(s[7] == b@[off as int + 7]);
    }
    x
}

/// Read a big-endian 32-bit integer at the given offset.
pub fn read_u32_be(b: &[u8], off: usize) -> (x: u32)
    requires
        off + 4 <= b@.len(),
    ensures
        x == spec_u32_of_bytes(b@.subrange(off as int, off as int + 4)),
{
    let x = ((b[off] as u32) << 24) | ((b[off + 1] as u32) << 16) | ((b[off + 2] as u32) << 8)
        | (b[off + 3] as u32);
    proof {
        let s = b@.subrange(off as int, off as int + 4);
        assert(s[0] == b@[off as int]);
        assert(s[1] == b@[off as int + 1]);
        assert(s[2] == b@[off as int + 2]);
        assert(s[3] == b@[off as int + 3]);
    }
    x
}

/// The 32 bytes of a word, big-endian.
pub open spec fn spec_word_bytes(w: Word256) -> Seq<u8> {
    spec_u64_bytes(w.limb0) + spec_u64_bytes(w.limb1) + spec_u64_bytes(w.limb2)
        + spec_u64_bytes(w.limb3)
}

/// The word read from 32 bytes, big-endian.
pub open spec fn spec_word_of_bytes(s: Seq<u8>) -> Word256
    recommends
        s.len() == 32,
{
    Word256 {
        limb0: spec_u64_of_bytes(s.subrange(0, 8)),
        limb1: spec_u64_of_bytes(s.subrange(8, 16)),
        limb2: spec_u64_of_bytes(s.subrange(16, 24)),
        limb3: spec_u64_of_bytes(s.subrange(24, 32)),
    }
}

/// The bytes of any word are 32.
pub proof fn lemma_word_bytes_len(w: Word256)
    ensures
        spec_word_bytes(w).len() == 32,
{
}

/// Reading back the bytes of a word yields the word.
pub proof fn lemma_word_bytes_roundtrip(w: Word256)
    ensures
        spec_word_of_bytes(spec_word_bytes(w)) == w,
{
    let s = spec_word_bytes(w);
    assert(s.subrange(0, 8) =~= spec_u64_bytes(w.limb0));
    assert(s.subrange(8, 16) =~= spec_u64_bytes(w.limb1));
    assert(s.subrange(16, 24) =~= spec_u64_bytes(w.limb2));
    assert(s.subrange(24, 32) =~= spec_u64_bytes(w.limb3));
    lemma_u64_bytes_roundtrip(w.limb0);
    lemma_u64_bytes_roundtrip(w.limb1);
    lemma_u64_bytes_roundtrip(w.limb2);
    lemma_u64_bytes_roundtrip(w.limb3);
}

/// Append the 32 big-endian bytes of a word.
pub fn push_word(out: &mut Vec<u8>, w: &Word256)
    ensures
        final(out)@ == old(out)@ + spec_word_bytes(*w),
{
    push_u64_be(out, w.limb0);
    push_u64_be(out, w.limb1);
    push_u64_be(out, w.limb2);
    push_u64_be(out, w.limb3);
    proof {
        assert(out@ =~= old(out)@ + spec_word_bytes(*w));
    }
}

/// Read the word held in the 32 bytes at the given offset.
pub fn read_word(b: &[u8], off: usize) -> (w: Word256)
    requires
        off + 32 <= b@.len(),
    ensures
        w == spec_word_of_bytes(b@.subrange(off as int, off as int + 32)),
{
    let _blen: usize = b.len();
    let limb0 = read_u64_be(b, off);
    let limb1 = read_u64_be(b, off + 8);
    let limb2 = read_u64_be(b, off + 16);
    let limb3 = read_u64_be(b, off + 24);
    proof {
        let s = b@.subrange(off as int, off as int + 32);
        assert(b@.subrange(off as int, off as int + 8) =~= s.subrange(0, 8));
        assert(b@.subrange(off as int + 8, off as int + 16) =~= s.subrange(8, 16));
        assert(b@.subrange(off as int + 16, off as int + 24) =~= s.subrange(16, 24));
        assert(b@.subrange(off as int + 24, off as int + 32) =~= s.subrange(24, 32));
    }
    Word256 { limb0, limb1, limb2, limb3 }
}

} // verus!
