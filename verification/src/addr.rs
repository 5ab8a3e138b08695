use vstd::prelude::*;

use crate::error::PipelineError;
use crate::word::{
    lemma_u32_bytes_roundtrip, lemma_u32_of_zero_bytes, lemma_u64_bytes_roundtrip,
    lemma_u64_of_zero_bytes, read_u32_be, read_u64_be, push_u32_be, push_u64_be,
    spec_u32_bytes, spec_u32_of_bytes, spec_u64_bytes, spec_u64_of_bytes,
};

verus! {

/// A 20-byte chain address, held as three integers covering bytes 0..4,
/// 4..12 and 12..20, most significant byte first throughout.
#[derive(Clone, Copy, PartialEq, Eq, Structural, Debug)]
pub struct Address {
    pub head: u32,
    pub mid: u64,
    pub tail: u64,
}

/// The 20 bytes of an address.
pub open spec fn spec_addr_bytes(a: Address) -> Seq<u8> {
    spec_u32_bytes(a.head) + spec_u64_bytes(a.mid) + spec_u64_bytes(a.tail)
}

/// The address read from 20 bytes.
pub open spec fn spec_addr_of_bytes(s: Seq<u8>) -> Address
    recommends
        s.len() == 20,
{
    Address {
        head: spec_u32_of_bytes(s.subrange(0, 4)),
        mid: spec_u64_of_bytes(s.subrange(4, 12)),
        tail: spec_u64_of_bytes(s.subrange(12, 20)),
    }
}

/// Reading back the bytes of an address yields the address.
pub proof fn lemma_addr_bytes_roundtrip(a: Address)
    ensures
        spec_addr_of_bytes(spec_addr_bytes(a)) == a,
{
    let s = spec_addr_bytes(a);
    assert(s.subrange(0, 4) =~= spec_u32_bytes(a.head));
    assert(s.subrange(4, 12) =~= spec_u64_bytes(a.mid));
    assert(s.subrange(12, 20) =~= spec_u64_bytes(a.tail));
    lemma_u32_bytes_roundtrip(a.head);
    lemma_u64_bytes_roundtrip(a.mid);
    lemma_u64_bytes_roundtrip(a.tail);
}

/// An address occupies a 32-byte field on the wire: twelve zero bytes of
/// padding, then the twenty address bytes.
pub open spec fn spec_addr_padded(a: Address) -> Seq<u8> {
    Seq::new(12, |i: int| 0u8) + spec_addr_bytes(a)
}

/// Whether a 32-byte field is a well-padded address: the twelve leading
/// bytes are zero.
pub open spec fn spec_addr_padding_ok(s: Seq<u8>) -> bool
    recommends
        s.len() == 32,
{
    forall|i: int| 0 <= i < 12 ==> s[i] == 0u8
}

/// The address held in a well-padded 32-byte field.
pub open spec fn spec_addr_of_padded(s: Seq<u8>) -> Address
    recommends
        s.len() == 32,
{
    spec_addr_of_bytes(s.subrange(12, 32))
}

/// Reading back a padded address field yields the address.
pub proof fn lemma_addr_padded_roundtrip(a: Address)
    ensures
        spec_addr_padded(a).len() == 32,
        spec_addr_padding_ok(spec_addr_padded(a)),
        spec_addr_of_padded(spec_addr_padded(a)) == a,
{
    let s = spec_addr_padded(a);
    assert(s.subrange(12, 32) =~= spec_addr_bytes(a));
    lemma_addr_bytes_roundtrip(a);
}

/// Append the 32-byte padded form of an address.
pub fn push_addr_padded(out: &mut Vec<u8>, a: &Address)
    ensures
        final(out)@ == old(out)@ + spec_addr_padded(*a),
{
    let mut k: usize = 0;
    while k < 12
        invariant
            0 <= k <= 12,
            out@ == old(out)@ + Seq::new(k as nat, |i: int| 0u8),
        decreases 12 - k,
    {
        out.push(0u8);
        k = k + 1;
        proof {
            assert(out@ =~= old(out)@ + Seq::new(k as nat, |i: int| 0u8));
        }
    }
    push_u32_be(out, a.head);
    push_u64_be(out, a.mid);
    push_u64_be(out, a.tail);
    proof {
        assert(out@ =~= old(out)@ + spec_addr_padded(*a));
    }
}

/// Read the 32-byte field at the given offset as a padded address. Returns
/// the address exactly when the twelve padding bytes are zero.
pub fn read_addr_padded(b: &[u8], off: usize) -> (r: Option<Address>)
    requires
        off + 32 <= b@.len(),
    ensures
        ({
            let s = b@.subrange(off as int, off as int + 32);
            match r {
                Some(a) => spec_addr_padding_ok(s) && a == spec_addr_of_padded(s),
                None => !spec_addr_padding_ok(s),
            }
        }),
{
    let _blen: usize = b.len();
    let pad_hi = read_u64_be(b, off);
    let pad_lo = read_u32_be(b, off + 8);
    let ghost s = b@.subrange(off as int, off as int + 32);
    proof {
        assert(b@.subrange(off as int, off as int + 8) =~= s.subrange(0, 8));
        assert(b@.subrange(off as int + 8, off as int + 12) =~= s.subrange(8, 12));
    }
    if pad_hi != 0 || pad_lo != 0 {
        proof {
            if spec_addr_padding_ok(s) {
                crate::word::lemma_u64_of_bytes_all_zero(s.subrange(0, 8));
                crate::word::lemma_u32_of_bytes_all_zero(s.subrange(8, 12));
            }
        }
        None
    } else {
        let head = read_u32_be(b, off + 12);
        let mid = read_u64_be(b, off + 16);
        let tail = read_u64_be(b, off + 24);
        proof {
            lemma_u64_of_zero_bytes(s.subrange(0, 8));
            lemma_u32_of_zero_bytes(s.subrange(8, 12));
            assert forall|i: int| 0 <= i < 12 implies s[i] == 0u8 by {
                if i < 8 {
                    assert(s.subrange(0, 8)[i] == s[i]);
                } else {
                    assert(s.subrange(8, 12)[i - 8] == s[i]);
                }
            }
            let t = s.subrange(12, 32);
            assert(b@.subrange(off as int + 12, off as int + 16) =~= t.subrange(0, 4));
            assert(b@.subrange(off as int + 16, off as int + 24) =~= t.subrange(4, 12));
            assert(b@.subrange(off as int + 24, off as int + 32) =~= t.subrange(12, 20));
        }
        Some(Address { head, mid, tail })
    }
}

/// An ASCII hexadecimal digit.
pub open spec fn is_hex_digit(c: u8) -> bool {
    (0x30 <= c <= 0x39) || (0x41 <= c <= 0x46) || (0x61 <= c <= 0x66)
}

/// The value of an ASCII hexadecimal digit.
pub open spec fn hex_digit_value(c: u8) -> u8
    recommends
        is_hex_digit(c),
{
    if 0x30 <= c <= 0x39 {
        (c - 0x30) as u8
    } else if 0x41 <= c <= 0x46 {
        (c - 0x41 + 10) as u8
    } else {
        (c - 0x61 + 10) as u8
    }
}

/// The value of a big-endian string of hexadecimal digits.
pub open spec fn spec_hex_value(s: Seq<u8>) -> int
    decreases s.len(),
{
    if s.len() == 0 {
        0
    } else {
        spec_hex_value(s.drop_last()) * 16 + hex_digit_value(s.last())
    }
}

/// Sixteen to the given power.
pub open spec fn pow16(n: nat) -> int
    decreases n,
{
    if n == 0 {
        1
    } else {
        16 * pow16((n - 1) as nat)
    }
}

/// A digit string's value is below sixteen to its length.
pub proof fn lemma_hex_value_bound(s: Seq<u8>)
    requires
        forall|i: int| 0 <= i < s.len() ==> is_hex_digit(#[trigger] s[i]),
    ensures
        0 <= spec_hex_value(s) < pow16(s.len()),
    decreases s.len(),
{
    if s.len() == 0 {
    } else {
        assert(forall|i: int| 0 <= i < s.len() - 1 ==> s.drop_last()[i] == s[i]);
        lemma_hex_value_bound(s.drop_last());
        assert(is_hex_digit(s.last()));
        assert(hex_digit_value(s.last()) < 16);
        assert(spec_hex_value(s.drop_last()) * 16 <= (pow16((s.len() - 1) as nat) - 1) * 16);
    }
}

/// Test whether a byte is a hexadecimal digit.
pub fn hex_digit_check(c: u8) -> (r: bool)
    ensures
        r == is_hex_digit(c),
{
    (0x30 <= c && c <= 0x39) || (0x41 <= c && c <= 0x46) || (0x61 <= c && c <= 0x66)
}

/// The value of one hexadecimal digit.
pub fn hex_digit(c: u8) -> (r: u8)
    requires
        is_hex_digit(c),
    ensures
        r == hex_digit_value(c),
        r < 16,
{
    if c <= 0x39 {
        c - 0x30
    } else if c <= 0x46 {
        c - 0x41 + 10
    } else {
        c - 0x61 + 10
    }
}

/// Parse `count` hexadecimal digits starting at `start` into an integer.
pub fn parse_hex_u64(s: &[u8], start: usize, count: usize) -> (r: u64)
    requires
        start + count <= s@.len(),
        count <= 16,
        forall|i: int| start <= i < start + count ==> is_hex_digit(s@[i]),
    ensures
        r == spec_hex_value(s@.subrange(start as int, start as int + count as int)),
        r < pow16(count as nat),
{
    let slen: usize = s.len();
    let mut acc: u64 = 0;
    let mut j: usize = 0;
    proof {
        assert(s@.subrange(start as int, start as int) =~= Seq::<u8>::empty());
        lemma_pow16_values();
    }
    while j < count
        invariant
            0 <= j <= count,
            count <= 16,
            start + count <= slen,
            slen == s@.len(),
            forall|i: int| start <= i < start + count ==> is_hex_digit(s@[i]),
            acc == spec_hex_value(s@.subrange(start as int, start as int + j as int)),
            acc < pow16(j as nat),
            pow16(16) == 0x10000000000000000,
            forall|n: nat| n < 16 ==> #[trigger] pow16(n) <= 0x1000000000000000,
        decreases count - j,
    {
        let d = hex_digit(s[start + j]);
        proof {
            assert(pow16(j as nat) <= 0x1000000000000000);
            let pre = s@.subrange(start as int, start as int + j as int);
            let post = s@.subrange(start as int, start as int + j as int + 1);
            assert(post.drop_last() =~= pre);
            assert(post.last() == s@[start as int + j as int]);
            assert(16 * pow16(j as nat) == pow16((j + 1) as nat));
            assert(acc * 16 <= (pow16(j as nat) - 1) * 16);
        }
        acc = acc * 16 + (d as u64);
        j = j + 1;
    }
    acc
}

/// The concrete powers of sixteen that the parser's bounds rely on.
pub proof fn lemma_pow16_values()
    ensures
        pow16(8) == 0x100000000,
        pow16(16) == 0x10000000000000000,
        forall|n: nat| n < 16 ==> #[trigger] pow16(n) <= 0x1000000000000000,
        forall|m: nat, n: nat| m <= n ==> #[trigger] pow16(m) <= #[trigger] pow16(n),
{
    assert forall|m: nat, n: nat| m <= n implies #[trigger] pow16(m) <= #[trigger] pow16(n) by {
        lemma_pow16_monotone(m, n);
    }
    reveal_with_fuel(pow16, 17);
    assert(pow16(8) == 0x100000000);
    assert(pow16(15) == 0x1000000000000000);
    assert(pow16(16) == 0x10000000000000000);
    assert forall|n: nat| n < 16 implies #[trigger] pow16(n) <= 0x1000000000000000 by {
        lemma_pow16_monotone(n, 15);
    }
}

/// Powers of sixteen grow with the exponent.
pub proof fn lemma_pow16_monotone(m: nat, n: nat)
    requires
        m <= n,
    ensures
        1 <= pow16(m) <= pow16(n),
    decreases n,
{
    if n == 0 {
    } else if m == n {
        lemma_pow16_monotone((n - 1) as nat, (n - 1) as nat);
    } else {
        lemma_pow16_monotone(m, (n - 1) as nat);
    }
}

/// The hexadecimal digits of a piece of chain-encoded text: the text with
/// a leading `0x` stripped when present.
pub open spec fn spec_hex_digits(s: Seq<u8>) -> Seq<u8> {
    if s.len() >= 2 && s[0] == 0x30u8 && s[1] == 0x78u8 {
        s.skip(2)
    } else {
        s
    }
}

/// A well-formed address request: exactly forty hexadecimal digits after an
/// optional `0x` prefix.
pub open spec fn is_valid_address_text(s: Seq<u8>) -> bool {
    let d = spec_hex_digits(s);
    d.len() == 40 && forall|i: int| 0 <= i < 40 ==> is_hex_digit(#[trigger] d[i])
}

/// The address denoted by a well-formed request.
pub open spec fn spec_parse_address(s: Seq<u8>) -> Address
    recommends
        is_valid_address_text(s),
{
    let d = spec_hex_digits(s);
    Address {
        head: spec_hex_value(d.subrange(0, 8)) as u32,
        mid: spec_hex_value(d.subrange(8, 24)) as u64,
        tail: spec_hex_value(d.subrange(24, 40)) as u64,
    }
}

/// Parse the account address of a request. Accepts exactly forty
/// hexadecimal digits, with an optional `0x` prefix, and rejects anything
/// else as an input error before any chain access.
pub fn parse_address(text: &[u8]) -> (r: Result<Address, PipelineError>)
    ensures
        match r {
            Ok(a) => is_valid_address_text(text@) && a == spec_parse_address(text@),
            Err(e) => !is_valid_address_text(text@) && e == PipelineError::InvalidAddress,
        },
{
    let tlen: usize = text.len();
    let off: usize = if tlen >= 2 && text[0] == 0x30 && text[1] == 0x78 {
        2
    } else {
        0
    };
    proof {
        if off == 2 {
            assert(spec_hex_digits(text@) =~= text@.skip(2));
        } else {
            assert(spec_hex_digits(text@) =~= text@);
        }
    }
    if tlen - off != 40 {
        return Err(PipelineError::InvalidAddress);
    }
    let ghost d = spec_hex_digits(text@);
    let mut i: usize = 0;
    while i < 40
        invariant
            0 <= i <= 40,
            off + 40 == text@.len(),
            off == 0 || off == 2,
            d == spec_hex_digits(text@),
            d =~= text@.skip(off as int),
            d.len() == 40,
            forall|k: int| 0 <= k < i ==> is_hex_digit(#[trigger] d[k]),
        decreases 40 - i,
    {
        if !hex_digit_check(text[off + i]) {
            proof {
                assert(d[i as int] == text@[off + i as int]);
            }
            return Err(PipelineError::InvalidAddress);
        }
        proof {
            assert(d[i as int] == text@[off + i as int]);
        }
        i = i + 1;
    }
    proof {
        assert forall|k: int| off <= k < off + 40 implies is_hex_digit(#[trigger] text@[k]) by {
            assert(d[k - off] == text@[k]);
        }
        lemma_pow16_values();
        lemma_hex_value_bound(d.subrange(0, 8));
        lemma_hex_value_bound(d.subrange(8, 24));
        lemma_hex_value_bound(d.subrange(24, 40));
    }
    let head64 = parse_hex_u64(text, off, 8);
    let mid = parse_hex_u64(text, off + 8, 16);
    let tail = parse_hex_u64(text, off + 24, 16);
    proof {
        assert(text@.subrange(off as int, off as int + 8) =~= d.subrange(0, 8));
        assert(text@.subrange(off as int + 8, off as int + 24) =~= d.subrange(8, 24));
        assert(text@.subrange(off as int + 24, off as int + 40) =~= d.subrange(24, 40));
    }
    let head: u32 = head64 as u32;
    Ok(Address { head, mid, tail })
}


/// A well-formed 64-bit hexadecimal quantity: one to sixteen digits after
/// an optional `0x` prefix.
pub open spec fn is_valid_hex_u64_text(s: Seq<u8>) -> bool {
    let d = spec_hex_digits(s);
    1 <= d.len() <= 16 && forall|i: int| 0 <= i < d.len() ==> is_hex_digit(#[trigger] d[i])
}

/// Parse a chain-encoded 64-bit quantity, as block numbers and chain
/// identifiers come off the wire. `None` exactly on text that is not one
/// to sixteen hexadecimal digits after an optional `0x`.
pub fn parse_hex_u64_text(text: &[u8]) -> (r: Option<u64>)
    ensures
        match r {
            Some(x) => is_valid_hex_u64_text(text@) && x == spec_hex_value(
                spec_hex_digits(text@),
            ),
            None => !is_valid_hex_u64_text(text@),
        },
{
    let tlen: usize = text.len();
    let off: usize = if tlen >= 2 && text[0] == 0x30 && text[1] == 0x78 {
        2
    } else {
        0
    };
    proof {
        if off == 2 {
            assert(spec_hex_digits(text@) =~= text@.skip(2));
        } else {
            assert(spec_hex_digits(text@) =~= text@);
        }
    }
    let n: usize = tlen - off;
    if n < 1 || n > 16 {
        return None;
    }
    let ghost d = spec_hex_digits(text@);
    let mut i: usize = 0;
    while i < n
        invariant
            0 <= i <= n,
            1 <= n <= 16,
            off + n == text@.len(),
            d == spec_hex_digits(text@),
            d =~= text@.skip(off as int),
            d.len() == n,
            forall|k: int| 0 <= k < i ==> is_hex_digit(#[trigger] d[k]),
        decreases n - i,
    {
        if !hex_digit_check(text[off + i]) {
            proof {
                assert(d[i as int] == text@[off + i as int]);
            }
            return None;
        }
        proof {
            assert(d[i as int] == text@[off + i as int]);
        }
        i = i + 1;
    }
    proof {
        assert forall|k: int| off <= k < off + n implies is_hex_digit(#[trigger] text@[k]) by {
            assert(d[k - off] == text@[k]);
        }
    }
    let x = parse_hex_u64(text, off, n);
    proof {
        assert(text@.subrange(off as int, off as int + n as int) =~= d);
    }
    Some(x)
}

/// A well-formed 256-bit hexadecimal quantity: one to sixty-four digits
/// after an optional `0x` prefix.
pub open spec fn is_valid_hex_word_text(s: Seq<u8>) -> bool {
    let d = spec_hex_digits(s);
    1 <= d.len() <= 64 && forall|i: int| 0 <= i < d.len() ==> is_hex_digit(#[trigger] d[i])
}

/// The word a hexadecimal digit string denotes, the digits left-padded
/// with `0` to sixty-four.
pub open spec fn spec_word_of_hex(d: Seq<u8>) -> crate::word::Word256
    recommends
        1 <= d.len() <= 64,
{
    let p = Seq::new((64 - d.len()) as nat, |i: int| 0x30u8) + d;
    crate::word::Word256 {
        limb0: spec_hex_value(p.subrange(0, 16)) as u64,
        limb1: spec_hex_value(p.subrange(16, 32)) as u64,
        limb2: spec_hex_value(p.subrange(32, 48)) as u64,
        limb3: spec_hex_value(p.subrange(48, 64)) as u64,
    }
}

/// Parse a chain-encoded 256-bit quantity, as storage values and digests
/// come off the wire. `None` exactly on text that is not one to sixty-four
/// hexadecimal digits after an optional `0x`.
pub fn parse_hex_word(text: &[u8]) -> (r: Option<crate::word::Word256>)
    ensures
        match r {
            Some(w) => is_valid_hex_word_text(text@) && w == spec_word_of_hex(
                spec_hex_digits(text@),
            ),
            None => !is_valid_hex_word_text(text@),
        },
{
    let tlen: usize = text.len();
    let off: usize = if tlen >= 2 && text[0] == 0x30 && text[1] == 0x78 {
        2
    } else {
        0
    };
    proof {
        if off == 2 {
            assert(spec_hex_digits(text@) =~= text@.skip(2));
        } else {
            assert(spec_hex_digits(text@) =~= text@);
        }
    }
    let n: usize = tlen - off;
    if n < 1 || n > 64 {
        return None;
    }
    let ghost d = spec_hex_digits(text@);
    let mut i: usize = 0;
    while i < n
        invariant
            0 <= i <= n,
            1 <= n <= 64,
            off + n == text@.len(),
            d == spec_hex_digits(text@),
            d =~= text@.skip(off as int),
            d.len() == n,
            forall|k: int| 0 <= k < i ==> is_hex_digit(#[trigger] d[k]),
        decreases n - i,
    {
        if !hex_digit_check(text[off + i]) {
            proof {
                assert(d[i as int] == text@[off + i as int]);
            }
            return None;
        }
        proof {
            assert(d[i as int] == text@[off + i as int]);
        }
        i = i + 1;
    }
    let ghost p = Seq::new((64 - d.len()) as nat, |i: int| 0x30u8) + d;
    let mut padded: Vec<u8> = Vec::new();
    let pad: usize = 64 - n;
    let mut k: usize = 0;
    while k < pad
        invariant
            0 <= k <= pad,
            padded@ == Seq::new(k as nat, |i: int| 0x30u8),
        decreases pad - k,
    {
        padded.push(0x30u8);
        k = k + 1;
        proof {
            assert(padded@ =~= Seq::new(k as nat, |i: int| 0x30u8));
        }
    }
    let mut j: usize = 0;
    while j < n
        invariant
            0 <= j <= n,
            off + n == text@.len(),
            tlen == text@.len(),
            pad == 64 - n,
            1 <= n <= 64,
            d =~= text@.skip(off as int),
            d.len() == n,
            padded@ == Seq::new(pad as nat, |i: int| 0x30u8) + d.subrange(0, j as int),
        decreases n - j,
    {
        padded.push(text[off + j]);
        j = j + 1;
        proof {
            assert(d.subrange(0, j as int).drop_last() =~= d.subrange(0, j as int - 1));
            assert(padded@ =~= Seq::new(pad as nat, |i: int| 0x30u8) + d.subrange(0, j as int));
        }
    }
    proof {
        assert(d.subrange(0, n as int) =~= d);
        assert(padded@ =~= p);
        assert forall|t: int| 0 <= t < 64 implies is_hex_digit(#[trigger] p[t]) by {
            if t < pad {
                assert(p[t] == 0x30u8);
            } else {
                assert(p[t] == d[t - pad]);
            }
        }
    }
    let limb0 = parse_hex_u64(padded.as_slice(), 0, 16);
    let limb1 = parse_hex_u64(padded.as_slice(), 16, 16);
    let limb2 = parse_hex_u64(padded.as_slice(), 32, 16);
    let limb3 = parse_hex_u64(padded.as_slice(), 48, 16);
    proof {
        assert(p.subrange(0, 16) =~= padded@.subrange(0, 16));
        assert(p.subrange(16, 32) =~= padded@.subrange(16, 32));
        assert(p.subrange(32, 48) =~= padded@.subrange(32, 48));
        assert(p.subrange(48, 64) =~= padded@.subrange(48, 64));
    }
    Some(crate::word::Word256 { limb0, limb1, limb2, limb3 })
}

} // verus!
