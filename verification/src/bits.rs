//! Little-endian bit views of bytes.
use vstd::prelude::*;

verus! {

/// Bit `j` (0 <= j < 8) of byte `b`, counting from the least significant bit.
pub open spec fn u8_bit(b: u8, j: u8) -> bool {
    (b >> j) & 1u8 == 1u8
}

/// The eight little-endian bits of a byte.
pub open spec fn byte_bits(b: u8) -> Seq<bool> {
    Seq::new(8, |j: int| u8_bit(b, j as u8))
}

/// The little-endian bits of a byte string: byte after byte, each from its lowest bit up.
pub open spec fn bits_of_bytes(s: Seq<u8>) -> Seq<bool> {
    Seq::new(s.len() * 8, |i: int| u8_bit(s[i / 8], (i % 8) as u8))
}

/// The byte whose little-endian bits are the eight bits of `bits` that start at `start`.
pub open spec fn byte_of_bits(bits: Seq<bool>, start: int) -> u8 {
    byte_of(
        bits[start],
        bits[start + 1],
        bits[start + 2],
        bits[start + 3],
        bits[start + 4],
        bits[start + 5],
        bits[start + 6],
        bits[start + 7],
    )
}

/// The byte with the given little-endian bits.
pub open spec fn byte_of(x0: bool, x1: bool, x2: bool, x3: bool, x4: bool, x5: bool, x6: bool, x7: bool) -> u8 {
    (if x0 { 1u8 } else { 0u8 }) | (if x1 { 2u8 } else { 0u8 }) | (if x2 { 4u8 } else { 0u8 }) | (
    if x3 { 8u8 } else { 0u8 }) | (if x4 { 16u8 } else { 0u8 }) | (if x5 { 32u8 } else { 0u8 }) | (
    if x6 { 64u8 } else { 0u8 }) | (if x7 { 128u8 } else { 0u8 })
}

/// The bytes whose bits are `bits`, whose length is a multiple of 8.
pub open spec fn bytes_of_bits(bits: Seq<bool>) -> Seq<u8> {
    Seq::new(bits.len() / 8, |k: int| byte_of_bits(bits, 8 * k))
}

/// A byte is rebuilt from its own bits.
pub proof fn lemma_byte_bits_roundtrip(b: u8)
    ensures
        byte_of(u8_bit(b, 0), u8_bit(b, 1), u8_bit(b, 2), u8_bit(b, 3), u8_bit(b, 4), u8_bit(b, 5), u8_bit(b, 6), u8_bit(b, 7)) == b,
{
    assert(byte_of(
        (b >> 0u8) & 1u8 == 1u8,
        (b >> 1u8) & 1u8 == 1u8,
        (b >> 2u8) & 1u8 == 1u8,
        (b >> 3u8) & 1u8 == 1u8,
        (b >> 4u8) & 1u8 == 1u8,
        (b >> 5u8) & 1u8 == 1u8,
        (b >> 6u8) & 1u8 == 1u8,
        (b >> 7u8) & 1u8 == 1u8,
    ) == b) by (bit_vector);
}

/// The bits of the byte made of eight bits are those bits.
pub proof fn lemma_bits_byte_roundtrip(x0: bool, x1: bool, x2: bool, x3: bool, x4: bool, x5: bool, x6: bool, x7: bool)
    ensures
        u8_bit(byte_of(x0, x1, x2, x3, x4, x5, x6, x7), 0) == x0,
        u8_bit(byte_of(x0, x1, x2, x3, x4, x5, x6, x7), 1) == x1,
        u8_bit(byte_of(x0, x1, x2, x3, x4, x5, x6, x7), 2) == x2,
        u8_bit(byte_of(x0, x1, x2, x3, x4, x5, x6, x7), 3) == x3,
        u8_bit(byte_of(x0, x1, x2, x3, x4, x5, x6, x7), 4) == x4,
        u8_bit(byte_of(x0, x1, x2, x3, x4, x5, x6, x7), 5) == x5,
        u8_bit(byte_of(x0, x1, x2, x3, x4, x5, x6, x7), 6) == x6,
        u8_bit(byte_of(x0, x1, x2, x3, x4, x5, x6, x7), 7) == x7,
{
    let b = byte_of(x0, x1, x2, x3, x4, x5, x6, x7);
    assert(b == (if x0 { 1u8 } else { 0u8 }) | (if x1 { 2u8 } else { 0u8 }) | (if x2 { 4u8 } else { 0u8 }) | (
    if x3 { 8u8 } else { 0u8 }) | (if x4 { 16u8 } else { 0u8 }) | (if x5 { 32u8 } else { 0u8 }) | (
    if x6 { 64u8 } else { 0u8 }) | (if x7 { 128u8 } else { 0u8 }));
    assert(b == (if x0 { 1u8 } else { 0u8 }) | (if x1 { 2u8 } else { 0u8 }) | (if x2 { 4u8 } else { 0u8 }) | (
    if x3 { 8u8 } else { 0u8 }) | (if x4 { 16u8 } else { 0u8 }) | (if x5 { 32u8 } else { 0u8 }) | (
    if x6 { 64u8 } else { 0u8 }) | (if x7 { 128u8 } else { 0u8 }) ==> ((b >> 0u8) & 1u8 == 1u8) == x0
        && ((b >> 1u8) & 1u8 == 1u8) == x1 && ((b >> 2u8) & 1u8 == 1u8) == x2 && ((b >> 3u8) & 1u8
        == 1u8) == x3 && ((b >> 4u8) & 1u8 == 1u8) == x4 && ((b >> 5u8) & 1u8 == 1u8) == x5 && ((b
        >> 6u8) & 1u8 == 1u8) == x6 && ((b >> 7u8) & 1u8 == 1u8) == x7) by (bit_vector);
}

/// Reading bytes back from the bits of bytes gives the bytes.
pub proof fn lemma_bytes_bits_roundtrip(s: Seq<u8>)
    ensures
        bytes_of_bits(bits_of_bytes(s)) == s,
{
    let bits = bits_of_bytes(s);
    assert(bits.len() / 8 == s.len()) by (nonlinear_arith)
        requires
            bits.len() == s.len() * 8,
    ;
    assert forall|k: int| 0 <= k < s.len() implies #[trigger] byte_of_bits(bits, 8 * k) == s[k] by {
        lemma_div8(k);
        assert(8 * k + 7 < s.len() * 8) by (nonlinear_arith)
            requires
                0 <= k < s.len(),
        ;
        lemma_byte_bits_roundtrip(s[k]);
        assert(bits[8 * k] == u8_bit(s[k], 0));
        assert(bits[8 * k + 1] == u8_bit(s[k], 1));
        assert(bits[8 * k + 2] == u8_bit(s[k], 2));
        assert(bits[8 * k + 3] == u8_bit(s[k], 3));
        assert(bits[8 * k + 4] == u8_bit(s[k], 4));
        assert(bits[8 * k + 5] == u8_bit(s[k], 5));
        assert(bits[8 * k + 6] == u8_bit(s[k], 6));
        assert(bits[8 * k + 7] == u8_bit(s[k], 7));
    }
    assert(bytes_of_bits(bits) =~= s);
}

proof fn lemma_div8(k: int)
    ensures
        (8 * k) / 8 == k, (8 * k) % 8 == 0,
        (8 * k + 1) / 8 == k, (8 * k + 1) % 8 == 1,
        (8 * k + 2) / 8 == k, (8 * k + 2) % 8 == 2,
        (8 * k + 3) / 8 == k, (8 * k + 3) % 8 == 3,
        (8 * k + 4) / 8 == k, (8 * k + 4) % 8 == 4,
        (8 * k + 5) / 8 == k, (8 * k + 5) % 8 == 5,
        (8 * k + 6) / 8 == k, (8 * k + 6) % 8 == 6,
        (8 * k + 7) / 8 == k, (8 * k + 7) % 8 == 7,
{
}

/// Reading bits back from the bytes of whole bytes' worth of bits gives the bits.
pub proof fn lemma_bits_bytes_roundtrip(bits: Seq<bool>)
    requires
        bits.len() % 8 == 0,
    ensures
        bits_of_bytes(bytes_of_bits(bits)) == bits,
{
    let s = bytes_of_bits(bits);
    assert(s.len() * 8 == bits.len()) by (nonlinear_arith)
        requires
            s.len() == bits.len() / 8,
            bits.len() % 8 == 0,
    ;
    assert forall|i: int| 0 <= i < bits.len() implies #[trigger] bits_of_bytes(s)[i] == bits[i] by {
        let k = i / 8;
        let j = i % 8;
        assert(i == 8 * k + j && 0 <= j < 8 && 0 <= k < s.len()) by (nonlinear_arith)
            requires
                k == i / 8,
                j == i % 8,
                0 <= i < bits.len(),
                s.len() * 8 == bits.len(),
        ;
        lemma_bits_byte_roundtrip(
            bits[8 * k],
            bits[8 * k + 1],
            bits[8 * k + 2],
            bits[8 * k + 3],
            bits[8 * k + 4],
            bits[8 * k + 5],
            bits[8 * k + 6],
            bits[8 * k + 7],
        );
        assert(s[k] == byte_of_bits(bits, 8 * k));
    }
    assert(bits_of_bytes(s) =~= bits);
}

/// The bits of a concatenation are the concatenation of the bits.
pub proof fn lemma_bits_of_bytes_push(s: Seq<u8>, b: u8)
    ensures
        bits_of_bytes(s.push(b)) == bits_of_bytes(s) + byte_bits(b),
{
    let t = s.push(b);
    assert forall|i: int| 0 <= i < t.len() * 8 implies #[trigger] bits_of_bytes(t)[i] == (
    bits_of_bytes(s) + byte_bits(b))[i] by {
        let k = i / 8;
        let j = i % 8;
        assert(i == 8 * k + j && 0 <= j < 8 && 0 <= k <= s.len()) by (nonlinear_arith)
            requires
                k == i / 8,
                j == i % 8,
                0 <= i < t.len() * 8,
                t.len() == s.len() + 1,
        ;
        if k < s.len() {
            assert(i < s.len() * 8) by (nonlinear_arith)
                requires
                    i == 8 * k + j,
                    j < 8,
                    k < s.len(),
            ;
        } else {
            assert(i - s.len() * 8 == j) by (nonlinear_arith)
                requires
                    i == 8 * k + j,
                    k == s.len(),
            ;
        }
    }
    assert(bits_of_bytes(t).len() == (bits_of_bytes(s) + byte_bits(b)).len()) by (nonlinear_arith)
        requires
            t.len() == s.len() + 1,
    ;
    assert(bits_of_bytes(t) =~= bits_of_bytes(s) + byte_bits(b));
}

/// Appends the eight little-endian bits of `b` to `v`.
pub fn write_byte_bits_le(b: u8, v: &mut Vec<bool>)
    ensures
        final(v)@ == old(v)@ + byte_bits(b),
{
    let ghost start = v@;
    let mut j: u8 = 0;
    while j < 8
        invariant
            j <= 8,
            v@ == start + byte_bits(b).subrange(0, j as int),
        decreases 8 - j,
    {
        let bit = (b >> j) & 1 == 1;
        v.push(bit);
        j = j + 1;
        assert(byte_bits(b).subrange(0, j as int) == byte_bits(b).subrange(0, j - 1).push(bit));
    }
    assert(byte_bits(b).subrange(0, 8) == byte_bits(b));
}

/// Appends the little-endian bits of the bytes `s` to `v`.
pub fn write_bytes_bits_le(s: &[u8], v: &mut Vec<bool>)
    ensures
        final(v)@ == old(v)@ + bits_of_bytes(s@),
{
    let ghost start = v@;
    let n = s.len();
    let mut k: usize = 0;
    while k < n
        invariant
            k <= n,
            n == s@.len(),
            v@ == start + bits_of_bytes(s@.subrange(0, k as int)),
        decreases n - k,
    {
        write_byte_bits_le(s[k], v);
        proof {
            lemma_bits_of_bytes_push(s@.subrange(0, k as int), s[k as int]);
            assert(s@.subrange(0, k + 1) == s@.subrange(0, k as int).push(s[k as int]));
        }
        k = k + 1;
    }
    assert(s@.subrange(0, n as int) == s@);
}

/// The byte whose little-endian bits are `bits[start..start + 8]`.
pub fn byte_from_bits_le(bits: &[bool], start: usize) -> (r: u8)
    requires
        start + 8 <= bits@.len(),
    ensures
        r == byte_of_bits(bits@, start as int),
{
    (if bits[start] { 1u8 } else { 0u8 }) | (if bits[start + 1] { 2u8 } else { 0u8 }) | (if bits[start + 2] { 4u8 } else { 0u8 }) | (
    if bits[start + 3] { 8u8 } else { 0u8 }) | (if bits[start + 4] { 16u8 } else { 0u8 }) | (if bits[start + 5] { 32u8 } else { 0u8 }) | (
    if bits[start + 6] { 64u8 } else { 0u8 }) | (if bits[start + 7] { 128u8 } else { 0u8 })
}

} // verus!
