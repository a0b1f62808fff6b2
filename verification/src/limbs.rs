//! A 256-bit little-endian word held as four 64-bit limbs, with its byte view.
use vstd::prelude::*;

verus! {

/// Four little-endian 64-bit limbs: `l0` holds bytes 0..8, `l3` holds bytes 24..32.
#[derive(Clone, Copy, Debug, PartialEq, Eq, Structural)]
pub struct Limbs {
    pub l0: u64,
    pub l1: u64,
    pub l2: u64,
    pub l3: u64,
}

/// Byte `k` (0 <= k < 8) of a 64-bit limb, little-endian.
pub open spec fn limb_byte(l: u64, k: u64) -> u8 {
    ((l >> (8 * k)) & 0xffu64) as u8
}

/// The 64-bit limb made of eight little-endian bytes.
pub open spec fn limb_of(b0: u8, b1: u8, b2: u8, b3: u8, b4: u8, b5: u8, b6: u8, b7: u8) -> u64 {
    (b0 as u64) | ((b1 as u64) << 8u64) | ((b2 as u64) << 16u64) | ((b3 as u64) << 24u64) | ((
    b4 as u64) << 32u64) | ((b5 as u64) << 40u64) | ((b6 as u64) << 48u64) | ((b7 as u64)
        << 56u64)
}

/// The limb made of the eight bytes of `s` that start at `off`.
pub open spec fn limb_at(s: Seq<u8>, off: int) -> u64 {
    limb_of(s[off], s[off + 1], s[off + 2], s[off + 3], s[off + 4], s[off + 5], s[off + 6], s[off + 7])
}

/// The limbs of the 32 little-endian bytes of `s`.
pub open spec fn limbs_of_bytes(s: Seq<u8>) -> Limbs {
    Limbs { l0: limb_at(s, 0), l1: limb_at(s, 8), l2: limb_at(s, 16), l3: limb_at(s, 24) }
}

impl Limbs {
    /// Limb number `i` (0 <= i < 4).
    pub open spec fn limb(self, i: int) -> u64 {
        if i == 0 {
            self.l0
        } else if i == 1 {
            self.l1
        } else if i == 2 {
            self.l2
        } else {
            self.l3
        }
    }

    /// Byte number `i` (0 <= i < 32), little-endian.
    pub open spec fn byte(self, i: int) -> u8 {
        limb_byte(self.limb(i / 8), (i % 8) as u64)
    }

    /// The 32 little-endian bytes.
    pub open spec fn bytes(self) -> Seq<u8> {
        Seq::new(32, |i: int| self.byte(i))
    }

    /// The zero word.
    pub fn zero() -> (r: Limbs)
        ensures
            r == (Limbs { l0: 0, l1: 0, l2: 0, l3: 0 }),
            forall|i: int| 0 <= i < 32 ==> #[trigger] r.byte(i) == 0,
    {
        proof {
            assert forall|k: u64| k < 8 implies limb_byte(0u64, k) == 0 by {
                assert(k < 8 ==> ((0u64 >> (8 * k)) & 0xffu64) as u8 == 0) by (bit_vector);
            }
        }
        Limbs { l0: 0, l1: 0, l2: 0, l3: 0 }
    }

    /// Returns byte number `i`.
    pub fn get_byte(&self, i: usize) -> (b: u8)
        requires
            i < 32,
        ensures
            b == self.byte(i as int),
    {
        let l = if i < 8 {
            self.l0
        } else if i < 16 {
            self.l1
        } else if i < 24 {
            self.l2
        } else {
            self.l3
        };
        let k = (i % 8) as u64;
        ((l >> (8 * k)) & 0xff) as u8
    }

    /// Builds the limbs from the 32 bytes of `s` that start at `off`.
    pub fn from_bytes_at(s: &[u8], off: usize) -> (r: Limbs)
        requires
            off + 32 <= s@.len(),
        ensures
            r == limbs_of_bytes(s@.subrange(off as int, off + 32)),
    {
        let ghost t = s@.subrange(off as int, off + 32);
        let n = s.len();
        assert(off + 32 <= n);
        let r = Limbs {
            l0: limb_from_slice(s, off),
            l1: limb_from_slice(s, off + 8),
            l2: limb_from_slice(s, off + 16),
            l3: limb_from_slice(s, off + 24),
        };
        assert(limb_at(s@, off as int) == limb_at(t, 0));
        assert(limb_at(s@, off + 8) == limb_at(t, 8));
        assert(limb_at(s@, off + 16) == limb_at(t, 16));
        assert(limb_at(s@, off + 24) == limb_at(t, 24));
        r
    }

    /// Appends the 32 little-endian bytes to `out`.
    pub fn write_bytes(&self, out: &mut Vec<u8>)
        ensures
            final(out)@ == old(out)@ + self.bytes(),
    {
        let ghost start = out@;
        let mut i: usize = 0;
        while i < 32
            invariant
                i <= 32,
                out@ == start + self.bytes().subrange(0, i as int),
            decreases 32 - i,
        {
            let b = self.get_byte(i);
            out.push(b);
            i = i + 1;
            assert(self.bytes().subrange(0, i as int) == self.bytes().subrange(0, i - 1).push(b));
        }
        assert(self.bytes().subrange(0, 32) == self.bytes());
    }
}

/// The limb made of the eight bytes of `s` that start at `off`.
fn limb_from_slice(s: &[u8], off: usize) -> (r: u64)
    requires
        off + 8 <= s@.len(),
    ensures
        r == limb_at(s@, off as int),
{
    (s[off] as u64) | ((s[off + 1] as u64) << 8u64) | ((s[off + 2] as u64) << 16u64) | ((s[off
        + 3] as u64) << 24u64) | ((s[off + 4] as u64) << 32u64) | ((s[off + 5] as u64) << 40u64)
        | ((s[off + 6] as u64) << 48u64) | ((s[off + 7] as u64) << 56u64)
}

/// Splitting a limb into bytes and joining them gives the limb back.
pub proof fn lemma_limb_split_join(l: u64)
    ensures
        limb_of(
            limb_byte(l, 0),
            limb_byte(l, 1),
            limb_byte(l, 2),
            limb_byte(l, 3),
            limb_byte(l, 4),
            limb_byte(l, 5),
            limb_byte(l, 6),
            limb_byte(l, 7),
        ) == l,
{
    assert((((l >> 0u64) & 0xffu64) as u8 as u64) | (((((l >> 8u64) & 0xffu64) as u8) as u64)
        << 8u64) | (((((l >> 16u64) & 0xffu64) as u8) as u64) << 16u64) | (((((l >> 24u64)
        & 0xffu64) as u8) as u64) << 24u64) | (((((l >> 32u64) & 0xffu64) as u8) as u64)
        << 32u64) | (((((l >> 40u64) & 0xffu64) as u8) as u64) << 40u64) | (((((l >> 48u64)
        & 0xffu64) as u8) as u64) << 48u64) | (((((l >> 56u64) & 0xffu64) as u8) as u64)
        << 56u64) == l) by (bit_vector);
}

/// Joining eight bytes and splitting the limb gives the bytes back.
pub proof fn lemma_limb_join_split(b0: u8, b1: u8, b2: u8, b3: u8, b4: u8, b5: u8, b6: u8, b7: u8)
    ensures
        limb_byte(limb_of(b0, b1, b2, b3, b4, b5, b6, b7), 0) == b0,
        limb_byte(limb_of(b0, b1, b2, b3, b4, b5, b6, b7), 1) == b1,
        limb_byte(limb_of(b0, b1, b2, b3, b4, b5, b6, b7), 2) == b2,
        limb_byte(limb_of(b0, b1, b2, b3, b4, b5, b6, b7), 3) == b3,
        limb_byte(limb_of(b0, b1, b2, b3, b4, b5, b6, b7), 4) == b4,
        limb_byte(limb_of(b0, b1, b2, b3, b4, b5, b6, b7), 5) == b5,
        limb_byte(limb_of(b0, b1, b2, b3, b4, b5, b6, b7), 6) == b6,
        limb_byte(limb_of(b0, b1, b2, b3, b4, b5, b6, b7), 7) == b7,
{
    let l = limb_of(b0, b1, b2, b3, b4, b5, b6, b7);
    assert(l == (b0 as u64) | ((b1 as u64) << 8u64) | ((b2 as u64) << 16u64) | ((b3 as u64)
        << 24u64) | ((b4 as u64) << 32u64) | ((b5 as u64) << 40u64) | ((b6 as u64) << 48u64) | ((
    b7 as u64) << 56u64));
    assert(l == (b0 as u64) | ((b1 as u64) << 8u64) | ((b2 as u64) << 16u64) | ((b3 as u64)
        << 24u64) | ((b4 as u64) << 32u64) | ((b5 as u64) << 40u64) | ((b6 as u64) << 48u64) | ((
    b7 as u64) << 56u64) ==> ((l >> 0u64) & 0xffu64) as u8 == b0 && ((l >> 8u64) & 0xffu64) as u8
        == b1 && ((l >> 16u64) & 0xffu64) as u8 == b2 && ((l >> 24u64) & 0xffu64) as u8 == b3 && ((l
        >> 32u64) & 0xffu64) as u8 == b4 && ((l >> 40u64) & 0xffu64) as u8 == b5 && ((l >> 48u64)
        & 0xffu64) as u8 == b6 && ((l >> 56u64) & 0xffu64) as u8 == b7) by (bit_vector);
}

/// The limbs of the bytes of a word are the word itself.
pub proof fn lemma_limbs_bytes_roundtrip(w: Limbs)
    ensures
        limbs_of_bytes(w.bytes()) == w,
{
    lemma_limb_split_join(w.l0);
    lemma_limb_split_join(w.l1);
    lemma_limb_split_join(w.l2);
    lemma_limb_split_join(w.l3);
    let s = w.bytes();
    assert(limb_at(s, 0) == w.l0);
    assert(limb_at(s, 8) == w.l1);
    assert(limb_at(s, 16) == w.l2);
    assert(limb_at(s, 24) == w.l3);
}

/// The bytes of the limbs of 32 bytes are the bytes themselves.
pub proof fn lemma_bytes_limbs_roundtrip(s: Seq<u8>)
    requires
        s.len() == 32,
    ensures
        limbs_of_bytes(s).bytes() == s,
{
    let w = limbs_of_bytes(s);
    lemma_limb_join_split(s[0], s[1], s[2], s[3], s[4], s[5], s[6], s[7]);
    lemma_limb_join_split(s[8], s[9], s[10], s[11], s[12], s[13], s[14], s[15]);
    lemma_limb_join_split(s[16], s[17], s[18], s[19], s[20], s[21], s[22], s[23]);
    lemma_limb_join_split(s[24], s[25], s[26], s[27], s[28], s[29], s[30], s[31]);
    assert(w.bytes() =~= s);
}

} // verus!
