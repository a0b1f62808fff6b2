//! Elements of the base field of the Aleo network: integers below the modulus
//! `r = 0x12ab655e9a2ca55660b44d1e5c37b00159aa76fed00000010a11800000000001`.
use vstd::prelude::*;

use crate::bits::{bits_of_bytes, byte_from_bits_le, bytes_of_bits, lemma_bytes_bits_roundtrip, write_bytes_bits_le};
use crate::error::Error;
use crate::limbs::{lemma_limbs_bytes_roundtrip, limb_byte, limbs_of_bytes, Limbs};

verus! {

/// The number of bits of a field element.
pub const FIELD_SIZE_IN_BITS: usize = 253;

/// The number of bits that any value below 2^252 fits in, and thus data bits of a field element.
pub const FIELD_SIZE_IN_DATA_BITS: usize = 252;

/// The number of bytes of the byte encoding of a field element.
pub const FIELD_SIZE_IN_BYTES: usize = 32;

/// The modulus as four little-endian limbs.
pub open spec fn modulus() -> Limbs {
    Limbs {
        l0: 0x0a11800000000001u64,
        l1: 0x59aa76fed0000001u64,
        l2: 0x60b44d1e5c37b001u64,
        l3: 0x12ab655e9a2ca556u64,
    }
}

/// `a < b` as 256-bit little-endian numbers.
pub open spec fn limbs_lt(a: Limbs, b: Limbs) -> bool {
    ||| a.l3 < b.l3
    ||| a.l3 == b.l3 && a.l2 < b.l2
    ||| a.l3 == b.l3 && a.l2 == b.l2 && a.l1 < b.l1
    ||| a.l3 == b.l3 && a.l2 == b.l2 && a.l1 == b.l1 && a.l0 < b.l0
}

/// A 256-bit word is the canonical form of a field element when it is below the modulus.
pub open spec fn is_canonical(w: Limbs) -> bool {
    limbs_lt(w, modulus())
}

/// The 256 bits of `bits`, extended with zeros and cut at 256.
pub open spec fn padded_bits(bits: Seq<bool>) -> Seq<bool> {
    Seq::new(256, |i: int| i < bits.len() && bits[i])
}

/// The 256-bit word whose little-endian bits are `bits` (zero-extended, cut at 256).
pub open spec fn word_of_bits(bits: Seq<bool>) -> Limbs {
    limbs_of_bytes(bytes_of_bits(padded_bits(bits)))
}

/// Whether all bits of `bits` from `from` on are unset.
pub open spec fn bits_zero_from(bits: Seq<bool>, from: int) -> bool {
    forall|i: int| from <= i < bits.len() ==> !#[trigger] bits[i]
}

/// The outcome of reading a field element from little-endian bits.
pub open spec fn spec_field_from_bits_le(bits: Seq<bool>) -> Result<Limbs, Error> {
    if !bits_zero_from(bits, FIELD_SIZE_IN_BITS as int) {
        Err(Error::ExcessBitsNonZero)
    } else if !is_canonical(word_of_bits(bits)) {
        Err(Error::NonCanonicalField)
    } else {
        Ok(word_of_bits(bits))
    }
}

/// The outcome of reading a field element from the front of `s`.
pub open spec fn spec_field_read_le(s: Seq<u8>) -> Result<Limbs, Error> {
    if s.len() < 32 {
        Err(Error::UnexpectedEnd)
    } else if !is_canonical(limbs_of_bytes(s.subrange(0, 32))) {
        Err(Error::NonCanonicalField)
    } else {
        Ok(limbs_of_bytes(s.subrange(0, 32)))
    }
}

/// The little-endian bits of a field element.
pub open spec fn field_bits_le(w: Limbs) -> Seq<bool> {
    bits_of_bytes(w.bytes()).subrange(0, FIELD_SIZE_IN_BITS as int)
}

/// A field element.
#[derive(Clone, Copy, Debug, PartialEq, Eq, Structural)]
pub struct Field {
    limbs: Limbs,
}

impl View for Field {
    type V = Limbs;

    closed spec fn view(&self) -> Limbs {
        self.limbs
    }
}

impl Field {
    #[verifier::type_invariant]
    closed spec fn inv(self) -> bool {
        is_canonical(self.limbs)
    }

    /// The 256-bit word of the element.
    pub fn limbs(&self) -> (r: Limbs)
        ensures
            r == self@,
            is_canonical(r),
    {
        proof {
            use_type_invariant(self);
        }
        self.limbs
    }

    /// The element with the given canonical word.
    pub fn from_canonical(w: Limbs) -> (r: Field)
        requires
            is_canonical(w),
        ensures
            r@ == w,
    {
        Field { limbs: w }
    }

    /// The element with the given word, if it is canonical.
    pub fn from_limbs(w: Limbs) -> (r: Option<Field>)
        ensures
            r is Some <==> is_canonical(w),
            r matches Some(f) ==> f@ == w,
    {
        if limbs_less_than(w, modulus_limbs()) {
            Some(Field { limbs: w })
        } else {
            None
        }
    }

    /// The element zero.
    pub fn zero() -> (r: Field)
        ensures
            r@ == (Limbs { l0: 0, l1: 0, l2: 0, l3: 0 }),
    {
        Field { limbs: Limbs { l0: 0, l1: 0, l2: 0, l3: 0 } }
    }

    /// The element one.
    pub fn one() -> (r: Field)
        ensures
            r@ == (Limbs { l0: 1, l1: 0, l2: 0, l3: 0 }),
    {
        Field { limbs: Limbs { l0: 1, l1: 0, l2: 0, l3: 0 } }
    }

    /// The element `v`.
    pub fn from_u64(v: u64) -> (r: Field)
        ensures
            r@ == (Limbs { l0: v, l1: 0, l2: 0, l3: 0 }),
    {
        Field { limbs: Limbs { l0: v, l1: 0, l2: 0, l3: 0 } }
    }

    /// The element `v`, in specifications.
    pub closed spec fn spec_from_u16(v: u16) -> Field {
        Field { limbs: Limbs { l0: v as u64, l1: 0, l2: 0, l3: 0 } }
    }

    /// The element `v` of a specification is the number `v`.
    pub proof fn lemma_spec_from_u16(v: u16)
        ensures
            Field::spec_from_u16(v)@ == (Limbs { l0: v as u64, l1: 0, l2: 0, l3: 0 }),
    {
    }

    /// The element `v`.
    pub fn from_u16(v: u16) -> (r: Field)
        ensures
            r == Field::spec_from_u16(v),
            r@ == (Limbs { l0: v as u64, l1: 0, l2: 0, l3: 0 }),
    {
        Field { limbs: Limbs { l0: v as u64, l1: 0, l2: 0, l3: 0 } }
    }

    /// The number of bits of a field element.
    pub fn size_in_bits() -> (r: usize)
        ensures
            r == FIELD_SIZE_IN_BITS,
    {
        FIELD_SIZE_IN_BITS
    }

    /// The number of data bits of a field element.
    pub fn size_in_data_bits() -> (r: usize)
        ensures
            r == FIELD_SIZE_IN_DATA_BITS,
    {
        FIELD_SIZE_IN_DATA_BITS
    }

    /// Whether two elements are equal.
    pub fn is_equal(&self, other: &Field) -> (r: bool)
        ensures
            r == (self@ == other@),
    {
        self.limbs == other.limbs
    }

    /// Whether two elements differ.
    pub fn is_not_equal(&self, other: &Field) -> (r: bool)
        ensures
            r == (self@ != other@),
    {
        !self.is_equal(other)
    }

    /// Appends the 32 little-endian bytes of the element to `out`.
    pub fn write_le(&self, out: &mut Vec<u8>)
        ensures
            final(out)@ == old(out)@ + self@.bytes(),
    {
        self.limbs.write_bytes(out);
    }

    /// Reads an element from the 32 bytes of `s` at `pos`.
    pub fn read_le(s: &[u8], pos: usize) -> (r: Result<Field, Error>)
        requires
            pos <= s@.len(),
        ensures
            r matches Ok(f) ==> spec_field_read_le(s@.subrange(pos as int, s@.len() as int)) == Ok::<Limbs, Error>(f@),
            r matches Err(e) ==> spec_field_read_le(s@.subrange(pos as int, s@.len() as int)) == Err::<Limbs, Error>(e),
    {
        let ghost rest = s@.subrange(pos as int, s@.len() as int);
        if s.len() - pos < 32 {
            return Err(Error::UnexpectedEnd);
        }
        let w = Limbs::from_bytes_at(s, pos);
        assert(s@.subrange(pos as int, pos + 32) == rest.subrange(0, 32));
        match Field::from_limbs(w) {
            Some(f) => Ok(f),
            None => Err(Error::NonCanonicalField),
        }
    }

    /// Appends the 253 little-endian bits of the element to `v`.
    pub fn write_bits_le(&self, v: &mut Vec<bool>)
        ensures
            final(v)@ == old(v)@ + field_bits_le(self@),
    {
        let mut bytes: Vec<u8> = Vec::new();
        self.limbs.write_bytes(&mut bytes);
        assert(bytes@ == self@.bytes());
        let mut all: Vec<bool> = Vec::new();
        write_bytes_bits_le(bytes.as_slice(), &mut all);
        assert(all@.len() == 256);
        all.truncate(FIELD_SIZE_IN_BITS);
        let ghost start = v@;
        let mut i: usize = 0;
        while i < FIELD_SIZE_IN_BITS
            invariant
                i <= FIELD_SIZE_IN_BITS,
                all@ == field_bits_le(self@),
                v@ == start + all@.subrange(0, i as int),
            decreases FIELD_SIZE_IN_BITS - i,
        {
            v.push(all[i]);
            i = i + 1;
            assert(all@.subrange(0, i as int) == all@.subrange(0, i - 1).push(all@[i - 1]));
        }
        assert(all@.subrange(0, FIELD_SIZE_IN_BITS as int) == all@);
    }

    /// Appends the 253 big-endian bits of the element to `v`.
    pub fn write_bits_be(&self, v: &mut Vec<bool>)
        ensures
            final(v)@ == old(v)@ + field_bits_le(self@).reverse(),
    {
        let le = self.to_bits_le();
        let ghost start = v@;
        let n = le.len();
        let mut i: usize = 0;
        while i < n
            invariant
                i <= n,
                n == le@.len(),
                le@ == field_bits_le(self@),
                v@ == start + le@.reverse().subrange(0, i as int),
            decreases n - i,
        {
            v.push(le[n - 1 - i]);
            i = i + 1;
            assert(v@ =~= start + le@.reverse().subrange(0, i as int));
        }
        assert(le@.reverse().subrange(0, n as int) =~= le@.reverse());
    }

    /// The 253 little-endian bits of the element.
    pub fn to_bits_le(&self) -> (r: Vec<bool>)
        ensures
            r@ == field_bits_le(self@),
    {
        let mut v: Vec<bool> = Vec::new();
        self.write_bits_le(&mut v);
        assert(v@ == field_bits_le(self@));
        v
    }

    /// Reads an element from little-endian bits; bits past 253 must be unset.
    pub fn from_bits_le(bits: &[bool]) -> (r: Result<Field, Error>)
        ensures
            r matches Ok(f) ==> spec_field_from_bits_le(bits@) == Ok::<Limbs, Error>(f@),
            r matches Err(e) ==> spec_field_from_bits_le(bits@) == Err::<Limbs, Error>(e),
    {
        let n = bits.len();
        let mut i: usize = FIELD_SIZE_IN_BITS;
        while i < n
            invariant
                n == bits@.len(),
                FIELD_SIZE_IN_BITS <= i,
                forall|k: int| FIELD_SIZE_IN_BITS <= k < i && k < n ==> !#[trigger] bits@[k],
            decreases n - i,
        {
            if bits[i] {
                return Err(Error::ExcessBitsNonZero);
            }
            i = i + 1;
        }
        let w = word_from_bits(bits);
        match Field::from_limbs(w) {
            Some(f) => Ok(f),
            None => Err(Error::NonCanonicalField),
        }
    }
}

/// The modulus, in executable form.
fn modulus_limbs() -> (r: Limbs)
    ensures
        r == modulus(),
{
    Limbs {
        l0: 0x0a11800000000001u64,
        l1: 0x59aa76fed0000001u64,
        l2: 0x60b44d1e5c37b001u64,
        l3: 0x12ab655e9a2ca556u64,
    }
}

/// Whether `a < b` as 256-bit numbers.
pub fn limbs_less_than(a: Limbs, b: Limbs) -> (r: bool)
    ensures
        r == limbs_lt(a, b),
{
    if a.l3 != b.l3 {
        a.l3 < b.l3
    } else if a.l2 != b.l2 {
        a.l2 < b.l2
    } else if a.l1 != b.l1 {
        a.l1 < b.l1
    } else {
        a.l0 < b.l0
    }
}

/// The 256-bit word whose little-endian bits are `bits` (zero-extended, cut at 256).
pub fn word_from_bits(bits: &[bool]) -> (r: Limbs)
    ensures
        r == word_of_bits(bits@),
{
    let n = bits.len();
    let mut padded: Vec<bool> = Vec::new();
    let mut i: usize = 0;
    while i < 256
        invariant
            i <= 256,
            n == bits@.len(),
            padded@ == padded_bits(bits@).subrange(0, i as int),
        decreases 256 - i,
    {
        let b = i < n && bits[i];
        padded.push(b);
        i = i + 1;
        assert(padded_bits(bits@).subrange(0, i as int) == padded_bits(bits@).subrange(0, i - 1).push(b));
    }
    assert(padded@ == padded_bits(bits@));
    let mut bytes: Vec<u8> = Vec::new();
    let mut k: usize = 0;
    while k < 32
        invariant
            k <= 32,
            padded@ == padded_bits(bits@),
            bytes@ == bytes_of_bits(padded_bits(bits@)).subrange(0, k as int),
        decreases 32 - k,
    {
        let b = byte_from_bits_le(padded.as_slice(), 8 * k);
        bytes.push(b);
        k = k + 1;
        assert(bytes_of_bits(padded_bits(bits@)).subrange(0, k as int) == bytes_of_bits(
            padded_bits(bits@),
        ).subrange(0, k - 1).push(b));
    }
    assert(bytes@ == bytes_of_bits(padded_bits(bits@)));
    let r = Limbs::from_bytes_at(bytes.as_slice(), 0);
    assert(bytes@.subrange(0, 32) == bytes@);
    r
}

/// The top three of the 256 bits of a canonical word are unset.
pub proof fn lemma_canonical_top_bits(w: Limbs)
    requires
        is_canonical(w),
    ensures
        !bits_of_bytes(w.bytes())[253],
        !bits_of_bytes(w.bytes())[254],
        !bits_of_bytes(w.bytes())[255],
{
    let l3 = w.l3;
    assert(l3 <= 0x12ab655e9a2ca556u64);
    assert(l3 <= 0x12ab655e9a2ca556u64 ==> (((l3 >> 56u64) & 0xffu64) as u8 >> 5u8) & 1u8 == 0u8
        && (((l3 >> 56u64) & 0xffu64) as u8 >> 6u8) & 1u8 == 0u8 && (((l3 >> 56u64) & 0xffu64) as u8
        >> 7u8) & 1u8 == 0u8) by (bit_vector);
    assert(w.byte(31) == limb_byte(l3, 7));
    assert(253int / 8 == 31 && 253int % 8 == 5);
    assert(254int / 8 == 31 && 254int % 8 == 6);
    assert(255int / 8 == 31 && 255int % 8 == 7);
}

/// Reading back the bits of a field element gives the element.
pub proof fn lemma_field_bits_roundtrip(w: Limbs)
    requires
        is_canonical(w),
    ensures
        spec_field_from_bits_le(field_bits_le(w)) == Ok::<Limbs, Error>(w),
{
    let all = bits_of_bytes(w.bytes());
    let bits = field_bits_le(w);
    lemma_canonical_top_bits(w);
    assert(all.len() == 256);
    assert(bits.len() == 253);
    assert(padded_bits(bits) =~= all) by {
        assert forall|i: int| 0 <= i < 256 implies #[trigger] padded_bits(bits)[i] == all[i] by {
            if i < 253 {
                assert(bits[i] == all[i]);
            }
        }
    }
    lemma_bytes_bits_roundtrip(w.bytes());
    assert(bytes_of_bits(padded_bits(bits)) == w.bytes());
    lemma_limbs_bytes_roundtrip(w);
    assert(word_of_bits(bits) == w);
    assert(bits_zero_from(bits, FIELD_SIZE_IN_BITS as int));
}

/// Reading back the bytes of a field element gives the element.
pub proof fn lemma_field_bytes_roundtrip(w: Limbs, rest: Seq<u8>)
    requires
        is_canonical(w),
    ensures
        spec_field_read_le(w.bytes() + rest) == Ok::<Limbs, Error>(w),
{
    assert((w.bytes() + rest).subrange(0, 32) =~= w.bytes());
    lemma_limbs_bytes_roundtrip(w);
}

} // verus!
