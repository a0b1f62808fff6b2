//! Identifier literals: a letter followed by letters, digits and underscores, at most
//! 31 bytes, held as 31 bytes padded with zeros, whose 248 little-endian bits fit in
//! a field element.
use vstd::prelude::*;
use vstd::string::*;
use vstd::utf8::*;

use crate::bits::{
    bits_of_bytes, byte_from_bits_le, byte_of, byte_of_bits, bytes_of_bits,
    lemma_bits_bytes_roundtrip, lemma_bytes_bits_roundtrip, write_bytes_bits_le,
};
use crate::error::Error;
use crate::field::{
    bits_zero_from, field_bits_le, is_canonical, modulus, padded_bits, spec_field_from_bits_le, word_of_bits,
    Field, FIELD_SIZE_IN_BITS,
};
use crate::limbs::{lemma_bytes_limbs_roundtrip, limb_at, limb_of, limbs_of_bytes, Limbs};
use crate::text::{chars_of_bytes, lemma_ascii_chars_bytes, lemma_ascii_prefix_boundary, push_ascii, push_char};

verus! {

/// The number of bytes of an identifier literal, padding included.
pub const IDENTIFIER_SIZE_IN_BYTES: usize = 31;

/// The number of bits of an identifier literal.
pub const IDENTIFIER_SIZE_IN_BITS: usize = 248;

/// An ASCII letter.
pub open spec fn is_letter(b: u8) -> bool {
    (0x41 <= b && b <= 0x5a) || (0x61 <= b && b <= 0x7a)
}

/// An ASCII digit.
pub open spec fn is_digit(b: u8) -> bool {
    0x30 <= b && b <= 0x39
}

/// A byte allowed inside an identifier: a letter, a digit or `_`.
pub open spec fn is_identifier_char(b: u8) -> bool {
    is_letter(b) || is_digit(b) || b == 0x5f
}

/// The content of an identifier literal: 1 to 31 identifier bytes, the first a letter.
pub open spec fn is_identifier(s: Seq<u8>) -> bool {
    &&& 1 <= s.len() <= IDENTIFIER_SIZE_IN_BYTES
    &&& is_letter(s[0])
    &&& forall|i: int| 0 <= i < s.len() ==> is_identifier_char(#[trigger] s[i])
}

/// The 31 bytes of an identifier: its content followed by zeros.
pub open spec fn padded_bytes(s: Seq<u8>) -> Seq<u8> {
    Seq::new(IDENTIFIER_SIZE_IN_BYTES as nat, |i: int| if i < s.len() { s[i] } else { 0u8 })
}

/// The index of the first zero byte of `b` at or after `i`, or the length of `b`.
pub open spec fn first_zero_from(b: Seq<u8>, i: int) -> int
    decreases b.len() - i,
{
    if i >= b.len() {
        b.len() as int
    } else if b[i] == 0 {
        i
    } else {
        first_zero_from(b, i + 1)
    }
}

/// The index of the first non-identifier byte of `b` at or after `i`, or the length of `b`.
pub open spec fn identifier_end_from(b: Seq<u8>, i: int) -> int
    decreases b.len() - i,
{
    if i >= b.len() {
        b.len() as int
    } else if !is_identifier_char(b[i]) {
        i
    } else {
        identifier_end_from(b, i + 1)
    }
}

/// The outcome of making an identifier literal from its content.
pub open spec fn spec_identifier_new(s: Seq<u8>) -> Result<Seq<u8>, Error> {
    if !(1 <= s.len() <= IDENTIFIER_SIZE_IN_BYTES) {
        Err(Error::InvalidLength)
    } else if !is_identifier(s) {
        Err(Error::InvalidCharacter)
    } else {
        Ok(s)
    }
}

/// The outcome of decoding 31 padded bytes: the content runs up to the first zero byte,
/// and every byte after it must be zero.
pub open spec fn spec_from_bytes_array(b: Seq<u8>) -> Result<Seq<u8>, Error> {
    let n = first_zero_from(b, 0);
    if n == 0 {
        Err(Error::InvalidLength)
    } else if !is_identifier(b.subrange(0, n)) || !(forall|i: int|
        n <= i < b.len() ==> #[trigger] b[i] == 0) {
        Err(Error::InvalidCharacter)
    } else {
        Ok(b.subrange(0, n))
    }
}

/// The byte encoding: the length as one byte, then the content.
pub open spec fn identifier_bytes_le(s: Seq<u8>) -> Seq<u8> {
    seq![s.len() as u8] + s
}

/// The outcome of reading an identifier literal from the front of `s`: the content and
/// the number of bytes read.
pub open spec fn spec_identifier_read_le(s: Seq<u8>) -> Result<(Seq<u8>, int), Error> {
    if s.len() < 1 {
        Err(Error::UnexpectedEnd)
    } else if s[0] == 0 || s[0] > IDENTIFIER_SIZE_IN_BYTES {
        Err(Error::InvalidLength)
    } else if s.len() < 1 + s[0] {
        Err(Error::UnexpectedEnd)
    } else {
        match spec_from_bytes_array(padded_bytes(s.subrange(1, 1 + s[0]))) {
            Ok(c) => Ok((c, 1 + s[0])),
            Err(e) => Err(e),
        }
    }
}

/// The 248 little-endian bits of an identifier.
pub open spec fn identifier_bits_le(s: Seq<u8>) -> Seq<bool> {
    bits_of_bytes(padded_bytes(s))
}

/// The 248 big-endian bits of an identifier.
pub open spec fn identifier_bits_be(s: Seq<u8>) -> Seq<bool> {
    identifier_bits_le(s).reverse()
}

/// The outcome of reading an identifier literal from little-endian bits: at least 248
/// bits, any further bits unset.
pub open spec fn spec_identifier_from_bits_le(bits: Seq<bool>) -> Result<Seq<u8>, Error> {
    if bits.len() < IDENTIFIER_SIZE_IN_BITS {
        Err(Error::InvalidLength)
    } else if !bits_zero_from(bits, IDENTIFIER_SIZE_IN_BITS as int) {
        Err(Error::ExcessBitsNonZero)
    } else {
        spec_from_bytes_array(bytes_of_bits(bits.subrange(0, IDENTIFIER_SIZE_IN_BITS as int)))
    }
}

/// The outcome of reading an identifier literal from big-endian bits.
pub open spec fn spec_identifier_from_bits_be(bits: Seq<bool>) -> Result<Seq<u8>, Error> {
    spec_identifier_from_bits_le(bits.reverse())
}

/// The field element of an identifier: the number whose little-endian bits are its bits.
pub open spec fn identifier_field(s: Seq<u8>) -> Limbs {
    word_of_bits(identifier_bits_le(s))
}

/// The outcome of parsing `'<identifier>'` from the front of the bytes `b`: the content
/// and the number of bytes read.
pub open spec fn spec_identifier_parse(b: Seq<u8>) -> Result<(Seq<u8>, int), Error> {
    if b.len() < 2 || b[0] != 0x27 || !is_letter(b[1]) {
        Err(Error::Syntax)
    } else {
        let e = identifier_end_from(b, 1);
        if e - 1 > IDENTIFIER_SIZE_IN_BYTES {
            Err(Error::InvalidLength)
        } else if e >= b.len() || b[e] != 0x27 {
            Err(Error::Syntax)
        } else {
            Ok((b.subrange(1, e), e + 1))
        }
    }
}

/// The text of an identifier literal: its content between single quotes.
pub open spec fn identifier_display(s: Seq<u8>) -> Seq<char> {
    seq!['\''] + chars_of_bytes(s) + seq!['\'']
}

/// An identifier literal.
#[derive(Debug, PartialEq, Eq)]
pub struct IdentifierLiteral {
    content: Vec<u8>,
}

impl View for IdentifierLiteral {
    type V = Seq<u8>;

    closed spec fn view(&self) -> Seq<u8> {
        self.content@
    }
}

/// `first_zero_from` is `n` when the bytes from `i` to `n` are nonzero and `n` ends them.
proof fn lemma_first_zero(b: Seq<u8>, i: int, n: int)
    requires
        0 <= i <= n <= b.len(),
        forall|j: int| i <= j < n ==> b[j] != 0,
        n == b.len() || b[n] == 0,
    ensures
        first_zero_from(b, i) == n,
    decreases n - i,
{
    if i < n {
        lemma_first_zero(b, i + 1, n);
    }
}

/// `identifier_end_from` is `n` when the bytes from `i` to `n` are identifier bytes and `n` ends them.
proof fn lemma_identifier_end(b: Seq<u8>, i: int, n: int)
    requires
        0 <= i <= n <= b.len(),
        forall|j: int| i <= j < n ==> is_identifier_char(b[j]),
        n == b.len() || !is_identifier_char(b[n]),
    ensures
        identifier_end_from(b, i) == n,
    decreases n - i,
{
    if i < n {
        lemma_identifier_end(b, i + 1, n);
    }
}

/// `identifier_end_from(b, i)` lies between `i` and the length, and all bytes before it are identifier bytes.
proof fn lemma_identifier_end_bounds(b: Seq<u8>, i: int)
    requires
        0 <= i <= b.len(),
    ensures
        i <= identifier_end_from(b, i) <= b.len(),
        forall|j: int| i <= j < identifier_end_from(b, i) ==> is_identifier_char(b[j]),
        identifier_end_from(b, i) == b.len() || !is_identifier_char(b[identifier_end_from(b, i)]),
    decreases b.len() - i,
{
    if i < b.len() && is_identifier_char(b[i]) {
        lemma_identifier_end_bounds(b, i + 1);
    }
}

/// The padded bytes of an identifier decode to it.
pub proof fn lemma_from_padded_bytes(s: Seq<u8>)
    requires
        is_identifier(s),
    ensures
        spec_from_bytes_array(padded_bytes(s)) == Ok::<Seq<u8>, Error>(s),
{
    let b = padded_bytes(s);
    assert forall|j: int| 0 <= j < s.len() implies b[j] != 0 by {
        assert(is_identifier_char(s[j]));
    }
    lemma_first_zero(b, 0, s.len() as int);
    assert(b.subrange(0, s.len() as int) =~= s);
}

/// An identifier is a valid argument of `new` exactly when it is an identifier.
pub proof fn lemma_new_accepts_identifiers(s: Seq<u8>)
    ensures
        spec_identifier_new(s) is Ok <==> is_identifier(s),
        is_identifier(s) ==> spec_identifier_new(s) == Ok::<Seq<u8>, Error>(s),
{
}

/// Reading back the bytes of an identifier literal gives the literal, whatever follows.
pub proof fn lemma_identifier_bytes_roundtrip(s: Seq<u8>, rest: Seq<u8>)
    requires
        is_identifier(s),
    ensures
        spec_identifier_read_le(identifier_bytes_le(s) + rest) == Ok::<(Seq<u8>, int), Error>(
            (s, 1 + s.len() as int),
        ),
{
    let t = identifier_bytes_le(s) + rest;
    assert(t[0] == s.len() as u8);
    assert(t.subrange(1, 1 + s.len() as int) =~= s);
    lemma_from_padded_bytes(s);
}

/// Reading back the little-endian bits of an identifier literal gives the literal.
pub proof fn lemma_identifier_bits_le_roundtrip(s: Seq<u8>)
    requires
        is_identifier(s),
    ensures
        spec_identifier_from_bits_le(identifier_bits_le(s)) == Ok::<Seq<u8>, Error>(s),
{
    let bits = identifier_bits_le(s);
    assert(bits.len() == 248);
    assert(bits.subrange(0, 248) =~= bits);
    lemma_bytes_bits_roundtrip(padded_bytes(s));
    lemma_from_padded_bytes(s);
}

/// Reading back the big-endian bits of an identifier literal gives the literal.
pub proof fn lemma_identifier_bits_be_roundtrip(s: Seq<u8>)
    requires
        is_identifier(s),
    ensures
        spec_identifier_from_bits_be(identifier_bits_be(s)) == Ok::<Seq<u8>, Error>(s),
{
    assert(identifier_bits_be(s).reverse() =~= identifier_bits_le(s));
    lemma_identifier_bits_le_roundtrip(s);
}

/// Parsing the text of an identifier literal gives the literal and reads the whole text;
/// any text after it is left over.
pub proof fn lemma_identifier_parse_display(s: Seq<u8>, rest: Seq<u8>)
    requires
        is_identifier(s),
    ensures
        spec_identifier_parse(encode_utf8(identifier_display(s)) + rest) == Ok::<(Seq<u8>, int), Error>(
            (s, s.len() + 2int),
        ),
{
    let q: Seq<u8> = seq![0x27u8];
    let bytes = q + s + q;
    assert forall|i: int| 0 <= i < bytes.len() implies bytes[i] < 0x80 by {
        if 1 <= i < 1 + s.len() {
            assert(bytes[i] == s[i - 1]);
            assert(is_identifier_char(s[i - 1]));
        }
    }
    lemma_ascii_chars_bytes(bytes);
    assert(chars_of_bytes(bytes) =~= identifier_display(s));
    let b = bytes + rest;
    assert(b[0] == 0x27u8);
    assert(b[1] == s[0]);
    assert forall|j: int| 1 <= j < 1 + s.len() implies is_identifier_char(b[j]) by {
        assert(b[j] == s[j - 1]);
    }
    assert(b[1 + s.len() as int] == 0x27u8);
    lemma_identifier_end(b, 1, 1 + s.len() as int);
    assert(b.subrange(1, 1 + s.len() as int) =~= s);
}

/// The field element of an identifier is the number whose 32 little-endian bytes are its
/// 31 padded bytes and a zero byte.
pub proof fn lemma_identifier_field_bytes(s: Seq<u8>)
    ensures
        identifier_field(s) == limbs_of_bytes(padded_bytes(s).push(0u8)),
{
    let bits = identifier_bits_le(s);
    let pb = padded_bits(bits);
    let full = padded_bytes(s).push(0u8);
    let target = bits_of_bytes(full);
    assert(bits.len() == 248);
    assert(target.len() == 256);
    assert forall|i: int| 0 <= i < 256 implies #[trigger] pb[i] == target[i] by {
        if i < 248 {
            assert(i / 8 < 31);
            assert(full[i / 8] == padded_bytes(s)[i / 8]);
        } else {
            assert(i / 8 == 31);
            assert(full[i / 8] == 0u8);
            let j = (i % 8) as u8;
            assert(j < 8);
            assert((0u8 >> j) & 1u8 != 1u8) by (bit_vector);
        }
    }
    assert(pb =~= target);
    lemma_bytes_bits_roundtrip(full);
}

/// The field element of an identifier is canonical: its top byte is zero.
pub proof fn lemma_identifier_field_canonical(s: Seq<u8>)
    ensures
        is_canonical(identifier_field(s)),
{
    lemma_identifier_field_bytes(s);
    let bytes = padded_bytes(s).push(0u8);
    let (b0, b1, b2, b3, b4, b5, b6) = (bytes[24], bytes[25], bytes[26], bytes[27], bytes[28], bytes[29], bytes[30]);
    assert(limb_of(b0, b1, b2, b3, b4, b5, b6, 0u8) < 0x0100_0000_0000_0000u64) by (bit_vector);
    assert(limb_at(bytes, 24) == limb_of(b0, b1, b2, b3, b4, b5, b6, 0u8));
    assert(modulus().l3 == 0x12ab655e9a2ca556u64);
}

/// The lowest byte of the field element of an identifier is its first letter, so the
/// element is neither zero nor one.
pub proof fn lemma_identifier_field_not_boolean(s: Seq<u8>)
    requires
        is_identifier(s),
    ensures
        identifier_field(s) != (Limbs { l0: 0, l1: 0, l2: 0, l3: 0 }),
        identifier_field(s) != (Limbs { l0: 1, l1: 0, l2: 0, l3: 0 }),
{
    lemma_identifier_field_bytes(s);
    let bytes = padded_bytes(s).push(0u8);
    let (b0, b1, b2, b3, b4, b5, b6, b7) = (bytes[0], bytes[1], bytes[2], bytes[3], bytes[4], bytes[5], bytes[6], bytes[7]);
    assert(b0 == s[0]);
    assert(b0 >= 0x41u8 ==> limb_of(b0, b1, b2, b3, b4, b5, b6, b7) >= 0x41u64) by (bit_vector);
    assert(limb_at(bytes, 0) == limb_of(b0, b1, b2, b3, b4, b5, b6, b7));
}

/// The bits of the field element of an identifier are those of its padded bytes and a zero byte.
proof fn lemma_identifier_field_bits(s: Seq<u8>)
    ensures
        field_bits_le(identifier_field(s)) == bits_of_bytes(padded_bytes(s).push(0u8)).subrange(0, 253),
{
    let full = padded_bytes(s).push(0u8);
    lemma_identifier_field_bytes(s);
    lemma_bytes_limbs_roundtrip(full);
}

/// The bits of the padded bytes and a zero byte: the identifier's bits, then zeros.
proof fn lemma_padded_zero_bits(s: Seq<u8>)
    ensures
        bits_of_bytes(padded_bytes(s).push(0u8)).subrange(0, 248) == identifier_bits_le(s),
        forall|i: int| 248 <= i < 256 ==> !#[trigger] bits_of_bytes(padded_bytes(s).push(0u8))[i],
{
    let full = padded_bytes(s).push(0u8);
    let all = bits_of_bytes(full);
    assert forall|i: int| 0 <= i < 248 implies #[trigger] all[i] == identifier_bits_le(s)[i] by {
        assert(i / 8 < 31);
        assert(full[i / 8] == padded_bytes(s)[i / 8]);
    }
    assert(all.subrange(0, 248) =~= identifier_bits_le(s));
    assert forall|i: int| 248 <= i < 256 implies !#[trigger] all[i] by {
        assert(i / 8 == 31);
        assert(full[i / 8] == 0u8);
        let j = (i % 8) as u8;
        assert(j < 8);
        assert((0u8 >> j) & 1u8 != 1u8) by (bit_vector);
    }
}

/// The bits of the field element of an identifier are its own 248 bits followed by zeros,
/// and reading an identifier literal back from them gives the literal.
pub proof fn lemma_identifier_field_roundtrip(s: Seq<u8>)
    requires
        is_identifier(s),
    ensures
        field_bits_le(identifier_field(s)).subrange(0, IDENTIFIER_SIZE_IN_BITS as int)
            == identifier_bits_le(s),
        bits_zero_from(field_bits_le(identifier_field(s)), IDENTIFIER_SIZE_IN_BITS as int),
        spec_identifier_from_bits_le(field_bits_le(identifier_field(s))) == Ok::<Seq<u8>, Error>(s),
{
    let all = bits_of_bytes(padded_bytes(s).push(0u8));
    let fb = field_bits_le(identifier_field(s));
    let ib = identifier_bits_le(s);
    lemma_identifier_field_bits(s);
    lemma_padded_zero_bits(s);
    assert(all.len() == 256);
    assert(fb.len() == 253);
    assert(fb.subrange(0, 248) == ib) by {
        assert(fb.subrange(0, 248) =~= all.subrange(0, 248));
    }
    assert(bits_zero_from(fb, 248)) by {
        assert forall|i: int| 248 <= i < fb.len() implies !#[trigger] fb[i] by {
            assert(fb[i] == all[i]);
        }
    }
    assert(spec_identifier_from_bits_le(fb) == spec_from_bytes_array(bytes_of_bits(ib)));
    assert(ib.subrange(0, 248) =~= ib);
    lemma_identifier_bits_le_roundtrip(s);
}

impl IdentifierLiteral {
    #[verifier::type_invariant]
    closed spec fn inv(self) -> bool {
        is_identifier(self.content@)
    }

    /// The content bytes, without padding.
    pub fn content(&self) -> (r: Vec<u8>)
        ensures
            r@ == self@,
            is_identifier(r@),
    {
        proof {
            use_type_invariant(self);
        }
        let mut r: Vec<u8> = Vec::new();
        let n = self.content.len();
        let mut i: usize = 0;
        while i < n
            invariant
                i <= n,
                n == self@.len(),
                r@ == self@.subrange(0, i as int),
            decreases n - i,
        {
            r.push(self.content[i]);
            i = i + 1;
            assert(r@ =~= self@.subrange(0, i as int));
        }
        assert(r@ =~= self@);
        r
    }

    /// Makes an identifier literal from its text, which must be 1 to 31 letters, digits
    /// or underscores, the first a letter.
    pub fn new(s: &str) -> (r: Result<IdentifierLiteral, Error>)
        ensures
            r matches Ok(id) ==> spec_identifier_new(s.spec_bytes()) == Ok::<Seq<u8>, Error>(id@),
            r matches Err(e) ==> spec_identifier_new(s.spec_bytes()) == Err::<Seq<u8>, Error>(e),
    {
        Self::from_content(s.as_bytes())
    }

    /// Makes an identifier literal from its content bytes.
    pub fn from_content(b: &[u8]) -> (r: Result<IdentifierLiteral, Error>)
        ensures
            r matches Ok(id) ==> spec_identifier_new(b@) == Ok::<Seq<u8>, Error>(id@),
            r matches Err(e) ==> spec_identifier_new(b@) == Err::<Seq<u8>, Error>(e),
    {
        let n = b.len();
        if n == 0 || n > IDENTIFIER_SIZE_IN_BYTES {
            return Err(Error::InvalidLength);
        }
        if !is_letter_byte(b[0]) {
            return Err(Error::InvalidCharacter);
        }
        let mut content: Vec<u8> = Vec::new();
        let mut i: usize = 0;
        while i < n
            invariant
                i <= n,
                n == b@.len(),
                1 <= n <= IDENTIFIER_SIZE_IN_BYTES,
                is_letter(b@[0]),
                content@ == b@.subrange(0, i as int),
                forall|j: int| 0 <= j < i ==> is_identifier_char(#[trigger] b@[j]),
            decreases n - i,
        {
            if !is_identifier_byte(b[i]) {
                assert(!is_identifier_char(b@[i as int]));
                assert(!is_identifier(b@));
                return Err(Error::InvalidCharacter);
            }
            content.push(b[i]);
            i = i + 1;
            assert(content@ =~= b@.subrange(0, i as int));
        }
        assert(content@ =~= b@);
        Ok(IdentifierLiteral { content })
    }

    /// Makes an identifier literal from 31 padded bytes: the content runs up to the first
    /// zero byte, and every byte after it must be zero.
    pub fn from_bytes_array(b: &[u8]) -> (r: Result<IdentifierLiteral, Error>)
        requires
            b@.len() == IDENTIFIER_SIZE_IN_BYTES,
        ensures
            r matches Ok(id) ==> spec_from_bytes_array(b@) == Ok::<Seq<u8>, Error>(id@),
            r matches Err(e) ==> spec_from_bytes_array(b@) == Err::<Seq<u8>, Error>(e),
    {
        let mut n: usize = 0;
        while n < IDENTIFIER_SIZE_IN_BYTES && b[n] != 0
            invariant
                n <= IDENTIFIER_SIZE_IN_BYTES,
                b@.len() == IDENTIFIER_SIZE_IN_BYTES,
                forall|j: int| 0 <= j < n ==> b@[j] != 0,
            decreases IDENTIFIER_SIZE_IN_BYTES - n,
        {
            n = n + 1;
        }
        proof {
            lemma_first_zero(b@, 0, n as int);
        }
        if n == 0 {
            return Err(Error::InvalidLength);
        }
        let mut k: usize = n;
        while k < IDENTIFIER_SIZE_IN_BYTES
            invariant
                1 <= n <= k <= IDENTIFIER_SIZE_IN_BYTES,
                first_zero_from(b@, 0) == n,
                b@.len() == IDENTIFIER_SIZE_IN_BYTES,
                forall|j: int| n <= j < k ==> #[trigger] b@[j] == 0,
            decreases IDENTIFIER_SIZE_IN_BYTES - k,
        {
            if b[k] != 0 {
                assert(b@[k as int] != 0);
                assert(!(forall|j: int| n <= j < b@.len() ==> #[trigger] b@[j] == 0));
                return Err(Error::InvalidCharacter);
            }
            k = k + 1;
        }
        let (head, _) = b.split_at(n);
        assert(head@ =~= b@.subrange(0, n as int));
        match Self::from_content(head) {
            Ok(id) => Ok(id),
            Err(_) => Err(Error::InvalidCharacter),
        }
    }

    /// The number of content bytes.
    pub fn length(&self) -> (r: u8)
        ensures
            r == self@.len(),
            1 <= r <= IDENTIFIER_SIZE_IN_BYTES,
    {
        proof {
            use_type_invariant(self);
        }
        self.content.len() as u8
    }

    /// The 31 bytes of the literal: its content followed by zeros.
    pub fn to_bytes_array(&self) -> (r: Vec<u8>)
        ensures
            r@ == padded_bytes(self@),
    {
        proof {
            use_type_invariant(self);
        }
        let n = self.content.len();
        let mut r: Vec<u8> = Vec::new();
        let mut i: usize = 0;
        while i < IDENTIFIER_SIZE_IN_BYTES
            invariant
                i <= IDENTIFIER_SIZE_IN_BYTES,
                n == self@.len(),
                r@ == padded_bytes(self@).subrange(0, i as int),
            decreases IDENTIFIER_SIZE_IN_BYTES - i,
        {
            let x = if i < n {
                self.content[i]
            } else {
                0u8
            };
            r.push(x);
            i = i + 1;
            assert(r@ =~= padded_bytes(self@).subrange(0, i as int));
        }
        assert(r@ =~= padded_bytes(self@));
        r
    }

    /// Appends the byte encoding to `out`: the length as one byte, then the content.
    pub fn write_le(&self, out: &mut Vec<u8>)
        ensures
            final(out)@ == old(out)@ + identifier_bytes_le(self@),
    {
        let ghost start = out@;
        let len = self.length();
        out.push(len);
        let n = self.content.len();
        let mut i: usize = 0;
        while i < n
            invariant
                i <= n,
                n == self@.len(),
                len == self@.len(),
                out@ == start + seq![len] + self@.subrange(0, i as int),
            decreases n - i,
        {
            out.push(self.content[i]);
            i = i + 1;
            assert(out@ =~= start + seq![len] + self@.subrange(0, i as int));
        }
        assert(self@.subrange(0, n as int) =~= self@);
        assert(out@ =~= start + identifier_bytes_le(self@));
    }

    /// Reads an identifier literal from the bytes of `s` at `pos`; returns it and the
    /// position after it.
    pub fn read_le(s: &[u8], pos: usize) -> (r: Result<(IdentifierLiteral, usize), Error>)
        requires
            pos <= s@.len(),
        ensures
            r matches Ok((id, end)) ==> spec_identifier_read_le(s@.subrange(pos as int, s@.len() as int))
                == Ok::<(Seq<u8>, int), Error>((id@, end - pos)),
            r matches Err(e) ==> spec_identifier_read_le(s@.subrange(pos as int, s@.len() as int))
                == Err::<(Seq<u8>, int), Error>(e),
    {
        let ghost rest = s@.subrange(pos as int, s@.len() as int);
        if s.len() - pos < 1 {
            return Err(Error::UnexpectedEnd);
        }
        let num = s[pos];
        assert(num == rest[0]);
        if num == 0 || num as usize > IDENTIFIER_SIZE_IN_BYTES {
            return Err(Error::InvalidLength);
        }
        let n = num as usize;
        if s.len() - pos - 1 < n {
            return Err(Error::UnexpectedEnd);
        }
        let base = pos + 1;
        let len = s.len();
        let mut bytes: Vec<u8> = Vec::new();
        let mut i: usize = 0;
        while i < IDENTIFIER_SIZE_IN_BYTES
            invariant
                i <= IDENTIFIER_SIZE_IN_BYTES,
                1 <= n <= IDENTIFIER_SIZE_IN_BYTES,
                base == pos + 1,
                len == s@.len(),
                base + n <= len,
                bytes@ == padded_bytes(s@.subrange(pos + 1, pos + 1 + n)).subrange(0, i as int),
            decreases IDENTIFIER_SIZE_IN_BYTES - i,
        {
            let x = if i < n {
                s[base + i]
            } else {
                0u8
            };
            bytes.push(x);
            i = i + 1;
            assert(bytes@ =~= padded_bytes(s@.subrange(pos + 1, pos + 1 + n)).subrange(0, i as int));
        }
        assert(bytes@ =~= padded_bytes(s@.subrange(pos + 1, pos + 1 + n)));
        assert(rest.subrange(1, 1 + n) =~= s@.subrange(pos + 1, pos + 1 + n));
        match Self::from_bytes_array(bytes.as_slice()) {
            Ok(id) => Ok((id, pos + 1 + n)),
            Err(e) => Err(e),
        }
    }

    /// Appends the 248 little-endian bits to `v`.
    pub fn write_bits_le(&self, v: &mut Vec<bool>)
        ensures
            final(v)@ == old(v)@ + identifier_bits_le(self@),
    {
        let bytes = self.to_bytes_array();
        write_bytes_bits_le(bytes.as_slice(), v);
    }

    /// The 248 little-endian bits.
    pub fn to_bits_le(&self) -> (r: Vec<bool>)
        ensures
            r@ == identifier_bits_le(self@),
    {
        let mut v: Vec<bool> = Vec::new();
        self.write_bits_le(&mut v);
        assert(v@ =~= identifier_bits_le(self@));
        v
    }

    /// Appends the 248 big-endian bits to `v`.
    pub fn write_bits_be(&self, v: &mut Vec<bool>)
        ensures
            final(v)@ == old(v)@ + identifier_bits_be(self@),
    {
        let le = self.to_bits_le();
        let ghost start = v@;
        let n = le.len();
        let mut i: usize = 0;
        while i < n
            invariant
                i <= n,
                n == le@.len(),
                le@ == identifier_bits_le(self@),
                v@ == start + le@.reverse().subrange(0, i as int),
            decreases n - i,
        {
            v.push(le[n - 1 - i]);
            i = i + 1;
            assert(v@ =~= start + le@.reverse().subrange(0, i as int));
        }
        assert(le@.reverse().subrange(0, n as int) =~= le@.reverse());
    }

    /// The 248 big-endian bits.
    pub fn to_bits_be(&self) -> (r: Vec<bool>)
        ensures
            r@ == identifier_bits_be(self@),
    {
        let mut v: Vec<bool> = Vec::new();
        self.write_bits_be(&mut v);
        assert(v@ =~= identifier_bits_be(self@));
        v
    }

    /// Reads an identifier literal from little-endian bits: at least 248 bits, any further
    /// bits unset.
    pub fn from_bits_le(bits: &[bool]) -> (r: Result<IdentifierLiteral, Error>)
        ensures
            r matches Ok(id) ==> spec_identifier_from_bits_le(bits@) == Ok::<Seq<u8>, Error>(id@),
            r matches Err(e) ==> spec_identifier_from_bits_le(bits@) == Err::<Seq<u8>, Error>(e),
    {
        let n = bits.len();
        if n < IDENTIFIER_SIZE_IN_BITS {
            return Err(Error::InvalidLength);
        }
        let mut i: usize = IDENTIFIER_SIZE_IN_BITS;
        while i < n
            invariant
                n == bits@.len(),
                IDENTIFIER_SIZE_IN_BITS <= i <= n,
                forall|k: int| IDENTIFIER_SIZE_IN_BITS <= k < i ==> !#[trigger] bits@[k],
            decreases n - i,
        {
            if bits[i] {
                return Err(Error::ExcessBitsNonZero);
            }
            i = i + 1;
        }
        let ghost low = bits@.subrange(0, IDENTIFIER_SIZE_IN_BITS as int);
        let mut bytes: Vec<u8> = Vec::new();
        let mut k: usize = 0;
        while k < IDENTIFIER_SIZE_IN_BYTES
            invariant
                k <= IDENTIFIER_SIZE_IN_BYTES,
                n == bits@.len(),
                n >= IDENTIFIER_SIZE_IN_BITS,
                low == bits@.subrange(0, IDENTIFIER_SIZE_IN_BITS as int),
                bytes@ == bytes_of_bits(low).subrange(0, k as int),
            decreases IDENTIFIER_SIZE_IN_BYTES - k,
        {
            let b = byte_from_bits_le(bits, 8 * k);
            assert(byte_of_bits(bits@, 8 * k) == byte_of_bits(low, 8 * k));
            bytes.push(b);
            k = k + 1;
            assert(bytes@ =~= bytes_of_bits(low).subrange(0, k as int));
        }
        assert(bytes@ =~= bytes_of_bits(low));
        Self::from_bytes_array(bytes.as_slice())
    }

    /// Reads an identifier literal from big-endian bits.
    pub fn from_bits_be(bits: &[bool]) -> (r: Result<IdentifierLiteral, Error>)
        ensures
            r matches Ok(id) ==> spec_identifier_from_bits_be(bits@) == Ok::<Seq<u8>, Error>(id@),
            r matches Err(e) ==> spec_identifier_from_bits_be(bits@) == Err::<Seq<u8>, Error>(e),
    {
        let n = bits.len();
        let mut le: Vec<bool> = Vec::new();
        let mut i: usize = 0;
        while i < n
            invariant
                i <= n,
                n == bits@.len(),
                le@ == bits@.reverse().subrange(0, i as int),
            decreases n - i,
        {
            le.push(bits[n - 1 - i]);
            i = i + 1;
            assert(le@ =~= bits@.reverse().subrange(0, i as int));
        }
        assert(le@ =~= bits@.reverse());
        Self::from_bits_le(le.as_slice())
    }

    /// The field element whose little-endian bits are the literal's bits.
    pub fn to_field(&self) -> (r: Result<Field, Error>)
        ensures
            r is Ok,
            r matches Ok(f) ==> f@ == identifier_field(self@),
    {
        let bits = self.to_bits_le();
        proof {
            lemma_identifier_field_canonical(self@);
            assert(bits_zero_from(bits@, FIELD_SIZE_IN_BITS as int));
        }
        Field::from_bits_le(bits.as_slice())
    }

    /// Reads an identifier literal from the bits of a field element.
    pub fn from_field(f: &Field) -> (r: Result<IdentifierLiteral, Error>)
        ensures
            r matches Ok(id) ==> spec_identifier_from_bits_le(field_bits_le(f@)) == Ok::<
                Seq<u8>,
                Error,
            >(id@),
            r matches Err(e) ==> spec_identifier_from_bits_le(field_bits_le(f@)) == Err::<
                Seq<u8>,
                Error,
            >(e),
    {
        let bits = f.to_bits_le();
        Self::from_bits_le(bits.as_slice())
    }

    /// Whether two literals are equal.
    pub fn is_equal(&self, other: &IdentifierLiteral) -> (r: bool)
        ensures
            r == (self@ == other@),
    {
        let n = self.content.len();
        if n != other.content.len() {
            return false;
        }
        let mut i: usize = 0;
        while i < n
            invariant
                i <= n,
                n == self@.len(),
                n == other@.len(),
                forall|j: int| 0 <= j < i ==> self@[j] == other@[j],
            decreases n - i,
        {
            if self.content[i] != other.content[i] {
                return false;
            }
            i = i + 1;
        }
        assert(self@ =~= other@);
        true
    }

    /// Whether two literals differ.
    pub fn is_not_equal(&self, other: &IdentifierLiteral) -> (r: bool)
        ensures
            r == (self@ != other@),
    {
        !self.is_equal(other)
    }

    /// Parses `'<identifier>'` from the front of `s`; returns the rest of `s` and the literal.
    pub fn parse(s: &str) -> (r: Result<(&str, IdentifierLiteral), Error>)
        ensures
            r matches Ok((rest, id)) ==> spec_identifier_parse(s.spec_bytes()) matches Ok((c, k)) && id@
                == c && 0 <= k <= s.spec_bytes().len() && rest.spec_bytes() == s.spec_bytes().subrange(
                k,
                s.spec_bytes().len() as int,
            ),
            r matches Err(e) ==> spec_identifier_parse(s.spec_bytes()) == Err::<(Seq<u8>, int), Error>(e),
    {
        let b = s.as_bytes();
        let n = b.len();
        if n < 2 || b[0] != 0x27 || !is_letter_byte(b[1]) {
            return Err(Error::Syntax);
        }
        let mut e: usize = 1;
        while e < n && is_identifier_byte(b[e])
            invariant
                1 <= e <= n,
                n == b@.len(),
                forall|j: int| 1 <= j < e ==> is_identifier_char(#[trigger] b@[j]),
            decreases n - e,
        {
            e = e + 1;
        }
        proof {
            lemma_identifier_end(b@, 1, e as int);
        }
        if e - 1 > IDENTIFIER_SIZE_IN_BYTES {
            return Err(Error::InvalidLength);
        }
        if e >= n || b[e] != 0x27 {
            return Err(Error::Syntax);
        }
        let (inner, _) = b.split_at(e);
        let (_, content) = inner.split_at(1);
        assert(content@ =~= b@.subrange(1, e as int));
        let id = match Self::from_content(content) {
            Ok(id) => id,
            Err(err) => {
                return Err(err);
            },
        };
        proof {
            assert forall|j: int| 0 <= j < e + 1 implies b@[j] < 0x80 by {
                if 1 <= j < e {
                    assert(is_identifier_char(b@[j]));
                }
            }
            encode_utf8_valid_utf8(s@);
            lemma_ascii_prefix_boundary(b@, e + 1);
        }
        let (_, rest) = s.split_at(e + 1);
        Ok((rest, id))
    }

    /// Parses a whole string as an identifier literal; nothing may follow it.
    pub fn from_str(s: &str) -> (r: Result<IdentifierLiteral, Error>)
        ensures
            r matches Ok(id) ==> spec_identifier_parse(s.spec_bytes()) == Ok::<(Seq<u8>, int), Error>(
                (id@, s.spec_bytes().len() as int),
            ),
            r matches Err(e) ==> match spec_identifier_parse(s.spec_bytes()) {
                Ok((_, k)) => k < s.spec_bytes().len() && e == Error::TrailingInput,
                Err(e2) => e == e2,
            },
    {
        match Self::parse(s) {
            Ok((rest, id)) => {
                if rest.is_empty() {
                    proof {
                        assert(rest@.len() == 0);
                        assert(rest.spec_bytes() =~= Seq::<u8>::empty());
                        let b = s.spec_bytes();
                        match spec_identifier_parse(b) {
                            Ok((c, k)) => {
                                assert(b.subrange(k, b.len() as int).len() == 0);
                            },
                            Err(_) => {},
                        }
                    }
                    Ok(id)
                } else {
                    proof {
                        assert(rest@.len() != 0);
                        assert(rest.spec_bytes().len() != 0);
                    }
                    Err(Error::TrailingInput)
                }
            },
            Err(e) => Err(e),
        }
    }

    /// The text of the literal: its content between single quotes.
    pub fn to_string(&self) -> (r: String)
        ensures
            r@ == identifier_display(self@),
    {
        proof {
            use_type_invariant(self);
        }
        let mut s = String::new();
        push_char(&mut s, '\'');
        proof {
            assert forall|i: int| 0 <= i < self@.len() implies self@[i] < 0x80 by {
                assert(is_identifier_char(self@[i]));
            }
        }
        push_ascii(&mut s, self.content.as_slice());
        push_char(&mut s, '\'');
        assert(s@ =~= identifier_display(self@));
        s
    }

    /// Casts the literal to a field element: its field element.
    pub fn cast_to_field(&self) -> (r: Result<Field, Error>)
        ensures
            r is Ok,
            r matches Ok(f) ==> f@ == identifier_field(self@),
    {
        self.to_field()
    }

    /// Casts the literal to a boolean: its field element must be zero or one. This always
    /// fails, since the lowest byte of the element is the first letter.
    pub fn cast_to_boolean(&self) -> (r: Result<bool, Error>)
        ensures
            r == Err::<bool, Error>(Error::InvalidCast),
    {
        proof {
            use_type_invariant(self);
            lemma_identifier_field_not_boolean(self@);
        }
        let f = match self.to_field() {
            Ok(f) => f,
            Err(e) => {
                return Err(e);
            },
        };
        if f.is_equal(&Field::zero()) {
            Ok(false)
        } else if f.is_equal(&Field::one()) {
            Ok(true)
        } else {
            Err(Error::InvalidCast)
        }
    }

    /// Casts the literal to an identifier literal: the literal itself.
    pub fn cast_to_identifier(&self) -> (r: Result<IdentifierLiteral, Error>)
        ensures
            r matches Ok(id) && id@ == self@,
    {
        proof {
            use_type_invariant(self);
        }
        Ok(IdentifierLiteral { content: self.content() })
    }
}

/// Whether `b` is an ASCII letter.
pub fn is_letter_byte(b: u8) -> (r: bool)
    ensures
        r == is_letter(b),
{
    (0x41 <= b && b <= 0x5a) || (0x61 <= b && b <= 0x7a)
}

/// Whether `b` may stand inside an identifier.
pub fn is_identifier_byte(b: u8) -> (r: bool)
    ensures
        r == is_identifier_char(b),
{
    is_letter_byte(b) || (0x30 <= b && b <= 0x39) || b == 0x5f
}

} // verus!
