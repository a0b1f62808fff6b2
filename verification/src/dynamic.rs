//! Dynamic records and dynamic futures: fixed-size stand-ins for records and futures,
//! with their equality, byte encodings, bit encodings and sizes.
//!
//! An address and a group element are held by the field element of their x-coordinate,
//! which is what their byte and bit encodings carry.
use vstd::prelude::*;

use crate::error::Error;
use crate::field::{
    field_bits_le, is_canonical, lemma_field_bytes_roundtrip, spec_field_read_le, Field,
    FIELD_SIZE_IN_BITS,
};
use crate::limbs::Limbs;

verus! {

/// The version byte that starts the byte encoding of a dynamic record or future.
pub const DYNAMIC_ENCODING_VERSION: u8 = 1;

/// The number of bits of a dynamic record: owner, root and nonce (253 each), and the
/// version (8).
pub const DYNAMIC_RECORD_SIZE_IN_BITS: usize = 767;

/// The number of bits of a dynamic future: four field elements.
pub const DYNAMIC_FUTURE_SIZE: usize = 1012;

/// The fields of a dynamic record.
pub struct DynamicRecordView {
    pub owner: Limbs,
    pub root: Limbs,
    pub nonce: Limbs,
    pub version: u8,
}

/// The fields of a dynamic future.
pub struct DynamicFutureView {
    pub program_name: Limbs,
    pub program_network: Limbs,
    pub function_name: Limbs,
    pub checksum: Limbs,
}

/// The byte encoding of a dynamic record: the version byte 1, the owner, root and nonce
/// (32 bytes each), then the record version.
pub open spec fn dynamic_record_bytes(r: DynamicRecordView) -> Seq<u8> {
    seq![DYNAMIC_ENCODING_VERSION] + r.owner.bytes() + r.root.bytes() + r.nonce.bytes() + seq![r.version]
}

/// The little-endian bits of a dynamic record.
pub open spec fn dynamic_record_bits_le(r: DynamicRecordView) -> Seq<bool> {
    field_bits_le(r.owner) + field_bits_le(r.root) + field_bits_le(r.nonce) + u8_bits_le(r.version)
}

/// The big-endian bits of a dynamic record: each part's bits, most significant first.
pub open spec fn dynamic_record_bits_be(r: DynamicRecordView) -> Seq<bool> {
    field_bits_le(r.owner).reverse() + field_bits_le(r.root).reverse() + field_bits_le(r.nonce).reverse()
        + u8_bits_le(r.version).reverse()
}

/// A field element has 253 bits and 32 bytes; a byte has 8 bits.
proof fn lemma_part_lengths(w: Limbs, b: u8)
    ensures
        field_bits_le(w).len() == 253,
        w.bytes().len() == 32,
        u8_bits_le(b).len() == 8,
{
}

/// The bits of a dynamic record are, in this order: the owner's 253 bits, the root's, the
/// nonce's, and the version's 8 bits; the little-endian bits list each part from its
/// least significant bit, the big-endian bits from its most significant bit.
pub proof fn lemma_dynamic_record_bits_layout(r: DynamicRecordView)
    ensures
        dynamic_record_bits_le(r).len() == DYNAMIC_RECORD_SIZE_IN_BITS,
        dynamic_record_bits_le(r).subrange(0, 253) == field_bits_le(r.owner),
        dynamic_record_bits_le(r).subrange(253, 506) == field_bits_le(r.root),
        dynamic_record_bits_le(r).subrange(506, 759) == field_bits_le(r.nonce),
        dynamic_record_bits_le(r).subrange(759, 767) == u8_bits_le(r.version),
        dynamic_record_bits_be(r).len() == DYNAMIC_RECORD_SIZE_IN_BITS,
        dynamic_record_bits_be(r).subrange(0, 253) == field_bits_le(r.owner).reverse(),
        dynamic_record_bits_be(r).subrange(253, 506) == field_bits_le(r.root).reverse(),
        dynamic_record_bits_be(r).subrange(506, 759) == field_bits_le(r.nonce).reverse(),
        dynamic_record_bits_be(r).subrange(759, 767) == u8_bits_le(r.version).reverse(),
{
    lemma_part_lengths(r.owner, r.version);
    lemma_part_lengths(r.root, r.version);
    lemma_part_lengths(r.nonce, r.version);
    let le = dynamic_record_bits_le(r);
    let be = dynamic_record_bits_be(r);
    assert(le.subrange(0, 253) =~= field_bits_le(r.owner));
    assert(le.subrange(253, 506) =~= field_bits_le(r.root));
    assert(le.subrange(506, 759) =~= field_bits_le(r.nonce));
    assert(le.subrange(759, 767) =~= u8_bits_le(r.version));
    assert(be.subrange(0, 253) =~= field_bits_le(r.owner).reverse());
    assert(be.subrange(253, 506) =~= field_bits_le(r.root).reverse());
    assert(be.subrange(506, 759) =~= field_bits_le(r.nonce).reverse());
    assert(be.subrange(759, 767) =~= u8_bits_le(r.version).reverse());
}

/// The bytes of a dynamic record are, in this order: the encoding version 1, the owner's
/// 32 bytes, the root's, the nonce's, and the record's version.
pub proof fn lemma_dynamic_record_bytes_layout(r: DynamicRecordView)
    ensures
        dynamic_record_bytes(r).len() == 98,
        dynamic_record_bytes(r)[0] == 1,
        dynamic_record_bytes(r).subrange(1, 33) == r.owner.bytes(),
        dynamic_record_bytes(r).subrange(33, 65) == r.root.bytes(),
        dynamic_record_bytes(r).subrange(65, 97) == r.nonce.bytes(),
        dynamic_record_bytes(r)[97] == r.version,
{
    lemma_part_lengths(r.owner, r.version);
    lemma_part_lengths(r.root, r.version);
    lemma_part_lengths(r.nonce, r.version);
    let b = dynamic_record_bytes(r);
    assert(b.subrange(1, 33) =~= r.owner.bytes());
    assert(b.subrange(33, 65) =~= r.root.bytes());
    assert(b.subrange(65, 97) =~= r.nonce.bytes());
}

/// The bits of a dynamic future are, in this order: the 253 bits of the program name,
/// the program network, the function name and the checksum; the little-endian bits list
/// each from its least significant bit, the big-endian bits from its most significant bit.
pub proof fn lemma_dynamic_future_bits_layout(f: DynamicFutureView)
    ensures
        dynamic_future_bits_le(f).len() == DYNAMIC_FUTURE_SIZE,
        dynamic_future_bits_le(f).subrange(0, 253) == field_bits_le(f.program_name),
        dynamic_future_bits_le(f).subrange(253, 506) == field_bits_le(f.program_network),
        dynamic_future_bits_le(f).subrange(506, 759) == field_bits_le(f.function_name),
        dynamic_future_bits_le(f).subrange(759, 1012) == field_bits_le(f.checksum),
        dynamic_future_bits_be(f).len() == DYNAMIC_FUTURE_SIZE,
        dynamic_future_bits_be(f).subrange(0, 253) == field_bits_le(f.program_name).reverse(),
        dynamic_future_bits_be(f).subrange(253, 506) == field_bits_le(f.program_network).reverse(),
        dynamic_future_bits_be(f).subrange(506, 759) == field_bits_le(f.function_name).reverse(),
        dynamic_future_bits_be(f).subrange(759, 1012) == field_bits_le(f.checksum).reverse(),
{
    lemma_part_lengths(f.program_name, 0);
    lemma_part_lengths(f.program_network, 0);
    lemma_part_lengths(f.function_name, 0);
    lemma_part_lengths(f.checksum, 0);
    let le = dynamic_future_bits_le(f);
    let be = dynamic_future_bits_be(f);
    assert(le.subrange(0, 253) =~= field_bits_le(f.program_name));
    assert(le.subrange(253, 506) =~= field_bits_le(f.program_network));
    assert(le.subrange(506, 759) =~= field_bits_le(f.function_name));
    assert(le.subrange(759, 1012) =~= field_bits_le(f.checksum));
    assert(be.subrange(0, 253) =~= field_bits_le(f.program_name).reverse());
    assert(be.subrange(253, 506) =~= field_bits_le(f.program_network).reverse());
    assert(be.subrange(506, 759) =~= field_bits_le(f.function_name).reverse());
    assert(be.subrange(759, 1012) =~= field_bits_le(f.checksum).reverse());
}

/// The bytes of a dynamic future are, in this order: the encoding version 1, then the 32
/// bytes of the program name, the program network, the function name and the checksum.
pub proof fn lemma_dynamic_future_bytes_layout(f: DynamicFutureView)
    ensures
        dynamic_future_bytes(f).len() == 129,
        dynamic_future_bytes(f)[0] == 1,
        dynamic_future_bytes(f).subrange(1, 33) == f.program_name.bytes(),
        dynamic_future_bytes(f).subrange(33, 65) == f.program_network.bytes(),
        dynamic_future_bytes(f).subrange(65, 97) == f.function_name.bytes(),
        dynamic_future_bytes(f).subrange(97, 129) == f.checksum.bytes(),
{
    lemma_part_lengths(f.program_name, 0);
    lemma_part_lengths(f.program_network, 0);
    lemma_part_lengths(f.function_name, 0);
    lemma_part_lengths(f.checksum, 0);
    let b = dynamic_future_bytes(f);
    assert(b.subrange(1, 33) =~= f.program_name.bytes());
    assert(b.subrange(33, 65) =~= f.program_network.bytes());
    assert(b.subrange(65, 97) =~= f.function_name.bytes());
    assert(b.subrange(97, 129) =~= f.checksum.bytes());
}

/// The eight little-endian bits of a byte.
pub open spec fn u8_bits_le(b: u8) -> Seq<bool> {
    crate::bits::byte_bits(b)
}

/// The outcome of reading the 32-byte field element at `i` of `s`.
pub open spec fn field_at(s: Seq<u8>, i: int) -> Result<Limbs, Error> {
    spec_field_read_le(s.subrange(i, s.len() as int))
}

/// The outcome of reading a dynamic record from the front of `s`.
pub open spec fn spec_dynamic_record_read_le(s: Seq<u8>) -> Result<DynamicRecordView, Error> {
    if s.len() < 1 {
        Err(Error::UnexpectedEnd)
    } else if s[0] != DYNAMIC_ENCODING_VERSION {
        Err(Error::InvalidVersion)
    } else {
        match field_at(s, 1) {
            Err(e) => Err(e),
            Ok(owner) => match field_at(s, 33) {
                Err(e) => Err(e),
                Ok(root) => match field_at(s, 65) {
                    Err(e) => Err(e),
                    Ok(nonce) => if s.len() < 98 {
                        Err(Error::UnexpectedEnd)
                    } else {
                        Ok(DynamicRecordView { owner, root, nonce, version: s[97] })
                    },
                },
            },
        }
    }
}

/// The byte encoding of a dynamic future: the version byte 1, then its four field
/// elements (32 bytes each).
pub open spec fn dynamic_future_bytes(f: DynamicFutureView) -> Seq<u8> {
    seq![DYNAMIC_ENCODING_VERSION] + f.program_name.bytes() + f.program_network.bytes()
        + f.function_name.bytes() + f.checksum.bytes()
}

/// The little-endian bits of a dynamic future.
pub open spec fn dynamic_future_bits_le(f: DynamicFutureView) -> Seq<bool> {
    field_bits_le(f.program_name) + field_bits_le(f.program_network) + field_bits_le(f.function_name)
        + field_bits_le(f.checksum)
}

/// The big-endian bits of a dynamic future: each field element's bits, most significant first.
pub open spec fn dynamic_future_bits_be(f: DynamicFutureView) -> Seq<bool> {
    field_bits_le(f.program_name).reverse() + field_bits_le(f.program_network).reverse()
        + field_bits_le(f.function_name).reverse() + field_bits_le(f.checksum).reverse()
}

/// The outcome of reading a dynamic future from the front of `s`.
pub open spec fn spec_dynamic_future_read_le(s: Seq<u8>) -> Result<DynamicFutureView, Error> {
    if s.len() < 1 {
        Err(Error::UnexpectedEnd)
    } else if s[0] != DYNAMIC_ENCODING_VERSION {
        Err(Error::InvalidVersion)
    } else {
        match field_at(s, 1) {
            Err(e) => Err(e),
            Ok(program_name) => match field_at(s, 33) {
                Err(e) => Err(e),
                Ok(program_network) => match field_at(s, 65) {
                    Err(e) => Err(e),
                    Ok(function_name) => match field_at(s, 97) {
                        Err(e) => Err(e),
                        Ok(checksum) => Ok(
                            DynamicFutureView { program_name, program_network, function_name, checksum },
                        ),
                    },
                },
            },
        }
    }
}

/// Reading the field element at `i` of bytes that hold the bytes of `w` there gives `w`.
proof fn lemma_field_at(s: Seq<u8>, i: int, w: Limbs)
    requires
        is_canonical(w),
        0 <= i,
        i + 32 <= s.len(),
        s.subrange(i, i + 32) == w.bytes(),
    ensures
        field_at(s, i) == Ok::<Limbs, Error>(w),
{
    let rest = s.subrange(i + 32, s.len() as int);
    assert(s.subrange(i, s.len() as int) =~= w.bytes() + rest);
    lemma_field_bytes_roundtrip(w, rest);
}

/// Reading back the bytes of a dynamic record with canonical parts gives it.
pub proof fn lemma_dynamic_record_bytes_roundtrip(r: DynamicRecordView, rest: Seq<u8>)
    requires
        is_canonical(r.owner),
        is_canonical(r.root),
        is_canonical(r.nonce),
    ensures
        spec_dynamic_record_read_le(dynamic_record_bytes(r) + rest) == Ok::<DynamicRecordView, Error>(r),
{
    let s = dynamic_record_bytes(r) + rest;
    assert(s.subrange(1, 33) =~= r.owner.bytes());
    assert(s.subrange(33, 65) =~= r.root.bytes());
    assert(s.subrange(65, 97) =~= r.nonce.bytes());
    lemma_field_at(s, 1, r.owner);
    lemma_field_at(s, 33, r.root);
    lemma_field_at(s, 65, r.nonce);
    assert(s[97] == r.version);
}

/// Reading back the bytes of a dynamic future with canonical parts gives it.
pub proof fn lemma_dynamic_future_bytes_roundtrip(f: DynamicFutureView, rest: Seq<u8>)
    requires
        is_canonical(f.program_name),
        is_canonical(f.program_network),
        is_canonical(f.function_name),
        is_canonical(f.checksum),
    ensures
        spec_dynamic_future_read_le(dynamic_future_bytes(f) + rest) == Ok::<DynamicFutureView, Error>(f),
{
    let s = dynamic_future_bytes(f) + rest;
    assert(s.subrange(1, 33) =~= f.program_name.bytes());
    assert(s.subrange(33, 65) =~= f.program_network.bytes());
    assert(s.subrange(65, 97) =~= f.function_name.bytes());
    assert(s.subrange(97, 129) =~= f.checksum.bytes());
    lemma_field_at(s, 1, f.program_name);
    lemma_field_at(s, 33, f.program_network);
    lemma_field_at(s, 65, f.function_name);
    lemma_field_at(s, 97, f.checksum);
}

/// A dynamic record: the owner's address, the root of the record's data, the nonce, and
/// the record version.
#[derive(Clone, Copy, Debug, PartialEq, Eq, Structural)]
pub struct DynamicRecord {
    owner: Field,
    root: Field,
    nonce: Field,
    version: u8,
}

impl View for DynamicRecord {
    type V = DynamicRecordView;

    closed spec fn view(&self) -> DynamicRecordView {
        DynamicRecordView { owner: self.owner@, root: self.root@, nonce: self.nonce@, version: self.version }
    }
}

/// Appends the eight little-endian bits of `b` to `v`.
fn write_u8_bits_le(b: u8, v: &mut Vec<bool>)
    ensures
        final(v)@ == old(v)@ + u8_bits_le(b),
{
    crate::bits::write_byte_bits_le(b, v);
}

/// Appends the eight big-endian bits of `b` to `v`.
fn write_u8_bits_be(b: u8, v: &mut Vec<bool>)
    ensures
        final(v)@ == old(v)@ + u8_bits_le(b).reverse(),
{
    let mut le: Vec<bool> = Vec::new();
    crate::bits::write_byte_bits_le(b, &mut le);
    assert(le@ =~= u8_bits_le(b));
    let ghost start = v@;
    let mut i: usize = 0;
    while i < 8
        invariant
            i <= 8,
            le@ == u8_bits_le(b),
            v@ == start + le@.reverse().subrange(0, i as int),
        decreases 8 - i,
    {
        v.push(le[7 - i]);
        i = i + 1;
        assert(v@ =~= start + le@.reverse().subrange(0, i as int));
    }
    assert(le@.reverse().subrange(0, 8) =~= le@.reverse());
}

impl DynamicRecord {
    /// A dynamic record from its parts.
    pub fn new_unchecked(owner: Field, root: Field, nonce: Field, version: u8) -> (r: DynamicRecord)
        ensures
            r@ == (DynamicRecordView { owner: owner@, root: root@, nonce: nonce@, version }),
    {
        DynamicRecord { owner, root, nonce, version }
    }

    /// The owner's address, by its x-coordinate.
    pub fn owner(&self) -> (r: Field)
        ensures
            r@ == self@.owner,
    {
        self.owner
    }

    /// The root of the record's data.
    pub fn root(&self) -> (r: Field)
        ensures
            r@ == self@.root,
    {
        self.root
    }

    /// The nonce, by its x-coordinate.
    pub fn nonce(&self) -> (r: Field)
        ensures
            r@ == self@.nonce,
    {
        self.nonce
    }

    /// The record version.
    pub fn version(&self) -> (r: u8)
        ensures
            r == self@.version,
    {
        self.version
    }

    /// Whether two dynamic records are equal: same owner, root, nonce and version.
    pub fn is_equal(&self, other: &DynamicRecord) -> (r: bool)
        ensures
            r == (self@ == other@),
    {
        self.owner.is_equal(&other.owner) && self.root.is_equal(&other.root) && self.nonce.is_equal(
            &other.nonce,
        ) && self.version == other.version
    }

    /// Whether two dynamic records differ.
    pub fn is_not_equal(&self, other: &DynamicRecord) -> (r: bool)
        ensures
            r == (self@ != other@),
    {
        !self.is_equal(other)
    }

    /// Appends the byte encoding to `out`.
    pub fn write_le(&self, out: &mut Vec<u8>)
        ensures
            final(out)@ == old(out)@ + dynamic_record_bytes(self@),
    {
        let ghost start = out@;
        out.push(DYNAMIC_ENCODING_VERSION);
        self.owner.write_le(out);
        self.root.write_le(out);
        self.nonce.write_le(out);
        out.push(self.version);
        assert(out@ =~= start + dynamic_record_bytes(self@));
    }

    /// Reads a dynamic record from the bytes of `s` at `pos`; returns it and the position after it.
    pub fn read_le(s: &[u8], pos: usize) -> (r: Result<(DynamicRecord, usize), Error>)
        requires
            pos <= s@.len(),
        ensures
            r matches Ok((d, end)) ==> end == pos + 98 && end <= s@.len() && spec_dynamic_record_read_le(
                s@.subrange(pos as int, s@.len() as int),
            ) == Ok::<DynamicRecordView, Error>(d@),
            r matches Err(e) ==> spec_dynamic_record_read_le(s@.subrange(pos as int, s@.len() as int))
                == Err::<DynamicRecordView, Error>(e),
    {
        let ghost rest = s@.subrange(pos as int, s@.len() as int);
        let n = s.len();
        if pos >= n {
            return Err(Error::UnexpectedEnd);
        }
        if s[pos] != DYNAMIC_ENCODING_VERSION {
            return Err(Error::InvalidVersion);
        }
        if n - pos < 33 {
            assert(field_at(rest, 1) == Err::<Limbs, Error>(Error::UnexpectedEnd));
            return Err(Error::UnexpectedEnd);
        }
        assert(rest.subrange(1, rest.len() as int) =~= s@.subrange(pos + 1, n as int));
        let owner = match Field::read_le(s, pos + 1) {
            Ok(f) => f,
            Err(e) => {
                return Err(e);
            },
        };
        if n - pos < 65 {
            assert(field_at(rest, 33) == Err::<Limbs, Error>(Error::UnexpectedEnd));
            return Err(Error::UnexpectedEnd);
        }
        assert(rest.subrange(33, rest.len() as int) =~= s@.subrange(pos + 33, n as int));
        let root = match Field::read_le(s, pos + 33) {
            Ok(f) => f,
            Err(e) => {
                return Err(e);
            },
        };
        if n - pos < 97 {
            assert(field_at(rest, 65) == Err::<Limbs, Error>(Error::UnexpectedEnd));
            return Err(Error::UnexpectedEnd);
        }
        assert(rest.subrange(65, rest.len() as int) =~= s@.subrange(pos + 65, n as int));
        let nonce = match Field::read_le(s, pos + 65) {
            Ok(f) => f,
            Err(e) => {
                return Err(e);
            },
        };
        if n - pos < 98 {
            return Err(Error::UnexpectedEnd);
        }
        let version = s[pos + 97];
        Ok((DynamicRecord { owner, root, nonce, version }, pos + 98))
    }

    /// Appends the little-endian bits to `v`.
    pub fn write_bits_le(&self, v: &mut Vec<bool>)
        ensures
            final(v)@ == old(v)@ + dynamic_record_bits_le(self@),
    {
        let ghost start = v@;
        self.owner.write_bits_le(v);
        self.root.write_bits_le(v);
        self.nonce.write_bits_le(v);
        write_u8_bits_le(self.version, v);
        assert(v@ =~= start + dynamic_record_bits_le(self@));
    }

    /// Appends the big-endian bits to `v`.
    pub fn write_bits_be(&self, v: &mut Vec<bool>)
        ensures
            final(v)@ == old(v)@ + dynamic_record_bits_be(self@),
    {
        let ghost start = v@;
        self.owner.write_bits_be(v);
        self.root.write_bits_be(v);
        self.nonce.write_bits_be(v);
        write_u8_bits_be(self.version, v);
        assert(v@ =~= start + dynamic_record_bits_be(self@));
    }

    /// The number of bits of a dynamic record.
    pub fn size_in_bits() -> (r: Result<usize, Error>)
        ensures
            r == Ok::<usize, Error>(DYNAMIC_RECORD_SIZE_IN_BITS),
    {
        let size: usize = FIELD_SIZE_IN_BITS;
        let size = match size.checked_add(FIELD_SIZE_IN_BITS) {
            Some(x) => x,
            None => {
                return Err(Error::Overflow);
            },
        };
        let size = match size.checked_add(FIELD_SIZE_IN_BITS) {
            Some(x) => x,
            None => {
                return Err(Error::Overflow);
            },
        };
        match size.checked_add(8) {
            Some(x) => Ok(x),
            None => Err(Error::Overflow),
        }
    }

    /// The number of raw bits of a dynamic record: the same as its number of bits.
    pub fn size_in_bits_raw() -> (r: Result<usize, Error>)
        ensures
            r == Ok::<usize, Error>(DYNAMIC_RECORD_SIZE_IN_BITS),
    {
        Self::size_in_bits()
    }
}

/// A dynamic future: the program name, program network and function name as field
/// elements, and the checksum of the arguments.
#[derive(Clone, Copy, Debug, PartialEq, Eq, Structural)]
pub struct DynamicFuture {
    program_name: Field,
    program_network: Field,
    function_name: Field,
    checksum: Field,
}

impl View for DynamicFuture {
    type V = DynamicFutureView;

    closed spec fn view(&self) -> DynamicFutureView {
        DynamicFutureView {
            program_name: self.program_name@,
            program_network: self.program_network@,
            function_name: self.function_name@,
            checksum: self.checksum@,
        }
    }
}

impl DynamicFuture {
    /// A dynamic future from its parts, without checking the checksum.
    pub fn new_unchecked(program_name: Field, program_network: Field, function_name: Field, checksum: Field) -> (r: DynamicFuture)
        ensures
            r@ == (DynamicFutureView {
                program_name: program_name@,
                program_network: program_network@,
                function_name: function_name@,
                checksum: checksum@,
            }),
    {
        DynamicFuture { program_name, program_network, function_name, checksum }
    }

    /// The program name.
    pub fn program_name(&self) -> (r: Field)
        ensures
            r@ == self@.program_name,
    {
        self.program_name
    }

    /// The program network.
    pub fn program_network(&self) -> (r: Field)
        ensures
            r@ == self@.program_network,
    {
        self.program_network
    }

    /// The function name.
    pub fn function_name(&self) -> (r: Field)
        ensures
            r@ == self@.function_name,
    {
        self.function_name
    }

    /// The checksum of the arguments.
    pub fn checksum(&self) -> (r: Field)
        ensures
            r@ == self@.checksum,
    {
        self.checksum
    }

    /// Whether two dynamic futures are equal: same names and checksum.
    pub fn is_equal(&self, other: &DynamicFuture) -> (r: bool)
        ensures
            r == (self@ == other@),
    {
        self.program_name.is_equal(&other.program_name) && self.program_network.is_equal(
            &other.program_network,
        ) && self.function_name.is_equal(&other.function_name) && self.checksum.is_equal(
            &other.checksum,
        )
    }

    /// Whether two dynamic futures differ.
    pub fn is_not_equal(&self, other: &DynamicFuture) -> (r: bool)
        ensures
            r == (self@ != other@),
    {
        !self.is_equal(other)
    }

    /// Appends the byte encoding to `out`.
    pub fn write_le(&self, out: &mut Vec<u8>)
        ensures
            final(out)@ == old(out)@ + dynamic_future_bytes(self@),
    {
        let ghost start = out@;
        out.push(DYNAMIC_ENCODING_VERSION);
        self.program_name.write_le(out);
        self.program_network.write_le(out);
        self.function_name.write_le(out);
        self.checksum.write_le(out);
        assert(out@ =~= start + dynamic_future_bytes(self@));
    }

    /// Reads a dynamic future from the bytes of `s` at `pos`; returns it and the position after it.
    pub fn read_le(s: &[u8], pos: usize) -> (r: Result<(DynamicFuture, usize), Error>)
        requires
            pos <= s@.len(),
        ensures
            r matches Ok((d, end)) ==> end == pos + 129 && end <= s@.len() && spec_dynamic_future_read_le(
                s@.subrange(pos as int, s@.len() as int),
            ) == Ok::<DynamicFutureView, Error>(d@),
            r matches Err(e) ==> spec_dynamic_future_read_le(s@.subrange(pos as int, s@.len() as int))
                == Err::<DynamicFutureView, Error>(e),
    {
        let ghost rest = s@.subrange(pos as int, s@.len() as int);
        let n = s.len();
        if pos >= n {
            return Err(Error::UnexpectedEnd);
        }
        if s[pos] != DYNAMIC_ENCODING_VERSION {
            return Err(Error::InvalidVersion);
        }
        if n - pos < 33 {
            assert(field_at(rest, 1) == Err::<Limbs, Error>(Error::UnexpectedEnd));
            return Err(Error::UnexpectedEnd);
        }
        assert(rest.subrange(1, rest.len() as int) =~= s@.subrange(pos + 1, n as int));
        let program_name = match Field::read_le(s, pos + 1) {
            Ok(f) => f,
            Err(e) => {
                return Err(e);
            },
        };
        if n - pos < 65 {
            assert(field_at(rest, 33) == Err::<Limbs, Error>(Error::UnexpectedEnd));
            return Err(Error::UnexpectedEnd);
        }
        assert(rest.subrange(33, rest.len() as int) =~= s@.subrange(pos + 33, n as int));
        let program_network = match Field::read_le(s, pos + 33) {
            Ok(f) => f,
            Err(e) => {
                return Err(e);
            },
        };
        if n - pos < 97 {
            assert(field_at(rest, 65) == Err::<Limbs, Error>(Error::UnexpectedEnd));
            return Err(Error::UnexpectedEnd);
        }
        assert(rest.subrange(65, rest.len() as int) =~= s@.subrange(pos + 65, n as int));
        let function_name = match Field::read_le(s, pos + 65) {
            Ok(f) => f,
            Err(e) => {
                return Err(e);
            },
        };
        if n - pos < 129 {
            assert(field_at(rest, 97) == Err::<Limbs, Error>(Error::UnexpectedEnd));
            return Err(Error::UnexpectedEnd);
        }
        assert(rest.subrange(97, rest.len() as int) =~= s@.subrange(pos + 97, n as int));
        let checksum = match Field::read_le(s, pos + 97) {
            Ok(f) => f,
            Err(e) => {
                return Err(e);
            },
        };
        Ok((DynamicFuture { program_name, program_network, function_name, checksum }, pos + 129))
    }

    /// Appends the little-endian bits to `v`.
    pub fn write_bits_le(&self, v: &mut Vec<bool>)
        ensures
            final(v)@ == old(v)@ + dynamic_future_bits_le(self@),
    {
        let ghost start = v@;
        self.program_name.write_bits_le(v);
        self.program_network.write_bits_le(v);
        self.function_name.write_bits_le(v);
        self.checksum.write_bits_le(v);
        assert(v@ =~= start + dynamic_future_bits_le(self@));
    }

    /// Appends the big-endian bits to `v`.
    pub fn write_bits_be(&self, v: &mut Vec<bool>)
        ensures
            final(v)@ == old(v)@ + dynamic_future_bits_be(self@),
    {
        let ghost start = v@;
        self.program_name.write_bits_be(v);
        self.program_network.write_bits_be(v);
        self.function_name.write_bits_be(v);
        self.checksum.write_bits_be(v);
        assert(v@ =~= start + dynamic_future_bits_be(self@));
    }

    /// The number of bits of a dynamic future: four field elements.
    pub fn size_in_bits() -> (r: Result<usize, Error>)
        ensures
            r == Ok::<usize, Error>(DYNAMIC_FUTURE_SIZE),
    {
        match FIELD_SIZE_IN_BITS.checked_mul(4) {
            Some(n) => Ok(n),
            None => Err(Error::Overflow),
        }
    }

    /// The number of raw bits of a dynamic future: the same as its number of bits.
    pub fn size_in_bits_raw() -> (r: Result<usize, Error>)
        ensures
            r == Ok::<usize, Error>(DYNAMIC_FUTURE_SIZE),
    {
        Self::size_in_bits()
    }
}

} // verus!
