//! Plaintext types: literals, structs, arrays and external structs, with their byte
//! encoding and text form.
use vstd::prelude::*;
use vstd::string::*;

use crate::decimal::{decimal_digits, parse_u32_at, spec_parse_u32, write_decimal};
use crate::error::Error;
use crate::identifier_literal::{identifier_end_from, is_identifier_byte, is_identifier_char, is_letter, is_letter_byte};
use crate::literal_type::{
    lemma_literal_type_bytes_roundtrip, literal_of_name, literal_type_bytes, literal_type_name,
    spec_literal_type_read_le, LiteralType,
};
use crate::program_names::{
    is_locator, is_name, lemma_end_at, lemma_locator_bytes_roundtrip, lemma_name_bytes_roundtrip,
    locator_bytes_le, locator_text, name_bytes_le, spec_locator_parse, spec_locator_read_le,
    spec_name_from_str, spec_name_read_le, Identifier, Locator, LocatorView,
};

verus! {

/// A plaintext type, in terms of the views of its parts.
pub enum PlaintextTypeView {
    Literal(LiteralType),
    Struct(Seq<u8>),
    Array(Box<PlaintextTypeView>, u32),
    ExternalStruct(LocatorView),
}

/// A plaintext type.
#[derive(Debug, PartialEq, Eq)]
pub enum PlaintextType {
    /// A literal type.
    Literal(LiteralType),
    /// A struct of the same program, by name.
    Struct(Identifier),
    /// An array type.
    Array(ArrayType),
    /// A struct of another program, by locator.
    ExternalStruct(Locator),
}

/// An array type: an element type and a number of elements.
#[derive(Debug, PartialEq, Eq)]
pub struct ArrayType {
    pub element: Box<PlaintextType>,
    pub length: u32,
}

/// The view of a plaintext type.
pub open spec fn pt_view(t: PlaintextType) -> PlaintextTypeView
    decreases t,
{
    match t {
        PlaintextType::Literal(l) => PlaintextTypeView::Literal(l),
        PlaintextType::Struct(n) => PlaintextTypeView::Struct(n@),
        PlaintextType::Array(a) => PlaintextTypeView::Array(Box::new(pt_view(*a.element)), a.length),
        PlaintextType::ExternalStruct(l) => PlaintextTypeView::ExternalStruct(l@),
    }
}

impl View for PlaintextType {
    type V = PlaintextTypeView;

    open spec fn view(&self) -> PlaintextTypeView {
        pt_view(*self)
    }
}

/// A valid plaintext type: valid names, and arrays of at least one element.
pub open spec fn pt_valid(v: PlaintextTypeView) -> bool
    decreases v,
{
    match v {
        PlaintextTypeView::Literal(_) => true,
        PlaintextTypeView::Struct(n) => is_name(n),
        PlaintextTypeView::Array(e, n) => pt_valid(*e) && n >= 1,
        PlaintextTypeView::ExternalStruct(l) => is_locator(l),
    }
}

/// The four little-endian bytes of a `u32`.
pub open spec fn u32_le_bytes(n: u32) -> Seq<u8> {
    seq![(n % 256) as u8, ((n / 256) % 256) as u8, ((n / 65536) % 256) as u8, (n / 16777216) as u8]
}

/// The `u32` of the four little-endian bytes of `s` at `i`.
pub open spec fn u32_of_le(s: Seq<u8>, i: int) -> u32 {
    (s[i] + 256 * s[i + 1] + 65536 * s[i + 2] + 16777216 * s[i + 3]) as u32
}

/// The byte encoding of a plaintext type: a variant byte (0 literal, 1 struct, 2 array,
/// 3 external struct), then the payload; an array is its element type, then its length
/// as a little-endian `u32`.
pub open spec fn pt_bytes(v: PlaintextTypeView) -> Seq<u8>
    decreases v,
{
    match v {
        PlaintextTypeView::Literal(l) => seq![0u8] + literal_type_bytes(l),
        PlaintextTypeView::Struct(n) => seq![1u8] + name_bytes_le(n),
        PlaintextTypeView::Array(e, n) => seq![2u8] + pt_bytes(*e) + u32_le_bytes(n),
        PlaintextTypeView::ExternalStruct(l) => seq![3u8] + locator_bytes_le(l),
    }
}

/// The outcome of reading a plaintext type from the front of `s`: the type and the number
/// of bytes read.
pub open spec fn spec_pt_read_le(s: Seq<u8>) -> Result<(PlaintextTypeView, int), Error>
    decreases s.len(),
{
    if s.len() < 1 {
        Err(Error::UnexpectedEnd)
    } else if s[0] == 0 {
        match spec_literal_type_read_le(s.subrange(1, s.len() as int)) {
            Ok(t) => Ok((PlaintextTypeView::Literal(t), 3)),
            Err(e) => Err(e),
        }
    } else if s[0] == 1 {
        match spec_name_read_le(s.subrange(1, s.len() as int)) {
            Ok((n, k)) => Ok((PlaintextTypeView::Struct(n), 1 + k)),
            Err(e) => Err(e),
        }
    } else if s[0] == 2 {
        match spec_pt_read_le(s.subrange(1, s.len() as int)) {
            Err(e) => Err(e),
            Ok((e, k)) => if s.len() < 1 + k + 4 {
                Err(Error::UnexpectedEnd)
            } else if u32_of_le(s, 1 + k) == 0 {
                Err(Error::InvalidLength)
            } else {
                Ok((PlaintextTypeView::Array(Box::new(e), u32_of_le(s, 1 + k)), 1 + k + 4))
            },
        }
    } else if s[0] == 3 {
        match spec_locator_read_le(s.subrange(1, s.len() as int)) {
            Ok((l, k)) => Ok((PlaintextTypeView::ExternalStruct(l), 1 + k)),
            Err(e) => Err(e),
        }
    } else {
        Err(Error::InvalidVariant)
    }
}

/// The text of a plaintext type; an array is `[element; lengthu32]`.
pub open spec fn pt_text(v: PlaintextTypeView) -> Seq<u8>
    decreases v,
{
    match v {
        PlaintextTypeView::Literal(l) => literal_type_name(l),
        PlaintextTypeView::Struct(n) => n,
        PlaintextTypeView::Array(e, n) => seq![0x5bu8] + pt_text(*e) + seq![0x3bu8, 0x20u8]
            + decimal_digits(n as nat) + seq![0x75u8, 0x33u8, 0x32u8, 0x5du8],
        PlaintextTypeView::ExternalStruct(l) => locator_text(l),
    }
}

/// The index of the first non-space byte of `b` at or after `i`, or the length of `b`.
pub open spec fn spaces_end_from(b: Seq<u8>, i: int) -> int
    decreases b.len() - i,
{
    if i >= b.len() {
        b.len() as int
    } else if b[i] != 0x20 {
        i
    } else {
        spaces_end_from(b, i + 1)
    }
}

/// The bytes `u32]` that close an array type.
pub open spec fn array_close() -> Seq<u8> {
    seq![0x75u8, 0x33u8, 0x32u8, 0x5du8]
}

/// The outcome of parsing a plaintext type from the front of `b`: an array
/// `[element; lengthu32]` (spaces allowed after `;`), else an external struct's locator,
/// else a literal type's name, else a struct's name.
pub open spec fn spec_pt_parse(b: Seq<u8>) -> Result<(PlaintextTypeView, int), Error>
    decreases b.len(),
{
    if b.len() >= 1 && b[0] == 0x5b {
        match spec_pt_parse(b.subrange(1, b.len() as int)) {
            Err(e) => Err(e),
            Ok((e, k)) => {
                let p = 1 + k;
                if p < 1 || p >= b.len() || b[p] != 0x3b {
                    Err(Error::Syntax)
                } else {
                    let q = spaces_end_from(b, p + 1);
                    match spec_parse_u32(b.subrange(q, b.len() as int)) {
                        Err(x) => Err(x),
                        Ok((n, j)) => {
                            let r = q + j;
                            if r + 4 > b.len() || b.subrange(r, r + 4) != array_close() {
                                Err(Error::Syntax)
                            } else if n == 0 {
                                Err(Error::InvalidLength)
                            } else {
                                Ok((PlaintextTypeView::Array(Box::new(e), n), r + 4))
                            }
                        },
                    }
                }
            },
        }
    } else {
        match spec_locator_parse(b) {
            Ok((l, k)) => Ok((PlaintextTypeView::ExternalStruct(l), k)),
            Err(_) => if b.len() < 1 || !is_letter(b[0]) {
                Err(Error::Syntax)
            } else {
                let e = identifier_end_from(b, 0);
                match literal_of_name(b.subrange(0, e)) {
                    Some(t) => Ok((PlaintextTypeView::Literal(t), e)),
                    None => match spec_name_from_str(b.subrange(0, e)) {
                        Ok(n) => Ok((PlaintextTypeView::Struct(n), e)),
                        Err(x) => Err(x),
                    },
                }
            },
        }
    }
}

/// A plaintext type with its structs of the same program made structs of program `id`.
pub open spec fn pt_qualify(v: PlaintextTypeView, id: crate::program_names::ProgramIdView) -> PlaintextTypeView
    decreases v,
{
    match v {
        PlaintextTypeView::Struct(n) => PlaintextTypeView::ExternalStruct(LocatorView { id, resource: n }),
        PlaintextTypeView::Array(e, n) => PlaintextTypeView::Array(Box::new(pt_qualify(*e, id)), n),
        _ => v,
    }
}

/// Whether a plaintext type refers to a struct of another program.
pub open spec fn pt_contains_external_struct(v: PlaintextTypeView) -> bool
    decreases v,
{
    match v {
        PlaintextTypeView::ExternalStruct(_) => true,
        PlaintextTypeView::Array(e, _) => pt_contains_external_struct(*e),
        _ => false,
    }
}

/// Reading back the four bytes of a `u32` gives it.
pub proof fn lemma_u32_le_roundtrip(n: u32, s: Seq<u8>, i: int)
    requires
        0 <= i,
        i + 4 <= s.len(),
        s.subrange(i, i + 4) == u32_le_bytes(n),
    ensures
        u32_of_le(s, i) == n,
{
    assert(s[i] == u32_le_bytes(n)[0]);
    assert(s[i + 1] == u32_le_bytes(n)[1]);
    assert(s[i + 2] == u32_le_bytes(n)[2]);
    assert(s[i + 3] == u32_le_bytes(n)[3]);
    assert((n % 256) as u8 + 256 * ((n / 256) % 256) as u8 + 65536 * ((n / 65536) % 256) as u8
        + 16777216 * (n / 16777216) as u8 == n) by (bit_vector);
}

/// Reading back the bytes of an array type, given that its element type reads back.
proof fn lemma_pt_array_roundtrip(e: PlaintextTypeView, n: u32, rest: Seq<u8>)
    requires
        n >= 1,
        spec_pt_read_le(pt_bytes(e) + (u32_le_bytes(n) + rest)) == Ok::<(PlaintextTypeView, int), Error>(
            (e, pt_bytes(e).len() as int),
        ),
    ensures
        spec_pt_read_le(pt_bytes(PlaintextTypeView::Array(Box::new(e), n)) + rest) == Ok::<
            (PlaintextTypeView, int),
            Error,
        >((PlaintextTypeView::Array(Box::new(e), n), pt_bytes(PlaintextTypeView::Array(Box::new(e), n)).len() as int)),
{
    let v = PlaintextTypeView::Array(Box::new(e), n);
    let s = pt_bytes(v) + rest;
    let k = pt_bytes(e).len() as int;
    assert(s =~= seq![2u8] + (pt_bytes(e) + (u32_le_bytes(n) + rest)));
    assert(s.subrange(1, s.len() as int) =~= pt_bytes(e) + (u32_le_bytes(n) + rest));
    assert(s.subrange(1 + k, 1 + k + 4) =~= u32_le_bytes(n));
    lemma_u32_le_roundtrip(n, s, 1 + k);
    assert(pt_bytes(v).len() == 1 + k + 4);
}

/// Reading back the bytes of a valid plaintext type gives it, whatever follows.
pub proof fn lemma_pt_bytes_roundtrip(v: PlaintextTypeView, rest: Seq<u8>)
    requires
        pt_valid(v),
    ensures
        spec_pt_read_le(pt_bytes(v) + rest) == Ok::<(PlaintextTypeView, int), Error>(
            (v, pt_bytes(v).len() as int),
        ),
    decreases v,
{
    let s = pt_bytes(v) + rest;
    match v {
        PlaintextTypeView::Literal(l) => {
            assert(s.subrange(1, s.len() as int) =~= literal_type_bytes(l) + rest);
            lemma_literal_type_bytes_roundtrip(l, rest);
        },
        PlaintextTypeView::Struct(n) => {
            assert(s.subrange(1, s.len() as int) =~= name_bytes_le(n) + rest);
            lemma_name_bytes_roundtrip(n, rest);
        },
        PlaintextTypeView::Array(e, n) => {
            lemma_pt_bytes_roundtrip(*e, u32_le_bytes(n) + rest);
            lemma_pt_array_roundtrip(*e, n, rest);
        },
        PlaintextTypeView::ExternalStruct(l) => {
            assert(s.subrange(1, s.len() as int) =~= locator_bytes_le(l) + rest);
            lemma_locator_bytes_roundtrip(l, rest);
        },
    }
}

impl Clone for PlaintextType {
    fn clone(&self) -> (r: Self)
        ensures
            r@ == self@,
        decreases self,
    {
        match self {
            PlaintextType::Literal(l) => PlaintextType::Literal(*l),
            PlaintextType::Struct(n) => PlaintextType::Struct(n.clone()),
            PlaintextType::Array(a) => {
                let e = (*a.element).clone();
                PlaintextType::Array(ArrayType { element: Box::new(e), length: a.length })
            },
            PlaintextType::ExternalStruct(l) => PlaintextType::ExternalStruct(l.clone()),
        }
    }
}

impl PlaintextType {
    /// Whether two plaintext types are equal.
    pub fn is_equal(&self, other: &PlaintextType) -> (r: bool)
        ensures
            r == (self@ == other@),
        decreases self,
    {
        match (self, other) {
            (PlaintextType::Literal(a), PlaintextType::Literal(b)) => a.index() == b.index() && {
                proof {
                    crate::literal_type::lemma_literal_type_index(*a);
                    crate::literal_type::lemma_literal_type_index(*b);
                }
                true
            },
            (PlaintextType::Struct(a), PlaintextType::Struct(b)) => a.is_equal(b),
            (PlaintextType::Array(a), PlaintextType::Array(b)) => a.length == b.length
                && a.element.is_equal(&b.element),
            (PlaintextType::ExternalStruct(a), PlaintextType::ExternalStruct(b)) => a.is_equal(b),
            _ => false,
        }
    }

    /// The type with its structs of the same program made structs of program `id`.
    pub fn qualify(self, id: &crate::program_names::ProgramID) -> (r: PlaintextType)
        ensures
            r@ == pt_qualify(self@, id@),
        decreases self,
    {
        match self {
            PlaintextType::Struct(n) => PlaintextType::ExternalStruct(Locator::new(id.clone(), n)),
            PlaintextType::Array(a) => {
                let length = a.length;
                let e = (*a.element).qualify(id);
                PlaintextType::Array(ArrayType { element: Box::new(e), length })
            },
            other => other,
        }
    }

    /// Whether the type refers to a struct of another program.
    pub fn contains_external_struct(&self) -> (r: bool)
        ensures
            r == pt_contains_external_struct(self@),
        decreases self,
    {
        match self {
            PlaintextType::ExternalStruct(_) => true,
            PlaintextType::Array(a) => a.element.contains_external_struct(),
            _ => false,
        }
    }

    /// Appends the byte encoding to `out`.
    pub fn write_le(&self, out: &mut Vec<u8>)
        ensures
            final(out)@ == old(out)@ + pt_bytes(self@),
        decreases self,
    {
        let ghost start = out@;
        match self {
            PlaintextType::Literal(l) => {
                out.push(0);
                l.write_le(out);
            },
            PlaintextType::Struct(n) => {
                out.push(1);
                n.write_le(out);
            },
            PlaintextType::Array(a) => {
                out.push(2);
                a.element.write_le(out);
                let n = a.length;
                out.push((n % 256) as u8);
                out.push(((n / 256) % 256) as u8);
                out.push(((n / 65536) % 256) as u8);
                out.push((n / 16777216) as u8);
            },
            PlaintextType::ExternalStruct(l) => {
                out.push(3);
                l.write_le(out);
            },
        }
        assert(out@ =~= start + pt_bytes(self@));
    }

    /// Reads a plaintext type from the bytes of `s` at `pos`; returns it and the position
    /// after it.
    pub fn read_le(s: &[u8], pos: usize) -> (r: Result<(PlaintextType, usize), Error>)
        requires
            pos <= s@.len(),
        ensures
            r matches Ok((t, end)) ==> pos <= end <= s@.len() && spec_pt_read_le(
                s@.subrange(pos as int, s@.len() as int),
            ) == Ok::<(PlaintextTypeView, int), Error>((t@, end - pos)),
            r matches Err(e) ==> spec_pt_read_le(s@.subrange(pos as int, s@.len() as int)) == Err::<
                (PlaintextTypeView, int),
                Error,
            >(e),
        decreases s@.len() - pos,
    {
        let ghost rest = s@.subrange(pos as int, s@.len() as int);
        if pos >= s.len() {
            return Err(Error::UnexpectedEnd);
        }
        let tag = s[pos];
        assert(rest.subrange(1, rest.len() as int) =~= s@.subrange(pos + 1, s@.len() as int));
        if tag == 0 {
            match LiteralType::read_le(s, pos + 1) {
                Ok((t, end)) => Ok((PlaintextType::Literal(t), end)),
                Err(e) => Err(e),
            }
        } else if tag == 1 {
            match Identifier::read_le(s, pos + 1) {
                Ok((n, end)) => Ok((PlaintextType::Struct(n), end)),
                Err(e) => Err(e),
            }
        } else if tag == 2 {
            let (e, p) = match PlaintextType::read_le(s, pos + 1) {
                Ok(x) => x,
                Err(err) => {
                    return Err(err);
                },
            };
            if s.len() - p < 4 {
                return Err(Error::UnexpectedEnd);
            }
            let n = s[p] as u32 + 256 * (s[p + 1] as u32) + 65536 * (s[p + 2] as u32) + 16777216 * (
            s[p + 3] as u32);
            assert(n == u32_of_le(rest, p - pos));
            if n == 0 {
                return Err(Error::InvalidLength);
            }
            Ok((PlaintextType::Array(ArrayType { element: Box::new(e), length: n }), p + 4))
        } else if tag == 3 {
            match Locator::read_le(s, pos + 1) {
                Ok((l, end)) => Ok((PlaintextType::ExternalStruct(l), end)),
                Err(e) => Err(e),
            }
        } else {
            Err(Error::InvalidVariant)
        }
    }

    /// Appends the text of the type to `out`.
    pub fn push_text(&self, out: &mut Vec<u8>)
        ensures
            final(out)@ == old(out)@ + pt_text(self@),
        decreases self,
    {
        let ghost start = out@;
        match self {
            PlaintextType::Literal(l) => {
                let name = l.name();
                let mut i: usize = 0;
                while i < name.len()
                    invariant
                        i <= name@.len(),
                        out@ == start + name@.subrange(0, i as int),
                    decreases name@.len() - i,
                {
                    out.push(name[i]);
                    i = i + 1;
                    assert(out@ =~= start + name@.subrange(0, i as int));
                }
                assert(name@.subrange(0, name@.len() as int) =~= name@);
            },
            PlaintextType::Struct(n) => {
                n.push_text(out);
            },
            PlaintextType::Array(a) => {
                out.push(0x5b);
                a.element.push_text(out);
                out.push(0x3b);
                out.push(0x20);
                write_decimal(a.length as u64, out);
                out.push(0x75);
                out.push(0x33);
                out.push(0x32);
                out.push(0x5d);
            },
            PlaintextType::ExternalStruct(l) => {
                l.push_text(out);
            },
        }
        assert(out@ =~= start + pt_text(self@));
    }

    /// Parses a plaintext type from the bytes of `b` at `pos`; returns it and the position
    /// after it.
    pub fn parse_at(b: &[u8], pos: usize) -> (r: Result<(PlaintextType, usize), Error>)
        requires
            pos <= b@.len(),
        ensures
            r matches Ok((t, end)) ==> pos <= end <= b@.len() && spec_pt_parse(
                b@.subrange(pos as int, b@.len() as int),
            ) == Ok::<(PlaintextTypeView, int), Error>((t@, end - pos)),
            r matches Err(e) ==> spec_pt_parse(b@.subrange(pos as int, b@.len() as int)) == Err::<
                (PlaintextTypeView, int),
                Error,
            >(e),
        decreases b@.len() - pos,
    {
        let ghost rest = b@.subrange(pos as int, b@.len() as int);
        let n = b.len();
        if pos < n && b[pos] == 0x5b {
            assert(rest.subrange(1, rest.len() as int) =~= b@.subrange(pos + 1, b@.len() as int));
            let (e, p) = match PlaintextType::parse_at(b, pos + 1) {
                Ok(x) => x,
                Err(err) => {
                    return Err(err);
                },
            };
            if p >= n || b[p] != 0x3b {
                return Err(Error::Syntax);
            }
            let mut q: usize = p + 1;
            while q < n && b[q] == 0x20
                invariant
                    p + 1 <= q <= n,
                    n == b@.len(),
                    pos <= p,
                    rest == b@.subrange(pos as int, b@.len() as int),
                    forall|j: int| p + 1 <= j < q ==> #[trigger] b@[j] == 0x20,
                decreases n - q,
            {
                q = q + 1;
            }
            proof {
                lemma_spaces_end_at(rest, p + 1 - pos, q - pos);
            }
            assert(rest.subrange(q - pos, rest.len() as int) =~= b@.subrange(q as int, b@.len() as int));
            let (len, r) = match parse_u32_at(b, q) {
                Ok(x) => x,
                Err(err) => {
                    return Err(err);
                },
            };
            if n - r < 4 || b[r] != 0x75 || b[r + 1] != 0x33 || b[r + 2] != 0x32 || b[r + 3] != 0x5d {
                proof {
                    if r + 4 <= n {
                        assert(rest.subrange(r - pos, r - pos + 4) != array_close()) by {
                            if rest.subrange(r - pos, r - pos + 4) == array_close() {
                                assert(rest.subrange(r - pos, r - pos + 4)[0] == b@[r as int]);
                                assert(rest.subrange(r - pos, r - pos + 4)[1] == b@[r + 1]);
                                assert(rest.subrange(r - pos, r - pos + 4)[2] == b@[r + 2]);
                                assert(rest.subrange(r - pos, r - pos + 4)[3] == b@[r + 3]);
                            }
                        }
                    }
                }
                return Err(Error::Syntax);
            }
            assert(rest.subrange(r - pos, r - pos + 4) =~= array_close());
            if len == 0 {
                return Err(Error::InvalidLength);
            }
            return Ok((PlaintextType::Array(ArrayType { element: Box::new(e), length: len }), r + 4));
        }
        match Locator::parse_at(b, pos) {
            Ok((l, end)) => {
                return Ok((PlaintextType::ExternalStruct(l), end));
            },
            Err(_) => {},
        }
        if pos >= n || !is_letter_byte(b[pos]) {
            return Err(Error::Syntax);
        }
        let mut e: usize = pos;
        while e < n && is_identifier_byte(b[e])
            invariant
                pos <= e <= n,
                n == b@.len(),
                forall|j: int| pos <= j < e ==> is_identifier_char(#[trigger] b@[j]),
            decreases n - e,
        {
            e = e + 1;
        }
        proof {
            assert forall|j: int| 0 <= j < e - pos implies is_identifier_char(rest[j]) by {
                assert(rest[j] == b@[pos + j]);
            }
            if e < n {
                assert(rest[e - pos] == b@[e as int]);
            }
            lemma_end_at(rest, 0, e - pos);
        }
        let (head, _) = b.split_at(e);
        let (_, word) = head.split_at(pos);
        assert(word@ =~= rest.subrange(0, e - pos));
        match LiteralType::from_name(word) {
            Some(t) => Ok((PlaintextType::Literal(t), e)),
            None => match Identifier::from_bytes(word) {
                Ok(id) => Ok((PlaintextType::Struct(id), e)),
                Err(x) => Err(x),
            },
        }
    }
}

/// `spaces_end_from` is `n` when the bytes from `i` to `n` are spaces and `n` ends them.
pub proof fn lemma_spaces_end_at(b: Seq<u8>, i: int, n: int)
    requires
        0 <= i <= n <= b.len(),
        forall|j: int| i <= j < n ==> b[j] == 0x20,
        n == b.len() || b[n] != 0x20,
    ensures
        spaces_end_from(b, i) == n,
    decreases n - i,
{
    if i < n {
        lemma_spaces_end_at(b, i + 1, n);
    }
}

} // verus!
