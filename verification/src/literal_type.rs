//! The literal types of Aleo programs, with their names and byte encoding.
use vstd::prelude::*;

use crate::error::Error;

verus! {

/// A literal type.
#[derive(Clone, Copy, Debug, PartialEq, Eq, Structural)]
pub enum LiteralType {
    Address,
    Boolean,
    Field,
    Group,
    I8,
    I16,
    I32,
    I64,
    I128,
    U8,
    U16,
    U32,
    U64,
    U128,
    Scalar,
    Signature,
    String,
    Identifier,
}

/// The number of literal types.
pub const NUM_LITERAL_TYPES: u16 = 18;

/// The index of a literal type, in the order of declaration.
pub open spec fn literal_type_index(t: LiteralType) -> u16 {
    match t {
        LiteralType::Address => 0,
        LiteralType::Boolean => 1,
        LiteralType::Field => 2,
        LiteralType::Group => 3,
        LiteralType::I8 => 4,
        LiteralType::I16 => 5,
        LiteralType::I32 => 6,
        LiteralType::I64 => 7,
        LiteralType::I128 => 8,
        LiteralType::U8 => 9,
        LiteralType::U16 => 10,
        LiteralType::U32 => 11,
        LiteralType::U64 => 12,
        LiteralType::U128 => 13,
        LiteralType::Scalar => 14,
        LiteralType::Signature => 15,
        LiteralType::String => 16,
        LiteralType::Identifier => 17,
    }
}

/// The literal type with the given index.
pub open spec fn literal_type_of_index(i: u16) -> Option<LiteralType> {
    if i == 0 {
        Some(LiteralType::Address)
    } else if i == 1 {
        Some(LiteralType::Boolean)
    } else if i == 2 {
        Some(LiteralType::Field)
    } else if i == 3 {
        Some(LiteralType::Group)
    } else if i == 4 {
        Some(LiteralType::I8)
    } else if i == 5 {
        Some(LiteralType::I16)
    } else if i == 6 {
        Some(LiteralType::I32)
    } else if i == 7 {
        Some(LiteralType::I64)
    } else if i == 8 {
        Some(LiteralType::I128)
    } else if i == 9 {
        Some(LiteralType::U8)
    } else if i == 10 {
        Some(LiteralType::U16)
    } else if i == 11 {
        Some(LiteralType::U32)
    } else if i == 12 {
        Some(LiteralType::U64)
    } else if i == 13 {
        Some(LiteralType::U128)
    } else if i == 14 {
        Some(LiteralType::Scalar)
    } else if i == 15 {
        Some(LiteralType::Signature)
    } else if i == 16 {
        Some(LiteralType::String)
    } else if i == 17 {
        Some(LiteralType::Identifier)
    } else {
        None
    }
}

/// The name of a literal type, as ASCII bytes.
pub open spec fn literal_type_name(t: LiteralType) -> Seq<u8> {
    match t {
        LiteralType::Address => seq![0x61u8, 0x64, 0x64, 0x72, 0x65, 0x73, 0x73],
        LiteralType::Boolean => seq![0x62u8, 0x6f, 0x6f, 0x6c, 0x65, 0x61, 0x6e],
        LiteralType::Field => seq![0x66u8, 0x69, 0x65, 0x6c, 0x64],
        LiteralType::Group => seq![0x67u8, 0x72, 0x6f, 0x75, 0x70],
        LiteralType::I8 => seq![0x69u8, 0x38],
        LiteralType::I16 => seq![0x69u8, 0x31, 0x36],
        LiteralType::I32 => seq![0x69u8, 0x33, 0x32],
        LiteralType::I64 => seq![0x69u8, 0x36, 0x34],
        LiteralType::I128 => seq![0x69u8, 0x31, 0x32, 0x38],
        LiteralType::U8 => seq![0x75u8, 0x38],
        LiteralType::U16 => seq![0x75u8, 0x31, 0x36],
        LiteralType::U32 => seq![0x75u8, 0x33, 0x32],
        LiteralType::U64 => seq![0x75u8, 0x36, 0x34],
        LiteralType::U128 => seq![0x75u8, 0x31, 0x32, 0x38],
        LiteralType::Scalar => seq![0x73u8, 0x63, 0x61, 0x6c, 0x61, 0x72],
        LiteralType::Signature => seq![0x73u8, 0x69, 0x67, 0x6e, 0x61, 0x74, 0x75, 0x72, 0x65],
        LiteralType::String => seq![0x73u8, 0x74, 0x72, 0x69, 0x6e, 0x67],
        LiteralType::Identifier => seq![0x69u8, 0x64, 0x65, 0x6e, 0x74, 0x69, 0x66, 0x69, 0x65, 0x72],
    }
}

/// Whether `s` is the name of a literal type.
pub open spec fn is_literal_type_name(s: Seq<u8>) -> bool {
    exists|t: LiteralType| #[trigger] literal_type_name(t) == s
}

/// The first literal type, from index `i` on, whose name is `s`.
pub open spec fn literal_of_name_from(s: Seq<u8>, i: u16) -> Option<LiteralType>
    decreases NUM_LITERAL_TYPES - i,
{
    if i >= NUM_LITERAL_TYPES {
        None
    } else if literal_type_of_index(i) matches Some(t) && literal_type_name(t) == s {
        literal_type_of_index(i)
    } else {
        literal_of_name_from(s, (i + 1) as u16)
    }
}

/// The literal type whose name is `s`, if there is one.
pub open spec fn literal_of_name(s: Seq<u8>) -> Option<LiteralType> {
    literal_of_name_from(s, 0)
}

/// The byte encoding of a literal type: its index as a little-endian `u16`.
pub open spec fn literal_type_bytes(t: LiteralType) -> Seq<u8> {
    seq![(literal_type_index(t) % 256) as u8, (literal_type_index(t) / 256) as u8]
}

/// The outcome of reading a literal type from the front of `s`.
pub open spec fn spec_literal_type_read_le(s: Seq<u8>) -> Result<LiteralType, Error> {
    if s.len() < 2 {
        Err(Error::UnexpectedEnd)
    } else {
        match literal_type_of_index((s[0] + 256 * s[1]) as u16) {
            Some(t) => Ok(t),
            None => Err(Error::InvalidVariant),
        }
    }
}

/// Each literal type has its index, and the index gives it back.
pub proof fn lemma_literal_type_index(t: LiteralType)
    ensures
        literal_type_index(t) < NUM_LITERAL_TYPES,
        literal_type_of_index(literal_type_index(t)) == Some(t),
{
}

/// Reading back the bytes of a literal type gives the type.
pub proof fn lemma_literal_type_bytes_roundtrip(t: LiteralType, rest: Seq<u8>)
    ensures
        spec_literal_type_read_le(literal_type_bytes(t) + rest) == Ok::<LiteralType, Error>(t),
{
    let s = literal_type_bytes(t) + rest;
    assert(s[0] + 256 * s[1] == literal_type_index(t));
}

impl LiteralType {
    /// The index of the type.
    pub fn index(&self) -> (r: u16)
        ensures
            r == literal_type_index(*self),
    {
        match self {
            LiteralType::Address => 0,
            LiteralType::Boolean => 1,
            LiteralType::Field => 2,
            LiteralType::Group => 3,
            LiteralType::I8 => 4,
            LiteralType::I16 => 5,
            LiteralType::I32 => 6,
            LiteralType::I64 => 7,
            LiteralType::I128 => 8,
            LiteralType::U8 => 9,
            LiteralType::U16 => 10,
            LiteralType::U32 => 11,
            LiteralType::U64 => 12,
            LiteralType::U128 => 13,
            LiteralType::Scalar => 14,
            LiteralType::Signature => 15,
            LiteralType::String => 16,
            LiteralType::Identifier => 17,
        }
    }

    /// The type with the given index, if there is one.
    pub fn from_index(i: u16) -> (r: Option<LiteralType>)
        ensures
            r == literal_type_of_index(i),
    {
        if i == 0 {
            Some(LiteralType::Address)
        } else if i == 1 {
            Some(LiteralType::Boolean)
        } else if i == 2 {
            Some(LiteralType::Field)
        } else if i == 3 {
            Some(LiteralType::Group)
        } else if i == 4 {
            Some(LiteralType::I8)
        } else if i == 5 {
            Some(LiteralType::I16)
        } else if i == 6 {
            Some(LiteralType::I32)
        } else if i == 7 {
            Some(LiteralType::I64)
        } else if i == 8 {
            Some(LiteralType::I128)
        } else if i == 9 {
            Some(LiteralType::U8)
        } else if i == 10 {
            Some(LiteralType::U16)
        } else if i == 11 {
            Some(LiteralType::U32)
        } else if i == 12 {
            Some(LiteralType::U64)
        } else if i == 13 {
            Some(LiteralType::U128)
        } else if i == 14 {
            Some(LiteralType::Scalar)
        } else if i == 15 {
            Some(LiteralType::Signature)
        } else if i == 16 {
            Some(LiteralType::String)
        } else if i == 17 {
            Some(LiteralType::Identifier)
        } else {
            None
        }
    }

    /// The name of the type, as ASCII bytes.
    pub fn name(&self) -> (r: Vec<u8>)
        ensures
            r@ == literal_type_name(*self),
    {
        let r = match self {
            LiteralType::Address => vec![0x61u8, 0x64, 0x64, 0x72, 0x65, 0x73, 0x73],
            LiteralType::Boolean => vec![0x62u8, 0x6f, 0x6f, 0x6c, 0x65, 0x61, 0x6e],
            LiteralType::Field => vec![0x66u8, 0x69, 0x65, 0x6c, 0x64],
            LiteralType::Group => vec![0x67u8, 0x72, 0x6f, 0x75, 0x70],
            LiteralType::I8 => vec![0x69u8, 0x38],
            LiteralType::I16 => vec![0x69u8, 0x31, 0x36],
            LiteralType::I32 => vec![0x69u8, 0x33, 0x32],
            LiteralType::I64 => vec![0x69u8, 0x36, 0x34],
            LiteralType::I128 => vec![0x69u8, 0x31, 0x32, 0x38],
            LiteralType::U8 => vec![0x75u8, 0x38],
            LiteralType::U16 => vec![0x75u8, 0x31, 0x36],
            LiteralType::U32 => vec![0x75u8, 0x33, 0x32],
            LiteralType::U64 => vec![0x75u8, 0x36, 0x34],
            LiteralType::U128 => vec![0x75u8, 0x31, 0x32, 0x38],
            LiteralType::Scalar => vec![0x73u8, 0x63, 0x61, 0x6c, 0x61, 0x72],
            LiteralType::Signature => vec![0x73u8, 0x69, 0x67, 0x6e, 0x61, 0x74, 0x75, 0x72, 0x65],
            LiteralType::String => vec![0x73u8, 0x74, 0x72, 0x69, 0x6e, 0x67],
            LiteralType::Identifier => vec![0x69u8, 0x64, 0x65, 0x6e, 0x74, 0x69, 0x66, 0x69, 0x65, 0x72],
        };
        assert(r@ =~= literal_type_name(*self));
        r
    }

    /// The literal type with the given name, if there is one.
    pub fn from_name(s: &[u8]) -> (r: Option<LiteralType>)
        ensures
            r == literal_of_name(s@),
            r matches Some(t) ==> literal_type_name(t) == s@,
            r is None ==> !is_literal_type_name(s@),
    {
        let mut i: u16 = 0;
        while i < NUM_LITERAL_TYPES
            invariant
                i <= NUM_LITERAL_TYPES,
                literal_of_name(s@) == literal_of_name_from(s@, i),
                forall|j: u16|
                    j < i ==> (#[trigger] literal_type_of_index(j)) is Some && literal_type_name(
                        literal_type_of_index(j).unwrap(),
                    ) != s@,
            decreases NUM_LITERAL_TYPES - i,
        {
            let t = match LiteralType::from_index(i) {
                Some(t) => t,
                None => {
                    return None;
                },
            };
            let name = t.name();
            if bytes_equal(name.as_slice(), s) {
                return Some(t);
            }
            i = i + 1;
        }
        proof {
            assert forall|t: LiteralType| #[trigger] literal_type_name(t) != s@ by {
                lemma_literal_type_index(t);
                assert(literal_type_of_index(literal_type_index(t)) is Some);
            }
        }
        None
    }

    /// Appends the byte encoding to `out`.
    pub fn write_le(&self, out: &mut Vec<u8>)
        ensures
            final(out)@ == old(out)@ + literal_type_bytes(*self),
    {
        let i = self.index();
        out.push((i % 256) as u8);
        out.push((i / 256) as u8);
        assert(final(out)@ =~= old(out)@ + literal_type_bytes(*self));
    }

    /// Reads a literal type from the bytes of `s` at `pos`; returns it and the position after it.
    pub fn read_le(s: &[u8], pos: usize) -> (r: Result<(LiteralType, usize), Error>)
        requires
            pos <= s@.len(),
        ensures
            r matches Ok((t, end)) ==> spec_literal_type_read_le(s@.subrange(pos as int, s@.len() as int))
                == Ok::<LiteralType, Error>(t) && end == pos + 2,
            r matches Err(e) ==> spec_literal_type_read_le(s@.subrange(pos as int, s@.len() as int))
                == Err::<LiteralType, Error>(e),
    {
        if s.len() - pos < 2 {
            return Err(Error::UnexpectedEnd);
        }
        let i = s[pos] as u16 + 256 * (s[pos + 1] as u16);
        match LiteralType::from_index(i) {
            Some(t) => Ok((t, pos + 2)),
            None => Err(Error::InvalidVariant),
        }
    }
}

/// Whether two byte strings are equal.
pub fn bytes_equal(a: &[u8], b: &[u8]) -> (r: bool)
    ensures
        r == (a@ == b@),
{
    let n = a.len();
    if n != b.len() {
        return false;
    }
    let mut i: usize = 0;
    while i < n
        invariant
            i <= n,
            n == a@.len(),
            n == b@.len(),
            forall|j: int| 0 <= j < i ==> a@[j] == b@[j],
        decreases n - i,
    {
        if a[i] != b[i] {
            return false;
        }
        i = i + 1;
    }
    assert(a@ =~= b@);
    true
}

} // verus!
