//! The error kinds of the library.
use vstd::prelude::*;

verus! {

/// Why an operation of the library was refused.
#[derive(Clone, Copy, Debug, PartialEq, Eq, Structural)]
pub enum Error {
    /// The input ended before a complete value was read.
    UnexpectedEnd,
    /// A 256-bit word is not below the field modulus.
    NonCanonicalField,
    /// Bits past the size of the value are set.
    ExcessBitsNonZero,
    /// A length prefix or a length is out of range.
    InvalidLength,
    /// A character or byte is not allowed where it stands.
    InvalidCharacter,
    /// A variant tag is unknown.
    InvalidVariant,
    /// A version number is unknown or does not fit the rest.
    InvalidVersion,
    /// An arithmetic result does not fit.
    Overflow,
    /// A nesting depth exceeds its limit.
    DepthExceeded,
    /// A value cannot be converted to the requested type.
    InvalidCast,
    /// A value is missing where one is required.
    Missing,
    /// A lookup of a named type failed.
    NotFound,
    /// Input that remained after the parsed value.
    TrailingInput,
    /// The text does not follow the grammar.
    Syntax,
    /// A name is reserved for a literal type.
    ReservedName,
    /// A program ID's network is not `aleo`.
    InvalidNetwork,
    /// A recomputed value differs from the one given.
    Mismatch,
}

} // verus!
