//! Proof modes and versions of the Varuna SNARK.
use vstd::prelude::*;

use crate::error::Error;

verus! {

/// A mode of producing SNARK proofs.
pub trait SNARKMode: Copy + core::fmt::Debug + Sized {
    /// Whether proofs of this mode hide the witness (zero knowledge).
    fn zk() -> (r: bool);
}

/// The mode that produces hiding proofs.
#[derive(Clone, Copy, Debug, PartialEq, Eq, Structural)]
pub struct VarunaHidingMode;

impl SNARKMode for VarunaHidingMode {
    fn zk() -> (r: bool)
        ensures
            r,
    {
        true
    }
}

/// The mode that produces non-hiding proofs.
#[derive(Clone, Copy, Debug, PartialEq, Eq, Structural)]
pub struct VarunaNonHidingMode;

impl SNARKMode for VarunaNonHidingMode {
    fn zk() -> (r: bool)
        ensures
            !r,
    {
        false
    }
}

/// The versions of Varuna.
#[derive(Clone, Copy, Debug, PartialEq, Eq, Structural)]
pub enum VarunaVersion {
    V1,
    V2,
}

/// The byte of a version.
pub open spec fn varuna_version_byte(v: VarunaVersion) -> u8 {
    match v {
        VarunaVersion::V1 => 1,
        VarunaVersion::V2 => 2,
    }
}

/// The outcome of reading a version from its byte: 1 and 2 are the versions, any other
/// byte is refused.
pub open spec fn spec_varuna_version_from_byte(b: u8) -> Result<VarunaVersion, Error> {
    if b == 1 {
        Ok(VarunaVersion::V1)
    } else if b == 2 {
        Ok(VarunaVersion::V2)
    } else {
        Err(Error::InvalidVersion)
    }
}

/// Reading back the byte of a version gives the version.
pub proof fn lemma_varuna_version_roundtrip(v: VarunaVersion)
    ensures
        spec_varuna_version_from_byte(varuna_version_byte(v)) == Ok::<VarunaVersion, Error>(v),
{
}

impl VarunaVersion {
    /// The byte of the version.
    pub fn to_byte(&self) -> (r: u8)
        ensures
            r == varuna_version_byte(*self),
    {
        match self {
            VarunaVersion::V1 => 1,
            VarunaVersion::V2 => 2,
        }
    }

    /// Appends the byte of the version to `out`.
    pub fn write_le(&self, out: &mut Vec<u8>)
        ensures
            final(out)@ == old(out)@.push(varuna_version_byte(*self)),
    {
        out.push(self.to_byte());
    }

    /// Reads a version from the byte of `s` at `pos`; returns it and the position after it.
    pub fn read_le(s: &[u8], pos: usize) -> (r: Result<(VarunaVersion, usize), Error>)
        requires
            pos <= s@.len(),
        ensures
            pos == s@.len() ==> r == Err::<(VarunaVersion, usize), Error>(Error::UnexpectedEnd),
            pos < s@.len() ==> match spec_varuna_version_from_byte(s@[pos as int]) {
                Ok(v) => r == Ok::<(VarunaVersion, usize), Error>((v, (pos + 1) as usize)),
                Err(e) => r == Err::<(VarunaVersion, usize), Error>(e),
            },
    {
        if pos >= s.len() {
            return Err(Error::UnexpectedEnd);
        }
        let b = s[pos];
        if b == 1 {
            Ok((VarunaVersion::V1, pos + 1))
        } else if b == 2 {
            Ok((VarunaVersion::V2, pos + 1))
        } else {
            Err(Error::InvalidVersion)
        }
    }
}

} // verus!
