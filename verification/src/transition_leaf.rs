//! Transition leaves: the leaves of a transition's Merkle tree, with their byte encoding.
use vstd::prelude::*;

use crate::error::Error;
use crate::field::{is_canonical, spec_field_read_le, Field};
use crate::limbs::{lemma_limbs_bytes_roundtrip, Limbs};

verus! {

/// The leaf version of a static input or output.
pub const LEAF_VERSION_STATIC: u8 = 1;

/// The leaf version of a record input or output with a dynamic ID.
pub const LEAF_VERSION_DYNAMIC: u8 = 2;

/// The input and output variant of a record.
pub const VARIANT_RECORD: u8 = 3;

/// The input and output variant of an external record.
pub const VARIANT_EXTERNAL_RECORD: u8 = 4;

/// The outcome of checking a version and a variant: a static leaf may have any variant,
/// a dynamic leaf only that of a record or an external record.
pub open spec fn spec_leaf_check(version: u8, variant: u8) -> Result<(), Error> {
    if version == LEAF_VERSION_STATIC {
        Ok(())
    } else if version == LEAF_VERSION_DYNAMIC {
        if variant == VARIANT_RECORD || variant == VARIANT_EXTERNAL_RECORD {
            Ok(())
        } else {
            Err(Error::InvalidVariant)
        }
    } else {
        Err(Error::InvalidVersion)
    }
}

/// The fields of a transition leaf.
pub struct LeafView {
    pub version: u8,
    pub index: u8,
    pub variant: u8,
    pub id: Limbs,
}

/// The 35-byte encoding of a leaf: version, index, variant, then the 32 bytes of the ID.
pub open spec fn leaf_bytes_le(l: LeafView) -> Seq<u8> {
    seq![l.version, l.index, l.variant] + l.id.bytes()
}

/// The bytes of a leaf are, in this order: its version, its index, its variant, and the
/// 32 bytes of its ID.
pub proof fn lemma_leaf_bytes_layout(l: LeafView)
    ensures
        leaf_bytes_le(l).len() == 35,
        leaf_bytes_le(l)[0] == l.version,
        leaf_bytes_le(l)[1] == l.index,
        leaf_bytes_le(l)[2] == l.variant,
        leaf_bytes_le(l).subrange(3, 35) == l.id.bytes(),
{
    assert(leaf_bytes_le(l).subrange(3, 35) =~= l.id.bytes());
}

/// The outcome of reading a transition leaf from the front of `s`.
pub open spec fn spec_leaf_read_le(s: Seq<u8>) -> Result<LeafView, Error> {
    if s.len() < 3 {
        Err(Error::UnexpectedEnd)
    } else {
        match spec_field_read_le(s.subrange(3, s.len() as int)) {
            Err(e) => Err(e),
            Ok(id) => match spec_leaf_check(s[0], s[2]) {
                Err(e) => Err(e),
                Ok(_) => Ok(LeafView { version: s[0], index: s[1], variant: s[2], id }),
            },
        }
    }
}

/// A leaf of a transition's Merkle tree.
#[derive(Clone, Copy, Debug, PartialEq, Eq, Structural)]
pub struct TransitionLeaf {
    version: u8,
    index: u8,
    variant: u8,
    id: Field,
}

impl View for TransitionLeaf {
    type V = LeafView;

    closed spec fn view(&self) -> LeafView {
        LeafView { version: self.version, index: self.index, variant: self.variant, id: self.id@ }
    }
}

/// Checks that a version admits a variant.
pub fn check_leaf(version: u8, variant: u8) -> (r: Result<(), Error>)
    ensures
        r == spec_leaf_check(version, variant),
{
    if version == LEAF_VERSION_STATIC {
        Ok(())
    } else if version == LEAF_VERSION_DYNAMIC {
        if variant == VARIANT_RECORD || variant == VARIANT_EXTERNAL_RECORD {
            Ok(())
        } else {
            Err(Error::InvalidVariant)
        }
    } else {
        Err(Error::InvalidVersion)
    }
}

/// Reading back the bytes of a valid leaf gives the leaf.
pub proof fn lemma_leaf_bytes_roundtrip(l: LeafView, rest: Seq<u8>)
    requires
        spec_leaf_check(l.version, l.variant) is Ok,
        is_canonical(l.id),
    ensures
        spec_leaf_read_le(leaf_bytes_le(l) + rest) == Ok::<LeafView, Error>(l),
{
    let s = leaf_bytes_le(l) + rest;
    assert(s.subrange(3, s.len() as int).subrange(0, 32) =~= l.id.bytes());
    lemma_limbs_bytes_roundtrip(l.id);
}

impl TransitionLeaf {
    #[verifier::type_invariant]
    closed spec fn inv(self) -> bool {
        spec_leaf_check(self.version, self.variant) is Ok
    }

    /// A static leaf.
    pub fn new(index: u8, variant: u8, id: Field) -> (r: TransitionLeaf)
        ensures
            r@ == (LeafView { version: LEAF_VERSION_STATIC, index, variant, id: id@ }),
    {
        TransitionLeaf { version: LEAF_VERSION_STATIC, index, variant, id }
    }

    /// The dynamic leaf of a record.
    pub fn new_record_with_dynamic_id(index: u8, id: Field) -> (r: TransitionLeaf)
        ensures
            r@ == (LeafView { version: LEAF_VERSION_DYNAMIC, index, variant: VARIANT_RECORD, id: id@ }),
    {
        TransitionLeaf { version: LEAF_VERSION_DYNAMIC, index, variant: VARIANT_RECORD, id }
    }

    /// The dynamic leaf of an external record.
    pub fn new_external_record_with_dynamic_id(index: u8, id: Field) -> (r: TransitionLeaf)
        ensures
            r@ == (LeafView {
                version: LEAF_VERSION_DYNAMIC,
                index,
                variant: VARIANT_EXTERNAL_RECORD,
                id: id@,
            }),
    {
        TransitionLeaf { version: LEAF_VERSION_DYNAMIC, index, variant: VARIANT_EXTERNAL_RECORD, id }
    }

    /// A leaf from its fields, if the version admits the variant.
    pub fn from(version: u8, index: u8, variant: u8, id: Field) -> (r: Result<TransitionLeaf, Error>)
        ensures
            r matches Ok(l) ==> spec_leaf_check(version, variant) is Ok && l@ == (LeafView {
                version,
                index,
                variant,
                id: id@,
            }),
            r matches Err(e) ==> spec_leaf_check(version, variant) == Err::<(), Error>(e),
    {
        match check_leaf(version, variant) {
            Ok(()) => Ok(TransitionLeaf { version, index, variant, id }),
            Err(e) => Err(e),
        }
    }

    /// The version.
    pub fn version(&self) -> (r: u8)
        ensures
            r == self@.version,
    {
        self.version
    }

    /// The index.
    pub fn index(&self) -> (r: u8)
        ensures
            r == self@.index,
    {
        self.index
    }

    /// The variant.
    pub fn variant(&self) -> (r: u8)
        ensures
            r == self@.variant,
    {
        self.variant
    }

    /// The ID.
    pub fn id(&self) -> (r: Field)
        ensures
            r@ == self@.id,
    {
        self.id
    }

    /// Appends the byte encoding to `out`.
    pub fn write_le(&self, out: &mut Vec<u8>)
        ensures
            final(out)@ == old(out)@ + leaf_bytes_le(self@),
    {
        let ghost start = out@;
        out.push(self.version);
        out.push(self.index);
        out.push(self.variant);
        self.id.write_le(out);
        assert(out@ =~= start + leaf_bytes_le(self@));
    }

    /// Reads a leaf from the bytes of `s` at `pos`; returns it and the position after it.
    pub fn read_le(s: &[u8], pos: usize) -> (r: Result<(TransitionLeaf, usize), Error>)
        requires
            pos <= s@.len(),
        ensures
            r matches Ok((l, end)) ==> spec_leaf_read_le(s@.subrange(pos as int, s@.len() as int))
                == Ok::<LeafView, Error>(l@) && end == pos + 35,
            r matches Err(e) ==> spec_leaf_read_le(s@.subrange(pos as int, s@.len() as int)) == Err::<
                LeafView,
                Error,
            >(e),
    {
        let ghost rest = s@.subrange(pos as int, s@.len() as int);
        if s.len() - pos < 3 {
            return Err(Error::UnexpectedEnd);
        }
        let version = s[pos];
        let index = s[pos + 1];
        let variant = s[pos + 2];
        assert(rest.subrange(3, rest.len() as int) =~= s@.subrange(pos + 3, s@.len() as int));
        let id = match Field::read_le(s, pos + 3) {
            Ok(f) => f,
            Err(e) => {
                return Err(e);
            },
        };
        match Self::from(version, index, variant, id) {
            Ok(l) => Ok((l, pos + 35)),
            Err(e) => Err(e),
        }
    }
}

} // verus!
