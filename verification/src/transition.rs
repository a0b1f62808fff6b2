//! The inputs and outputs of a transition: their variants and IDs, their leaves in the
//! transition tree, their view from the caller, the value types they match, and the
//! check that a value present in them hashes to their ID.
//!
//! A plaintext, ciphertext or future value is held by its field elements, and a record
//! ciphertext by its bits, version and nonce: that is what the checks read of them. The
//! hash functions of the network are the caller's.
use vstd::prelude::*;

use crate::error::Error;
use crate::field::Field;
use crate::ids::id_preimage;
use crate::limbs::Limbs;
use crate::register_type::{ValueType, ValueTypeView};
use crate::transition_leaf::{
    LeafView, TransitionLeaf, LEAF_VERSION_DYNAMIC, LEAF_VERSION_STATIC, VARIANT_EXTERNAL_RECORD,
    VARIANT_RECORD,
};

verus! {

/// A transition input, in terms of the views of its parts.
pub enum InputView {
    Constant(Field, Option<Seq<Field>>),
    Public(Field, Option<Seq<Field>>),
    Private(Field, Option<Seq<Field>>),
    Record(Field, Field),
    ExternalRecord(Field),
    DynamicRecord(Field),
    RecordWithDynamicID(Field, Field, Field),
    ExternalRecordWithDynamicID(Field, Field),
}

/// A transition input.
#[derive(Debug, PartialEq, Eq)]
pub enum Input {
    /// The plaintext hash and, optionally, the plaintext's field elements.
    Constant(Field, Option<Vec<Field>>),
    /// The plaintext hash and, optionally, the plaintext's field elements.
    Public(Field, Option<Vec<Field>>),
    /// The ciphertext hash and, optionally, the ciphertext's field elements.
    Private(Field, Option<Vec<Field>>),
    /// The serial number and tag of the record.
    Record(Field, Field),
    /// The hash of the external record.
    ExternalRecord(Field),
    /// The hash of the dynamic record.
    DynamicRecord(Field),
    /// The serial number, tag and dynamic ID of a record input of a dynamic call.
    RecordWithDynamicID(Field, Field, Field),
    /// The external record hash and dynamic ID of an external record input of a dynamic call.
    ExternalRecordWithDynamicID(Field, Field),
}

/// The view of optional field elements.
pub open spec fn fields_view(v: Option<Vec<Field>>) -> Option<Seq<Field>> {
    match v {
        Some(f) => Some(f@),
        None => None,
    }
}

impl View for Input {
    type V = InputView;

    open spec fn view(&self) -> InputView {
        match self {
            Input::Constant(h, v) => InputView::Constant(*h, fields_view(*v)),
            Input::Public(h, v) => InputView::Public(*h, fields_view(*v)),
            Input::Private(h, v) => InputView::Private(*h, fields_view(*v)),
            Input::Record(s, t) => InputView::Record(*s, *t),
            Input::ExternalRecord(h) => InputView::ExternalRecord(*h),
            Input::DynamicRecord(h) => InputView::DynamicRecord(*h),
            Input::RecordWithDynamicID(s, t, d) => InputView::RecordWithDynamicID(*s, *t, *d),
            Input::ExternalRecordWithDynamicID(h, d) => InputView::ExternalRecordWithDynamicID(*h, *d),
        }
    }
}

/// The variant byte of an input.
pub open spec fn input_variant(i: InputView) -> u8 {
    match i {
        InputView::Constant(..) => 0,
        InputView::Public(..) => 1,
        InputView::Private(..) => 2,
        InputView::Record(..) => 3,
        InputView::ExternalRecord(..) => 4,
        InputView::DynamicRecord(..) => 5,
        InputView::RecordWithDynamicID(..) => 6,
        InputView::ExternalRecordWithDynamicID(..) => 7,
    }
}

/// The ID of an input.
pub open spec fn input_id(i: InputView) -> Field {
    match i {
        InputView::Constant(h, _) => h,
        InputView::Public(h, _) => h,
        InputView::Private(h, _) => h,
        InputView::Record(s, _) => s,
        InputView::ExternalRecord(h) => h,
        InputView::DynamicRecord(h) => h,
        InputView::RecordWithDynamicID(s, _, _) => s,
        InputView::ExternalRecordWithDynamicID(h, _) => h,
    }
}

/// The leaf of an input at `index`: a record with a dynamic ID makes a dynamic leaf of a
/// record, an external record with one a dynamic leaf of an external record; any other
/// input a static leaf with its own variant.
pub open spec fn input_leaf(i: InputView, index: u8) -> LeafView {
    match i {
        InputView::RecordWithDynamicID(..) => LeafView {
            version: LEAF_VERSION_DYNAMIC,
            index,
            variant: VARIANT_RECORD,
            id: input_id(i)@,
        },
        InputView::ExternalRecordWithDynamicID(..) => LeafView {
            version: LEAF_VERSION_DYNAMIC,
            index,
            variant: VARIANT_EXTERNAL_RECORD,
            id: input_id(i)@,
        },
        _ => LeafView { version: LEAF_VERSION_STATIC, index, variant: input_variant(i), id: input_id(i)@ },
    }
}

/// An input as the caller sees it: an input with a dynamic ID is a dynamic record of that ID.
pub open spec fn caller_input(i: InputView) -> InputView {
    match i {
        InputView::RecordWithDynamicID(_, _, d) => InputView::DynamicRecord(d),
        InputView::ExternalRecordWithDynamicID(_, d) => InputView::DynamicRecord(d),
        _ => i,
    }
}

/// Whether an input matches a value type.
pub open spec fn input_is_type(i: InputView, t: ValueTypeView) -> bool {
    match (i, t) {
        (InputView::Constant(..), ValueTypeView::Constant(..)) => true,
        (InputView::Public(..), ValueTypeView::Public(..)) => true,
        (InputView::Private(..), ValueTypeView::Private(..)) => true,
        (InputView::Record(..), ValueTypeView::Record(..)) => true,
        (InputView::RecordWithDynamicID(..), ValueTypeView::Record(..)) => true,
        (InputView::ExternalRecord(..), ValueTypeView::ExternalRecord(..)) => true,
        (InputView::ExternalRecordWithDynamicID(..), ValueTypeView::ExternalRecord(..)) => true,
        (InputView::DynamicRecord(..), ValueTypeView::DynamicRecord) => true,
        _ => false,
    }
}

/// The preimage of the hash of a public or constant value: the function ID, the value's
/// field elements, the transition commitment, and the index.
pub open spec fn value_preimage(function_id: Field, fields: Seq<Field>, tcm: Field, index: usize) -> Seq<Field> {
    seq![function_id] + fields + seq![tcm, index_field(index)]
}

/// The preimage of the hash of a public or constant value is, in this order: the
/// function ID, the value's field elements, the transition commitment, and the index as a
/// field element.
pub proof fn lemma_value_preimage_layout(function_id: Field, fields: Seq<Field>, tcm: Field, index: usize)
    ensures
        value_preimage(function_id, fields, tcm, index).len() == fields.len() + 3,
        value_preimage(function_id, fields, tcm, index)[0] == function_id,
        value_preimage(function_id, fields, tcm, index).subrange(1, fields.len() as int + 1) == fields,
        value_preimage(function_id, fields, tcm, index)[fields.len() as int + 1] == tcm,
        value_preimage(function_id, fields, tcm, index)[fields.len() as int + 2] == Field::spec_from_u16(index as u16),
{
    let p = value_preimage(function_id, fields, tcm, index);
    assert(p.subrange(1, fields.len() as int + 1) =~= fields);
}

/// A transition checks a constant or public value against the very preimage from which
/// the request's and the response's IDs are computed with the transition commitment.
pub proof fn lemma_value_preimage_is_id_preimage(function_id: Field, fields: Seq<Field>, tcm: Field, index: u16)
    ensures
        value_preimage(function_id, fields, tcm, index as usize) == id_preimage(function_id, fields, tcm, index),
{
}

/// The field element of an index, taken as a `u16`.
pub open spec fn index_field(index: usize) -> Field {
    Field::spec_from_u16(index as u16)
}

/// Whether a hash outcome is `Ok` of the expected value.
pub open spec fn hash_matches(h: Result<Field, Error>, expected: Field) -> bool {
    h matches Ok(c) && c@ == expected@
}

/// What checking an input may return, given the outcomes that `hash_psd8` may give:
/// a constant or public value must hash, with the function ID, the transition commitment
/// and the index, to the input ID; a private value's field elements must hash to it; a
/// missing value fails; record inputs pass.
pub open spec fn input_verify_outcome<H>(i: Input, function_id: Field, tcm: Field, index: usize, hash_psd8: H, r: bool) -> bool where
    H: Fn(&[Field]) -> Result<Field, Error>,
{
    match i {
        Input::Constant(h, Some(v)) | Input::Public(h, Some(v)) => exists|p: &[Field], c: Result<Field, Error>|
            #![trigger hash_psd8.ensures((p,), c)]
            p@ == value_preimage(function_id, v@, tcm, index) && hash_psd8.ensures((p,), c) && r
                == hash_matches(c, h),
        Input::Private(h, Some(v)) => exists|p: &[Field], c: Result<Field, Error>|
            #![trigger hash_psd8.ensures((p,), c)]
            p@ == v@ && hash_psd8.ensures((p,), c) && r == hash_matches(c, h),
        Input::Constant(_, None) | Input::Public(_, None) | Input::Private(_, None) => !r,
        _ => r,
    }
}

/// Builds the preimage of the hash of a public or constant value.
fn build_value_preimage(function_id: Field, fields: &Vec<Field>, tcm: Field, index: usize) -> (r: Vec<Field>)
    ensures
        r@ == value_preimage(function_id, fields@, tcm, index),
        r@ == seq![function_id] + fields@ + seq![tcm, Field::spec_from_u16(index as u16)],
{
    let mut p: Vec<Field> = Vec::new();
    p.push(function_id);
    let n = fields.len();
    let mut i: usize = 0;
    while i < n
        invariant
            i <= n,
            n == fields@.len(),
            p@ == seq![function_id] + fields@.subrange(0, i as int),
        decreases n - i,
    {
        p.push(fields[i]);
        i = i + 1;
        assert(p@ =~= seq![function_id] + fields@.subrange(0, i as int));
    }
    p.push(tcm);
    p.push(Field::from_u16(index as u16));
    assert(p@ =~= value_preimage(function_id, fields@, tcm, index));
    p
}

/// Whether a hash outcome is `Ok` of the expected value.
fn check_hash(h: Result<Field, Error>, expected: &Field) -> (r: bool)
    ensures
        r == hash_matches(h, *expected),
{
    match h {
        Ok(c) => c.is_equal(expected),
        Err(_) => false,
    }
}

impl Input {
    /// The variant byte.
    pub fn variant(&self) -> (r: u8)
        ensures
            r == input_variant(self@),
    {
        match self {
            Input::Constant(..) => 0,
            Input::Public(..) => 1,
            Input::Private(..) => 2,
            Input::Record(..) => 3,
            Input::ExternalRecord(..) => 4,
            Input::DynamicRecord(..) => 5,
            Input::RecordWithDynamicID(..) => 6,
            Input::ExternalRecordWithDynamicID(..) => 7,
        }
    }

    /// The ID: the hash, serial number or record hash.
    pub fn id(&self) -> (r: Field)
        ensures
            r == input_id(self@),
    {
        match self {
            Input::Constant(h, _) => *h,
            Input::Public(h, _) => *h,
            Input::Private(h, _) => *h,
            Input::Record(s, _) => *s,
            Input::ExternalRecord(h) => *h,
            Input::DynamicRecord(h) => *h,
            Input::RecordWithDynamicID(s, _, _) => *s,
            Input::ExternalRecordWithDynamicID(h, _) => *h,
        }
    }

    /// The leaf of the input at `index` in the transition tree.
    pub fn to_transition_leaf(&self, index: u8) -> (r: TransitionLeaf)
        ensures
            r@ == input_leaf(self@, index),
    {
        match self {
            Input::RecordWithDynamicID(..) => TransitionLeaf::new_record_with_dynamic_id(index, self.id()),
            Input::ExternalRecordWithDynamicID(..) => TransitionLeaf::new_external_record_with_dynamic_id(
                index,
                self.id(),
            ),
            _ => TransitionLeaf::new(index, self.variant(), self.id()),
        }
    }

    /// The tag, if the input is a record.
    pub fn tag(&self) -> (r: Option<Field>)
        ensures
            r == match self@ {
                InputView::Record(_, t) | InputView::RecordWithDynamicID(_, t, _) => Some(t),
                _ => None::<Field>,
            },
    {
        match self {
            Input::Record(_, t) | Input::RecordWithDynamicID(_, t, _) => Some(*t),
            _ => None,
        }
    }

    /// The serial number, if the input is a record.
    pub fn serial_number(&self) -> (r: Option<Field>)
        ensures
            r == match self@ {
                InputView::Record(s, _) | InputView::RecordWithDynamicID(s, _, _) => Some(s),
                _ => None::<Field>,
            },
    {
        match self {
            Input::Record(s, _) | Input::RecordWithDynamicID(s, _, _) => Some(*s),
            _ => None,
        }
    }

    /// The tag, if the input is a record, taking the input.
    pub fn into_tag(self) -> (r: Option<Field>)
        ensures
            r == match self@ {
                InputView::Record(_, t) | InputView::RecordWithDynamicID(_, t, _) => Some(t),
                _ => None::<Field>,
            },
    {
        match self {
            Input::Record(_, t) | Input::RecordWithDynamicID(_, t, _) => Some(t),
            _ => None,
        }
    }

    /// The serial number, if the input is a record, taking the input.
    pub fn into_serial_number(self) -> (r: Option<Field>)
        ensures
            r == match self@ {
                InputView::Record(s, _) | InputView::RecordWithDynamicID(s, _, _) => Some(s),
                _ => None::<Field>,
            },
    {
        match self {
            Input::Record(s, _) | Input::RecordWithDynamicID(s, _, _) => Some(s),
            _ => None,
        }
    }

    /// The dynamic ID, if the input carries one.
    pub fn dynamic_id(&self) -> (r: Option<Field>)
        ensures
            r == match self@ {
                InputView::RecordWithDynamicID(_, _, d) | InputView::ExternalRecordWithDynamicID(_, d) => Some(d),
                _ => None::<Field>,
            },
    {
        match self {
            Input::RecordWithDynamicID(_, _, d) | Input::ExternalRecordWithDynamicID(_, d) => Some(*d),
            _ => None,
        }
    }

    /// The public inputs of the proof: the ID, then the tag of a record.
    pub fn verifier_inputs(&self) -> (r: Vec<Field>)
        ensures
            r@ == match self@ {
                InputView::Record(_, t) | InputView::RecordWithDynamicID(_, t, _) => seq![input_id(self@), t],
                _ => seq![input_id(self@)],
            },
    {
        let mut r: Vec<Field> = Vec::new();
        r.push(self.id());
        if let Some(t) = self.tag() {
            r.push(t);
        }
        assert(r@ =~= match self@ {
            InputView::Record(_, t) | InputView::RecordWithDynamicID(_, t, _) => seq![input_id(self@), t],
            _ => seq![input_id(self@)],
        });
        r
    }

    /// The input as the caller sees it.
    pub fn to_caller_input(&self) -> (r: Input)
        ensures
            r@ == caller_input(self@),
    {
        match self {
            Input::Constant(h, v) => Input::Constant(*h, clone_fields(v)),
            Input::Public(h, v) => Input::Public(*h, clone_fields(v)),
            Input::Private(h, v) => Input::Private(*h, clone_fields(v)),
            Input::Record(s, t) => Input::Record(*s, *t),
            Input::ExternalRecord(h) => Input::ExternalRecord(*h),
            Input::DynamicRecord(h) => Input::DynamicRecord(*h),
            Input::RecordWithDynamicID(_, _, d) => Input::DynamicRecord(*d),
            Input::ExternalRecordWithDynamicID(_, d) => Input::DynamicRecord(*d),
        }
    }

    /// Whether the input matches the expected value type.
    pub fn is_type(&self, expected: &ValueType) -> (r: bool)
        ensures
            r == input_is_type(self@, expected@),
    {
        match (self, expected) {
            (Input::Constant(..), ValueType::Constant(..)) => true,
            (Input::Public(..), ValueType::Public(..)) => true,
            (Input::Private(..), ValueType::Private(..)) => true,
            (Input::Record(..), ValueType::Record(..)) => true,
            (Input::RecordWithDynamicID(..), ValueType::Record(..)) => true,
            (Input::ExternalRecord(..), ValueType::ExternalRecord(..)) => true,
            (Input::ExternalRecordWithDynamicID(..), ValueType::ExternalRecord(..)) => true,
            (Input::DynamicRecord(..), ValueType::DynamicRecord) => true,
            _ => false,
        }
    }

    /// Whether the input is well formed: a value it carries hashes to its ID.
    pub fn verify<H>(&self, function_id: Field, tcm: &Field, index: usize, hash_psd8: &H) -> (r: bool) where
        H: Fn(&[Field]) -> Result<Field, Error>,
        requires
            forall|p: &[Field]| hash_psd8.requires((p,)),
        ensures
            input_verify_outcome(*self, function_id, *tcm, index, *hash_psd8, r),
    {
        match self {
            Input::Constant(h, Some(v)) | Input::Public(h, Some(v)) => {
                let p = build_value_preimage(function_id, v, *tcm, index);
                let c = hash_psd8(p.as_slice());
                check_hash(c, h)
            },
            Input::Private(h, Some(v)) => {
                let c = hash_psd8(v.as_slice());
                check_hash(c, h)
            },
            Input::Constant(_, None) | Input::Public(_, None) | Input::Private(_, None) => false,
            _ => true,
        }
    }
}

/// A copy of optional field elements.
fn clone_fields(v: &Option<Vec<Field>>) -> (r: Option<Vec<Field>>)
    ensures
        fields_view(r) == fields_view(*v),
{
    match v {
        Some(f) => {
            let mut c: Vec<Field> = Vec::new();
            let n = f.len();
            let mut i: usize = 0;
            while i < n
                invariant
                    i <= n,
                    n == f@.len(),
                    c@ == f@.subrange(0, i as int),
                decreases n - i,
            {
                c.push(f[i]);
                i = i + 1;
                assert(c@ =~= f@.subrange(0, i as int));
            }
            assert(c@ =~= f@);
            Some(c)
        },
        None => None,
    }
}

/// The parts of a record ciphertext that the checks read.
pub struct RecordCiphertextView {
    pub bits: Seq<bool>,
    pub version: u8,
    pub nonce: Field,
}

/// A record ciphertext, by its little-endian bits (whose last eight bits are its
/// version), its version and its nonce.
#[derive(Debug, PartialEq, Eq)]
pub struct RecordCiphertext {
    pub bits: Vec<bool>,
    pub version: u8,
    pub nonce: Field,
}

impl View for RecordCiphertext {
    type V = RecordCiphertextView;

    open spec fn view(&self) -> RecordCiphertextView {
        RecordCiphertextView { bits: self.bits@, version: self.version, nonce: self.nonce }
    }
}

/// A transition output, in terms of the views of its parts.
pub enum OutputView {
    Constant(Field, Option<Seq<Field>>),
    Public(Field, Option<Seq<Field>>),
    Private(Field, Option<Seq<Field>>),
    Record(Field, Field, Option<RecordCiphertextView>, Option<Field>),
    ExternalRecord(Field),
    Future(Field, Option<Seq<Field>>),
    DynamicRecord(Field),
    RecordWithDynamicID(Field, Field, Option<RecordCiphertextView>, Option<Field>, Field),
    ExternalRecordWithDynamicID(Field, Field),
}

/// A transition output.
#[derive(Debug, PartialEq, Eq)]
pub enum Output {
    /// The plaintext hash and, optionally, the plaintext's field elements.
    Constant(Field, Option<Vec<Field>>),
    /// The plaintext hash and, optionally, the plaintext's field elements.
    Public(Field, Option<Vec<Field>>),
    /// The ciphertext hash and, optionally, the ciphertext's field elements.
    Private(Field, Option<Vec<Field>>),
    /// The commitment, checksum, optional record ciphertext and optional sender ciphertext.
    Record(Field, Field, Option<RecordCiphertext>, Option<Field>),
    /// The hash of the external record.
    ExternalRecord(Field),
    /// The future hash and, optionally, the future's field elements.
    Future(Field, Option<Vec<Field>>),
    /// The hash of the dynamic record.
    DynamicRecord(Field),
    /// The commitment, checksum, optional record ciphertext, optional sender ciphertext and dynamic ID.
    RecordWithDynamicID(Field, Field, Option<RecordCiphertext>, Option<Field>, Field),
    /// The external record hash and dynamic ID.
    ExternalRecordWithDynamicID(Field, Field),
}

/// The view of an optional record ciphertext.
pub open spec fn record_view(r: Option<RecordCiphertext>) -> Option<RecordCiphertextView> {
    match r {
        Some(c) => Some(c@),
        None => None,
    }
}

impl View for Output {
    type V = OutputView;

    open spec fn view(&self) -> OutputView {
        match self {
            Output::Constant(h, v) => OutputView::Constant(*h, fields_view(*v)),
            Output::Public(h, v) => OutputView::Public(*h, fields_view(*v)),
            Output::Private(h, v) => OutputView::Private(*h, fields_view(*v)),
            Output::Record(c, s, r, e) => OutputView::Record(*c, *s, record_view(*r), *e),
            Output::ExternalRecord(h) => OutputView::ExternalRecord(*h),
            Output::Future(h, v) => OutputView::Future(*h, fields_view(*v)),
            Output::DynamicRecord(h) => OutputView::DynamicRecord(*h),
            Output::RecordWithDynamicID(c, s, r, e, d) => OutputView::RecordWithDynamicID(*c, *s, record_view(*r), *e, *d),
            Output::ExternalRecordWithDynamicID(h, d) => OutputView::ExternalRecordWithDynamicID(*h, *d),
        }
    }
}

/// The variant byte of an output.
pub open spec fn output_variant(o: OutputView) -> u8 {
    match o {
        OutputView::Constant(..) => 0,
        OutputView::Public(..) => 1,
        OutputView::Private(..) => 2,
        OutputView::Record(..) => 3,
        OutputView::ExternalRecord(..) => 4,
        OutputView::Future(..) => 5,
        OutputView::DynamicRecord(..) => 6,
        OutputView::RecordWithDynamicID(..) => 7,
        OutputView::ExternalRecordWithDynamicID(..) => 8,
    }
}

/// The ID of an output.
pub open spec fn output_id(o: OutputView) -> Field {
    match o {
        OutputView::Constant(h, _) => h,
        OutputView::Public(h, _) => h,
        OutputView::Private(h, _) => h,
        OutputView::Record(c, _, _, _) => c,
        OutputView::ExternalRecord(h) => h,
        OutputView::Future(h, _) => h,
        OutputView::DynamicRecord(h) => h,
        OutputView::RecordWithDynamicID(c, _, _, _, _) => c,
        OutputView::ExternalRecordWithDynamicID(h, _) => h,
    }
}

/// The leaf of an output at `index`, as for inputs.
pub open spec fn output_leaf(o: OutputView, index: u8) -> LeafView {
    match o {
        OutputView::RecordWithDynamicID(..) => LeafView {
            version: LEAF_VERSION_DYNAMIC,
            index,
            variant: VARIANT_RECORD,
            id: output_id(o)@,
        },
        OutputView::ExternalRecordWithDynamicID(..) => LeafView {
            version: LEAF_VERSION_DYNAMIC,
            index,
            variant: VARIANT_EXTERNAL_RECORD,
            id: output_id(o)@,
        },
        _ => LeafView { version: LEAF_VERSION_STATIC, index, variant: output_variant(o), id: output_id(o)@ },
    }
}

/// The checksum of a record output.
pub open spec fn output_checksum(o: OutputView) -> Option<Field> {
    match o {
        OutputView::Record(_, s, _, _) | OutputView::RecordWithDynamicID(_, s, _, _, _) => Some(s),
        _ => None,
    }
}

/// The sender ciphertext of a record output, when present.
pub open spec fn output_sender_ciphertext(o: OutputView) -> Option<Field> {
    match o {
        OutputView::Record(_, _, _, e) | OutputView::RecordWithDynamicID(_, _, _, e, _) => e,
        _ => None,
    }
}

/// An output as the caller sees it: an output with a dynamic ID is a dynamic record of that ID.
pub open spec fn caller_output(o: OutputView) -> OutputView {
    match o {
        OutputView::RecordWithDynamicID(_, _, _, _, d) => OutputView::DynamicRecord(d),
        OutputView::ExternalRecordWithDynamicID(_, d) => OutputView::DynamicRecord(d),
        _ => o,
    }
}

/// Whether an output matches a value type.
pub open spec fn output_is_type(o: OutputView, t: ValueTypeView) -> bool {
    match (o, t) {
        (OutputView::Constant(..), ValueTypeView::Constant(..)) => true,
        (OutputView::Public(..), ValueTypeView::Public(..)) => true,
        (OutputView::Private(..), ValueTypeView::Private(..)) => true,
        (OutputView::Record(..), ValueTypeView::Record(..)) => true,
        (OutputView::RecordWithDynamicID(..), ValueTypeView::Record(..)) => true,
        (OutputView::ExternalRecord(..), ValueTypeView::ExternalRecord(..)) => true,
        (OutputView::ExternalRecordWithDynamicID(..), ValueTypeView::ExternalRecord(..)) => true,
        (OutputView::Future(..), ValueTypeView::Future(..)) => true,
        (OutputView::DynamicRecord(..), ValueTypeView::DynamicRecord) => true,
        _ => false,
    }
}

/// The checksum preimage of a record ciphertext: its bits, without the last eight (the
/// version) for a version 0 record.
pub open spec fn record_checksum_preimage(c: RecordCiphertextView) -> Seq<bool> {
    if c.version == 0 {
        c.bits.subrange(0, if c.bits.len() >= 8 {
            c.bits.len() - 8
        } else {
            0
        })
    } else {
        c.bits
    }
}

/// Whether a record's version admits its sender ciphertext: none for version 0, a
/// nonzero one for version 1; other versions are refused.
pub open spec fn sender_ciphertext_ok(c: RecordCiphertextView, sender: Option<Field>) -> bool {
    if c.version == 0 {
        sender is None
    } else if c.version == 1 {
        sender matches Some(s) && s@ != (Limbs { l0: 0, l1: 0, l2: 0, l3: 0 })
    } else {
        false
    }
}

/// What checking an output may return, given the outcomes of `hash_psd8` and
/// `hash_bhp1024`: values hash as for inputs (a future like a public value); a record's
/// version must admit its sender ciphertext and its bits must hash to the checksum; a
/// missing value fails; external and dynamic records pass.
pub open spec fn output_verify_outcome<H, B>(
    o: Output,
    function_id: Field,
    tcm: Field,
    index: usize,
    hash_psd8: H,
    hash_bhp1024: B,
    r: bool,
) -> bool where H: Fn(&[Field]) -> Result<Field, Error>, B: Fn(&[bool]) -> Result<Field, Error> {
    match o {
        Output::Constant(h, Some(v)) | Output::Public(h, Some(v)) | Output::Future(h, Some(v)) => exists|p: &[Field], c: Result<Field, Error>|
            #![trigger hash_psd8.ensures((p,), c)]
            p@ == value_preimage(function_id, v@, tcm, index) && hash_psd8.ensures((p,), c) && r
                == hash_matches(c, h),
        Output::Private(h, Some(v)) => exists|p: &[Field], c: Result<Field, Error>|
            #![trigger hash_psd8.ensures((p,), c)]
            p@ == v@ && hash_psd8.ensures((p,), c) && r == hash_matches(c, h),
        Output::Record(_, s, Some(rc), e) | Output::RecordWithDynamicID(_, s, Some(rc), e, _) => if !sender_ciphertext_ok(
            rc@,
            e,
        ) {
            !r
        } else {
            exists|p: &[bool], c: Result<Field, Error>|
                #![trigger hash_bhp1024.ensures((p,), c)]
                p@ == record_checksum_preimage(rc@) && hash_bhp1024.ensures((p,), c) && r
                    == hash_matches(c, s)
        },
        Output::Constant(_, None)
        | Output::Public(_, None)
        | Output::Private(_, None)
        | Output::Record(_, _, None, _)
        | Output::RecordWithDynamicID(_, _, None, _, _)
        | Output::Future(_, None) => !r,
        _ => r,
    }
}

impl Output {
    /// The variant byte.
    pub fn variant(&self) -> (r: u8)
        ensures
            r == output_variant(self@),
    {
        match self {
            Output::Constant(..) => 0,
            Output::Public(..) => 1,
            Output::Private(..) => 2,
            Output::Record(..) => 3,
            Output::ExternalRecord(..) => 4,
            Output::Future(..) => 5,
            Output::DynamicRecord(..) => 6,
            Output::RecordWithDynamicID(..) => 7,
            Output::ExternalRecordWithDynamicID(..) => 8,
        }
    }

    /// The ID: the hash or the record commitment.
    pub fn id(&self) -> (r: Field)
        ensures
            r == output_id(self@),
    {
        match self {
            Output::Constant(h, _) => *h,
            Output::Public(h, _) => *h,
            Output::Private(h, _) => *h,
            Output::Record(c, _, _, _) => *c,
            Output::ExternalRecord(h) => *h,
            Output::Future(h, _) => *h,
            Output::DynamicRecord(h) => *h,
            Output::RecordWithDynamicID(c, _, _, _, _) => *c,
            Output::ExternalRecordWithDynamicID(h, _) => *h,
        }
    }

    /// The leaf of the output at `index` in the transition tree.
    pub fn to_transition_leaf(&self, index: u8) -> (r: TransitionLeaf)
        ensures
            r@ == output_leaf(self@, index),
    {
        match self {
            Output::RecordWithDynamicID(..) => TransitionLeaf::new_record_with_dynamic_id(index, self.id()),
            Output::ExternalRecordWithDynamicID(..) => TransitionLeaf::new_external_record_with_dynamic_id(
                index,
                self.id(),
            ),
            _ => TransitionLeaf::new(index, self.variant(), self.id()),
        }
    }

    /// The commitment and record ciphertext, if the output is a record that holds one.
    pub fn record(&self) -> (r: Option<(Field, &RecordCiphertext)>)
        ensures
            r matches Some((c, rc)) ==> match self@ {
                OutputView::Record(c2, _, Some(rv), _) | OutputView::RecordWithDynamicID(c2, _, Some(rv), _, _) => c
                    == c2 && rc@ == rv,
                _ => false,
            },
            r is None ==> !(self@ matches OutputView::Record(_, _, Some(_), _)) && !(
            self@ matches OutputView::RecordWithDynamicID(_, _, Some(_), _, _)),
    {
        match self {
            Output::Record(c, _, Some(rc), _) | Output::RecordWithDynamicID(c, _, Some(rc), _, _) => Some((*c, rc)),
            _ => None,
        }
    }

    /// The commitment, if the output is a record.
    pub fn commitment(&self) -> (r: Option<Field>)
        ensures
            r == match self@ {
                OutputView::Record(c, _, _, _) | OutputView::RecordWithDynamicID(c, _, _, _, _) => Some(c),
                _ => None::<Field>,
            },
    {
        match self {
            Output::Record(c, ..) | Output::RecordWithDynamicID(c, ..) => Some(*c),
            _ => None,
        }
    }

    /// The nonce, if the output is a record that holds its ciphertext.
    pub fn nonce(&self) -> (r: Option<Field>)
        ensures
            r == match self@ {
                OutputView::Record(_, _, Some(rc), _) | OutputView::RecordWithDynamicID(_, _, Some(rc), _, _) => Some(rc.nonce),
                _ => None::<Field>,
            },
    {
        match self {
            Output::Record(_, _, Some(rc), _) | Output::RecordWithDynamicID(_, _, Some(rc), _, _) => Some(rc.nonce),
            _ => None,
        }
    }

    /// The checksum, if the output is a record.
    pub fn checksum(&self) -> (r: Option<Field>)
        ensures
            r == output_checksum(self@),
    {
        match self {
            Output::Record(_, s, ..) | Output::RecordWithDynamicID(_, s, ..) => Some(*s),
            _ => None,
        }
    }

    /// The sender ciphertext, if the output is a record that holds one.
    pub fn sender_ciphertext(&self) -> (r: Option<Field>)
        ensures
            r == output_sender_ciphertext(self@),
    {
        match self {
            Output::Record(_, _, _, e) | Output::RecordWithDynamicID(_, _, _, e, _) => *e,
            _ => None,
        }
    }

    /// The commitment and record ciphertext, if the output is a record that holds one,
    /// taking the output.
    pub fn into_record(self) -> (r: Option<(Field, RecordCiphertext)>)
        ensures
            r matches Some((c, rc)) ==> match self@ {
                OutputView::Record(c2, _, Some(rv), _) | OutputView::RecordWithDynamicID(c2, _, Some(rv), _, _) => c
                    == c2 && rc@ == rv,
                _ => false,
            },
            r is None ==> !(self@ matches OutputView::Record(_, _, Some(_), _)) && !(
            self@ matches OutputView::RecordWithDynamicID(_, _, Some(_), _, _)),
    {
        match self {
            Output::Record(c, _, Some(rc), _) | Output::RecordWithDynamicID(c, _, Some(rc), _, _) => Some((c, rc)),
            _ => None,
        }
    }

    /// The commitment, if the output is a record, taking the output.
    pub fn into_commitment(self) -> (r: Option<Field>)
        ensures
            r == match self@ {
                OutputView::Record(c, _, _, _) | OutputView::RecordWithDynamicID(c, _, _, _, _) => Some(c),
                _ => None::<Field>,
            },
    {
        match self {
            Output::Record(c, ..) | Output::RecordWithDynamicID(c, ..) => Some(c),
            _ => None,
        }
    }

    /// The nonce, if the output is a record that holds its ciphertext, taking the output.
    pub fn into_nonce(self) -> (r: Option<Field>)
        ensures
            r == match self@ {
                OutputView::Record(_, _, Some(rc), _) | OutputView::RecordWithDynamicID(_, _, Some(rc), _, _) => Some(rc.nonce),
                _ => None::<Field>,
            },
    {
        match self {
            Output::Record(_, _, Some(rc), _) | Output::RecordWithDynamicID(_, _, Some(rc), _, _) => Some(rc.nonce),
            _ => None,
        }
    }

    /// The checksum, if the output is a record, taking the output.
    pub fn into_checksum(self) -> (r: Option<Field>)
        ensures
            r == output_checksum(self@),
    {
        match self {
            Output::Record(_, s, ..) | Output::RecordWithDynamicID(_, s, ..) => Some(s),
            _ => None,
        }
    }

    /// The sender ciphertext, if the output is a record that holds one, taking the output.
    pub fn into_sender_ciphertext(self) -> (r: Option<Field>)
        ensures
            r == output_sender_ciphertext(self@),
    {
        match self {
            Output::Record(_, _, _, e) | Output::RecordWithDynamicID(_, _, _, e, _) => e,
            _ => None,
        }
    }

    /// The future's field elements, if the output is a future that holds them.
    pub fn future(&self) -> (r: Option<&Vec<Field>>)
        ensures
            r matches Some(v) ==> self@ matches OutputView::Future(_, Some(f)) && v@ == f,
            r is None ==> !(self@ matches OutputView::Future(_, Some(_))),
    {
        match self {
            Output::Future(_, Some(v)) => Some(v),
            _ => None,
        }
    }

    /// The dynamic ID, if the output carries one.
    pub fn dynamic_id(&self) -> (r: Option<Field>)
        ensures
            r == match self@ {
                OutputView::RecordWithDynamicID(_, _, _, _, d) | OutputView::ExternalRecordWithDynamicID(_, d) => Some(d),
                _ => None::<Field>,
            },
    {
        match self {
            Output::RecordWithDynamicID(_, _, _, _, d) | Output::ExternalRecordWithDynamicID(_, d) => Some(*d),
            _ => None,
        }
    }

    /// The public inputs of the proof: the ID, then the checksum and the sender
    /// ciphertext where there are.
    pub fn verifier_inputs(&self) -> (r: Vec<Field>)
        ensures
            r@ == seq![output_id(self@)] + match output_checksum(self@) {
                Some(s) => seq![s],
                None => Seq::<Field>::empty(),
            } + match output_sender_ciphertext(self@) {
                Some(e) => seq![e],
                None => Seq::<Field>::empty(),
            },
    {
        let mut r: Vec<Field> = Vec::new();
        r.push(self.id());
        if let Some(s) = self.checksum() {
            r.push(s);
        }
        if let Some(e) = self.sender_ciphertext() {
            r.push(e);
        }
        assert(r@ =~= seq![output_id(self@)] + match output_checksum(self@) {
            Some(s) => seq![s],
            None => Seq::<Field>::empty(),
        } + match output_sender_ciphertext(self@) {
            Some(e) => seq![e],
            None => Seq::<Field>::empty(),
        });
        r
    }

    /// The output as the caller sees it.
    pub fn to_caller_output(&self) -> (r: Output)
        ensures
            r@ == caller_output(self@),
    {
        match self {
            Output::Constant(h, v) => Output::Constant(*h, clone_fields(v)),
            Output::Public(h, v) => Output::Public(*h, clone_fields(v)),
            Output::Private(h, v) => Output::Private(*h, clone_fields(v)),
            Output::Record(c, s, rc, e) => Output::Record(*c, *s, clone_record(rc), *e),
            Output::ExternalRecord(h) => Output::ExternalRecord(*h),
            Output::Future(h, v) => Output::Future(*h, clone_fields(v)),
            Output::DynamicRecord(h) => Output::DynamicRecord(*h),
            Output::RecordWithDynamicID(_, _, _, _, d) => Output::DynamicRecord(*d),
            Output::ExternalRecordWithDynamicID(_, d) => Output::DynamicRecord(*d),
        }
    }

    /// Whether the output matches the expected value type.
    pub fn is_type(&self, expected: &ValueType) -> (r: bool)
        ensures
            r == output_is_type(self@, expected@),
    {
        match (self, expected) {
            (Output::Constant(..), ValueType::Constant(..)) => true,
            (Output::Public(..), ValueType::Public(..)) => true,
            (Output::Private(..), ValueType::Private(..)) => true,
            (Output::Record(..), ValueType::Record(..)) => true,
            (Output::RecordWithDynamicID(..), ValueType::Record(..)) => true,
            (Output::ExternalRecord(..), ValueType::ExternalRecord(..)) => true,
            (Output::ExternalRecordWithDynamicID(..), ValueType::ExternalRecord(..)) => true,
            (Output::Future(..), ValueType::Future(..)) => true,
            (Output::DynamicRecord(..), ValueType::DynamicRecord) => true,
            _ => false,
        }
    }

    /// Whether the output is well formed: a value it carries hashes to its ID, and a
    /// record's ciphertext to its checksum.
    pub fn verify<H, B>(&self, function_id: Field, tcm: &Field, index: usize, hash_psd8: &H, hash_bhp1024: &B) -> (r: bool) where
        H: Fn(&[Field]) -> Result<Field, Error>,
        B: Fn(&[bool]) -> Result<Field, Error>,
        requires
            forall|p: &[Field]| hash_psd8.requires((p,)),
            forall|p: &[bool]| hash_bhp1024.requires((p,)),
        ensures
            output_verify_outcome(*self, function_id, *tcm, index, *hash_psd8, *hash_bhp1024, r),
    {
        match self {
            Output::Constant(h, Some(v)) | Output::Public(h, Some(v)) | Output::Future(h, Some(v)) => {
                let p = build_value_preimage(function_id, v, *tcm, index);
                let c = hash_psd8(p.as_slice());
                check_hash(c, h)
            },
            Output::Private(h, Some(v)) => {
                let c = hash_psd8(v.as_slice());
                check_hash(c, h)
            },
            Output::Record(_, s, Some(rc), e) | Output::RecordWithDynamicID(_, s, Some(rc), e, _) => {
                if rc.version == 0 {
                    if e.is_some() {
                        return false;
                    }
                } else if rc.version == 1 {
                    match e {
                        Some(x) => {
                            if x.is_equal(&Field::zero()) {
                                return false;
                            }
                        },
                        None => {
                            return false;
                        },
                    }
                } else {
                    return false;
                }
                let p = checksum_preimage(rc);
                let c = hash_bhp1024(p.as_slice());
                check_hash(c, s)
            },
            Output::Constant(_, None)
            | Output::Public(_, None)
            | Output::Private(_, None)
            | Output::Record(_, _, None, _)
            | Output::RecordWithDynamicID(_, _, None, _, _)
            | Output::Future(_, None) => false,
            _ => true,
        }
    }
}

/// The checksum preimage of a record ciphertext.
fn checksum_preimage(rc: &RecordCiphertext) -> (r: Vec<bool>)
    ensures
        r@ == record_checksum_preimage(rc@),
{
    let n = rc.bits.len();
    let m = if rc.version == 0 {
        n.saturating_sub(8)
    } else {
        n
    };
    let mut p: Vec<bool> = Vec::new();
    let mut i: usize = 0;
    while i < m
        invariant
            i <= m,
            m <= n,
            n == rc.bits@.len(),
            p@ == rc.bits@.subrange(0, i as int),
        decreases m - i,
    {
        p.push(rc.bits[i]);
        i = i + 1;
        assert(p@ =~= rc.bits@.subrange(0, i as int));
    }
    assert(p@ =~= record_checksum_preimage(rc@));
    p
}

/// A copy of an optional record ciphertext.
fn clone_record(r: &Option<RecordCiphertext>) -> (c: Option<RecordCiphertext>)
    ensures
        record_view(c) == record_view(*r),
{
    match r {
        Some(rc) => {
            let mut bits: Vec<bool> = Vec::new();
            let n = rc.bits.len();
            let mut i: usize = 0;
            while i < n
                invariant
                    i <= n,
                    n == rc.bits@.len(),
                    bits@ == rc.bits@.subrange(0, i as int),
                decreases n - i,
            {
                bits.push(rc.bits[i]);
                i = i + 1;
                assert(bits@ =~= rc.bits@.subrange(0, i as int));
            }
            assert(bits@ =~= rc.bits@);
            Some(RecordCiphertext { bits, version: rc.version, nonce: rc.nonce })
        },
        None => None,
    }
}

/// Viewing from the caller twice is viewing once.
pub proof fn lemma_caller_view_idempotent(i: InputView, o: OutputView)
    ensures
        caller_input(caller_input(i)) == caller_input(i),
        caller_output(caller_output(o)) == caller_output(o),
{
}

/// A dynamic-ID input or output makes a dynamic leaf of a record or an external record;
/// every other one a static leaf with its own variant; the leaf always carries the ID.
pub proof fn lemma_leaves_are_valid(i: InputView, o: OutputView, index: u8)
    ensures
        crate::transition_leaf::spec_leaf_check(input_leaf(i, index).version, input_leaf(i, index).variant) is Ok,
        crate::transition_leaf::spec_leaf_check(output_leaf(o, index).version, output_leaf(o, index).variant) is Ok,
        input_leaf(i, index).id == input_id(i)@,
        output_leaf(o, index).id == output_id(o)@,
{
}

} // verus!
