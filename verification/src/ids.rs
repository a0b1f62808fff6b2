//! The IDs of a request's inputs and of a response's outputs: what each is computed
//! from, and how the IDs of a call are turned into those its caller sees when the call
//! is dynamic.
//!
//! A value is held by its kind and the field elements that encode it; a group element by
//! its x-coordinate. The network's hash function is the caller's.
use vstd::prelude::*;

use crate::error::Error;
use crate::field::Field;
use crate::program_names::Identifier;
use crate::register_type::ValueType;

verus! {

/// A value, by its kind and the field elements that encode it.
pub enum ValueFields {
    Plaintext(Vec<Field>),
    Record(Vec<Field>),
    Future(Vec<Field>),
    DynamicRecord(Vec<Field>),
    DynamicFuture(Vec<Field>),
}

/// The field elements that encode a value.
pub open spec fn fields_of(v: ValueFields) -> Seq<Field> {
    match v {
        ValueFields::Plaintext(f) => f@,
        ValueFields::Record(f) => f@,
        ValueFields::Future(f) => f@,
        ValueFields::DynamicRecord(f) => f@,
        ValueFields::DynamicFuture(f) => f@,
    }
}

/// The preimage of an ID: the function ID, the value's field elements, a key (the
/// transition commitment or view key) and the index.
pub open spec fn id_preimage(function_id: Field, fields: Seq<Field>, key: Field, index: u16) -> Seq<Field> {
    seq![function_id] + fields + seq![key, Field::spec_from_u16(index)]
}

/// The preimage of an ID is, in this order: the function ID, the value's field elements,
/// the key (the transition commitment or view key), and the index as a field element.
pub proof fn lemma_id_preimage_layout(function_id: Field, fields: Seq<Field>, key: Field, index: u16)
    ensures
        id_preimage(function_id, fields, key, index).len() == fields.len() + 3,
        id_preimage(function_id, fields, key, index)[0] == function_id,
        id_preimage(function_id, fields, key, index).subrange(1, fields.len() as int + 1) == fields,
        id_preimage(function_id, fields, key, index)[fields.len() as int + 1] == key,
        id_preimage(function_id, fields, key, index)[fields.len() as int + 2] == Field::spec_from_u16(index),
{
    let p = id_preimage(function_id, fields, key, index);
    assert(p.subrange(1, fields.len() as int + 1) =~= fields);
}

/// Whether `c` is an outcome of hashing `preimage` with `hash`.
pub open spec fn hashes_to<H>(hash: H, preimage: Seq<Field>, c: Result<Field, Error>) -> bool where
    H: Fn(&[Field]) -> Result<Field, Error>,
 {
    exists|p: &[Field]| #![trigger hash.ensures((p,), c)] p@ == preimage && hash.ensures((p,), c)
}

/// The ID of an input.
#[derive(Clone, Copy, Debug, PartialEq, Eq, Structural)]
pub enum InputID {
    /// The hash of the constant input.
    Constant(Field),
    /// The hash of the public input.
    Public(Field),
    /// The ciphertext hash of the private input.
    Private(Field),
    /// The commitment, gamma (by its x-coordinate), record view key, serial number and
    /// tag of the record input.
    Record(Field, Field, Field, Field, Field),
    /// The hash of the external record input.
    ExternalRecord(Field),
    /// The hash of the dynamic record input.
    DynamicRecord(Field),
}

/// The ID of an output.
#[derive(Clone, Copy, Debug, PartialEq, Eq, Structural)]
pub enum OutputID {
    /// The hash of the constant output.
    Constant(Field),
    /// The hash of the public output.
    Public(Field),
    /// The ciphertext hash of the private output.
    Private(Field),
    /// The commitment, checksum and sender ciphertext of the record output.
    Record(Field, Field, Field),
    /// The hash of the external record output.
    ExternalRecord(Field),
    /// The hash of the future output.
    Future(Field),
    /// The hash of the dynamic record output.
    DynamicRecord(Field),
    /// The hash of the dynamic future output.
    DynamicFuture(Field),
}

/// The primary ID of an input.
pub open spec fn input_id_of(i: InputID) -> Field {
    match i {
        InputID::Constant(h) | InputID::Public(h) | InputID::Private(h) | InputID::ExternalRecord(h)
        | InputID::DynamicRecord(h) => h,
        InputID::Record(c, _, _, _, _) => c,
    }
}

/// The primary ID of an output.
pub open spec fn output_id_of(o: OutputID) -> Field {
    match o {
        OutputID::Constant(h) | OutputID::Public(h) | OutputID::Private(h) | OutputID::ExternalRecord(h)
        | OutputID::Future(h) | OutputID::DynamicRecord(h) | OutputID::DynamicFuture(h) => h,
        OutputID::Record(c, _, _) => c,
    }
}

/// What the ID of a dynamic record input may be: the hash of its preimage; an input
/// that is not a dynamic record is refused.
pub open spec fn dynamic_record_input_outcome<H>(
    hash: H,
    function_id: Field,
    input: ValueFields,
    tvk: Field,
    index: u16,
    r: Result<InputID, Error>,
) -> bool where H: Fn(&[Field]) -> Result<Field, Error> {
    match input {
        ValueFields::DynamicRecord(f) => exists|c: Result<Field, Error>|
            hashes_to(hash, id_preimage(function_id, f@, tvk, index), c) && r == match c {
                Ok(h) => Ok(InputID::DynamicRecord(h)),
                Err(e) => Err(e),
            },
        _ => r == Err::<InputID, Error>(Error::InvalidVariant),
    }
}

/// What the ID of a dynamic record output may be: the hash of its preimage; an output
/// that is not a dynamic record is refused.
pub open spec fn dynamic_record_output_outcome<H>(
    hash: H,
    function_id: Field,
    output: ValueFields,
    tvk: Field,
    index: u16,
    r: Result<OutputID, Error>,
) -> bool where H: Fn(&[Field]) -> Result<Field, Error> {
    match output {
        ValueFields::DynamicRecord(f) => exists|c: Result<Field, Error>|
            hashes_to(hash, id_preimage(function_id, f@, tvk, index), c) && r == match c {
                Ok(h) => Ok(OutputID::DynamicRecord(h)),
                Err(e) => Err(e),
            },
        _ => r == Err::<OutputID, Error>(Error::InvalidVariant),
    }
}

/// What the ID of a dynamic future output may be: the hash of its preimage; an output
/// that is not a dynamic future is refused.
pub open spec fn dynamic_future_output_outcome<H>(
    hash: H,
    function_id: Field,
    output: ValueFields,
    tcm: Field,
    index: u16,
    r: Result<OutputID, Error>,
) -> bool where H: Fn(&[Field]) -> Result<Field, Error> {
    match output {
        ValueFields::DynamicFuture(f) => exists|c: Result<Field, Error>|
            hashes_to(hash, id_preimage(function_id, f@, tcm, index), c) && r == match c {
                Ok(h) => Ok(OutputID::DynamicFuture(h)),
                Err(e) => Err(e),
            },
        _ => r == Err::<OutputID, Error>(Error::InvalidVariant),
    }
}

/// The preimage of a private value's view key: the function ID, the transition view key
/// and the index.
pub open spec fn view_key_preimage(function_id: Field, tvk: Field, index: u16) -> Seq<Field> {
    seq![function_id, tvk, Field::spec_from_u16(index)]
}

/// The preimage of a private value's view key is, in this order: the function ID, the
/// transition view key, and the index as a field element.
pub proof fn lemma_view_key_preimage_layout(function_id: Field, tvk: Field, index: u16)
    ensures
        view_key_preimage(function_id, tvk, index).len() == 3,
        view_key_preimage(function_id, tvk, index)[0] == function_id,
        view_key_preimage(function_id, tvk, index)[1] == tvk,
        view_key_preimage(function_id, tvk, index)[2] == Field::spec_from_u16(index),
{
}

/// What the ID of a private value may be, given the outcomes of the hash and encryption
/// functions: the value's view key is the hash (by `hash_psd4`) of the function ID, the
/// transition view key and the index; the value is encrypted under it; the ID is the hash
/// (by `hash_psd8`) of the ciphertext. A failure of any step is the outcome.
pub open spec fn private_id_outcome<H4, E, H8>(
    hash_psd4: H4,
    encrypt: E,
    hash_psd8: H8,
    function_id: Field,
    fields: Seq<Field>,
    tvk: Field,
    index: u16,
    r: Result<Field, Error>,
) -> bool where
    H4: Fn(&[Field]) -> Result<Field, Error>,
    E: Fn(&[Field], Field) -> Result<Vec<Field>, Error>,
    H8: Fn(&[Field]) -> Result<Field, Error>,
 {
    exists|k: Result<Field, Error>|
        hashes_to(hash_psd4, view_key_preimage(function_id, tvk, index), k) && match k {
            Err(e) => r == Err::<Field, Error>(e),
            Ok(key) => exists|p: &[Field], c: Result<Vec<Field>, Error>|
                #![trigger encrypt.ensures((p, key), c)]
                p@ == fields && encrypt.ensures((p, key), c) && match c {
                    Err(e) => r == Err::<Field, Error>(e),
                    Ok(ct) => hashes_to(hash_psd8, ct@, r),
                },
        }
}

/// Computes the ID of a private value.
fn private_id<H4, E, H8>(
    function_id: Field,
    fields: &Vec<Field>,
    tvk: Field,
    index: u16,
    hash_psd4: &H4,
    encrypt: &E,
    hash_psd8: &H8,
) -> (r: Result<Field, Error>) where
    H4: Fn(&[Field]) -> Result<Field, Error>,
    E: Fn(&[Field], Field) -> Result<Vec<Field>, Error>,
    H8: Fn(&[Field]) -> Result<Field, Error>,
    requires
        forall|p: &[Field]| hash_psd4.requires((p,)),
        forall|p: &[Field], k: Field| encrypt.requires((p, k)),
        forall|p: &[Field]| hash_psd8.requires((p,)),
    ensures
        private_id_outcome(*hash_psd4, *encrypt, *hash_psd8, function_id, fields@, tvk, index, r),
{
    let key_preimage = vec![function_id, tvk, Field::from_u16(index)];
    let kp = key_preimage.as_slice();
    let k = hash_psd4(kp);
    assert(kp@ == view_key_preimage(function_id, tvk, index));
    assert(hash_psd4.ensures((kp,), k));
    assert(hashes_to(*hash_psd4, view_key_preimage(function_id, tvk, index), k));
    match k {
        Err(e) => Err(e),
        Ok(key) => {
            let fp = fields.as_slice();
            let c = encrypt(fp, key);
            assert(encrypt.ensures((fp, key), c));
            match c {
                Err(e) => Err(e),
                Ok(ct) => {
                    let cp = ct.as_slice();
                    let h = hash_psd8(cp);
                    assert(hash_psd8.ensures((cp,), h));
                    h
                },
            }
        },
    }
}

/// What the ID of an output of kind `kind` may be when it is the hash of its preimage
/// under `key`: the hash wrapped as that kind; an output of another kind of value is
/// refused.
pub open spec fn hashed_output_outcome<H>(
    hash: H,
    kind: OutputID,
    function_id: Field,
    output: ValueFields,
    key: Field,
    index: u16,
    r: Result<OutputID, Error>,
) -> bool where H: Fn(&[Field]) -> Result<Field, Error> {
    if value_matches_output(output, kind) {
        exists|c: Result<Field, Error>|
            hashes_to(hash, id_preimage(function_id, fields_of(output), key, index), c) && r == match c {
                Ok(h) => Ok(with_id(kind, h)),
                Err(e) => Err(e),
            }
    } else {
        r == Err::<OutputID, Error>(Error::InvalidVariant)
    }
}

/// Whether a value is of the kind that an output ID of `kind` is computed from.
pub open spec fn value_matches_output(v: ValueFields, kind: OutputID) -> bool {
    match kind {
        OutputID::Constant(..) | OutputID::Public(..) | OutputID::Private(..) => v is Plaintext,
        OutputID::Record(..) | OutputID::ExternalRecord(..) => v is Record,
        OutputID::Future(..) => v is Future,
        OutputID::DynamicRecord(..) => v is DynamicRecord,
        OutputID::DynamicFuture(..) => v is DynamicFuture,
    }
}

/// The output ID of the same kind as `kind` with the hash `h`.
pub open spec fn with_id(kind: OutputID, h: Field) -> OutputID {
    match kind {
        OutputID::Constant(..) => OutputID::Constant(h),
        OutputID::Public(..) => OutputID::Public(h),
        OutputID::Private(..) => OutputID::Private(h),
        OutputID::Record(_, s, e) => OutputID::Record(h, s, e),
        OutputID::ExternalRecord(..) => OutputID::ExternalRecord(h),
        OutputID::Future(..) => OutputID::Future(h),
        OutputID::DynamicRecord(..) => OutputID::DynamicRecord(h),
        OutputID::DynamicFuture(..) => OutputID::DynamicFuture(h),
    }
}

/// What the ID of a private output may be: the hash of its ciphertext; an output that
/// is not a plaintext is refused.
pub open spec fn private_output_outcome<H4, E, H8>(
    hash_psd4: H4,
    encrypt: E,
    hash_psd8: H8,
    function_id: Field,
    output: ValueFields,
    tvk: Field,
    index: u16,
    r: Result<OutputID, Error>,
) -> bool where
    H4: Fn(&[Field]) -> Result<Field, Error>,
    E: Fn(&[Field], Field) -> Result<Vec<Field>, Error>,
    H8: Fn(&[Field]) -> Result<Field, Error>,
 {
    match output {
        ValueFields::Plaintext(f) => exists|c: Result<Field, Error>|
            private_id_outcome(hash_psd4, encrypt, hash_psd8, function_id, f@, tvk, index, c) && r == match c {
                Ok(h) => Ok(OutputID::Private(h)),
                Err(e) => Err(e),
            },
        _ => r == Err::<OutputID, Error>(Error::InvalidVariant),
    }
}

/// What the ID of a record output may be: a record value gets the commitment, checksum
/// and sender ciphertext that `record_id` computes from the record's name, its field
/// elements and its register, or that computation's error; a value that is not a record
/// is refused.
pub open spec fn record_output_outcome<R>(
    record_id: R,
    name: Identifier,
    output: ValueFields,
    locator: u64,
    r: Result<OutputID, Error>,
) -> bool where R: Fn(&Identifier, &Vec<Field>, u64) -> Result<(Field, Field, Field), Error> {
    match output {
        ValueFields::Record(f) => exists|c: Result<(Field, Field, Field), Error>|
            #[trigger] record_id.ensures((&name, &f, locator), c) && r == match c {
                Ok((cm, cs, sc)) => Ok(OutputID::Record(cm, cs, sc)),
                Err(e) => Err(e),
            },
        _ => r == Err::<OutputID, Error>(Error::InvalidVariant),
    }
}

/// What the ID of a private input may be: the hash of its ciphertext; an input that is
/// not a plaintext is refused.
pub open spec fn private_input_outcome<H4, E, H8>(
    hash_psd4: H4,
    encrypt: E,
    hash_psd8: H8,
    function_id: Field,
    input: ValueFields,
    tvk: Field,
    index: u16,
    r: Result<InputID, Error>,
) -> bool where
    H4: Fn(&[Field]) -> Result<Field, Error>,
    E: Fn(&[Field], Field) -> Result<Vec<Field>, Error>,
    H8: Fn(&[Field]) -> Result<Field, Error>,
 {
    match input {
        ValueFields::Plaintext(f) => exists|c: Result<Field, Error>|
            private_id_outcome(hash_psd4, encrypt, hash_psd8, function_id, f@, tvk, index, c) && r == match c {
                Ok(h) => Ok(InputID::Private(h)),
                Err(e) => Err(e),
            },
        _ => r == Err::<InputID, Error>(Error::InvalidVariant),
    }
}

/// What the ID of an input of kind `kind` may be when it is the hash of its preimage under
/// `key`: the hash wrapped as that kind; an input of another kind of value is refused.
pub open spec fn hashed_input_outcome<H>(
    hash: H,
    kind: InputID,
    function_id: Field,
    input: ValueFields,
    key: Field,
    index: u16,
    r: Result<InputID, Error>,
) -> bool where H: Fn(&[Field]) -> Result<Field, Error> {
    if value_matches_input(input, kind) {
        exists|c: Result<Field, Error>|
            hashes_to(hash, id_preimage(function_id, fields_of(input), key, index), c) && r == match c {
                Ok(h) => Ok(with_input_id(kind, h)),
                Err(e) => Err(e),
            }
    } else {
        r == Err::<InputID, Error>(Error::InvalidVariant)
    }
}

/// Whether a value is of the kind that an input ID of `kind` is computed from.
pub open spec fn value_matches_input(v: ValueFields, kind: InputID) -> bool {
    match kind {
        InputID::Constant(..) | InputID::Public(..) | InputID::Private(..) => v is Plaintext,
        InputID::Record(..) | InputID::ExternalRecord(..) => v is Record,
        InputID::DynamicRecord(..) => v is DynamicRecord,
    }
}

/// The input ID of the same kind as `kind` with the hash `h`.
pub open spec fn with_input_id(kind: InputID, h: Field) -> InputID {
    match kind {
        InputID::Constant(..) => InputID::Constant(h),
        InputID::Public(..) => InputID::Public(h),
        InputID::Private(..) => InputID::Private(h),
        InputID::Record(_, g, k, s, t) => InputID::Record(h, g, k, s, t),
        InputID::ExternalRecord(..) => InputID::ExternalRecord(h),
        InputID::DynamicRecord(..) => InputID::DynamicRecord(h),
    }
}

/// Builds the preimage of an ID.
fn build_id_preimage(function_id: Field, fields: &Vec<Field>, key: Field, index: u16) -> (r: Vec<Field>)
    ensures
        r@ == id_preimage(function_id, fields@, key, index),
        r@ == seq![function_id] + fields@ + seq![key, Field::spec_from_u16(index)],
{
    let mut p: Vec<Field> = Vec::new();
    p.push(function_id);
    let n = fields.len();
    let mut i: usize = 0;
    while i < n
        invariant
            i <= n,
            n == fields@.len(),
            p@ == seq![function_id] + fields@.subrange(0, i as int),
        decreases n - i,
    {
        p.push(fields[i]);
        i = i + 1;
        assert(p@ =~= seq![function_id] + fields@.subrange(0, i as int));
    }
    p.push(key);
    p.push(Field::from_u16(index));
    assert(p@ =~= id_preimage(function_id, fields@, key, index));
    p
}

/// Hashes the preimage of an ID.
fn hash_id<H>(function_id: Field, fields: &Vec<Field>, key: Field, index: u16, hash_psd8: &H) -> (r: Result<
    Field,
    Error,
>) where H: Fn(&[Field]) -> Result<Field, Error>
    requires
        forall|p: &[Field]| hash_psd8.requires((p,)),
    ensures
        hashes_to(*hash_psd8, id_preimage(function_id, fields@, key, index), r),
{
    let p = build_id_preimage(function_id, fields, key, index);
    let s = p.as_slice();
    let r = hash_psd8(s);
    assert(hash_psd8.ensures((s,), r));
    r
}

impl InputID {
    /// The primary ID: the hash, or the commitment of a record.
    pub fn id(&self) -> (r: Field)
        ensures
            r == input_id_of(*self),
    {
        match self {
            InputID::Constant(h) | InputID::Public(h) | InputID::Private(h) | InputID::ExternalRecord(h)
            | InputID::DynamicRecord(h) => *h,
            InputID::Record(c, ..) => *c,
        }
    }

    /// The ID of a constant input: the hash of the function ID, the value, the transition
    /// commitment and the index. The value must be a plaintext.
    pub fn constant<H>(function_id: Field, input: &ValueFields, tcm: Field, index: u16, hash_psd8: &H) -> (r: Result<
        InputID,
        Error,
    >) where H: Fn(&[Field]) -> Result<Field, Error>
        requires
            forall|p: &[Field]| hash_psd8.requires((p,)),
        ensures
            hashed_input_outcome(*hash_psd8, InputID::Constant(function_id), function_id, *input, tcm, index, r),
    {
        match input {
            ValueFields::Plaintext(f) => {
                let c = hash_id(function_id, f, tcm, index, hash_psd8);
                assert(fields_of(*input) == f@);
                match c {
                    Ok(h) => {
                        assert(with_input_id(InputID::Constant(function_id), h) == InputID::Constant(h));
                        Ok(InputID::Constant(h))
                    },
                    Err(e) => Err(e),
                }
            },
            _ => Err(Error::InvalidVariant),
        }
    }

    /// The ID of a public input: computed as for a constant input.
    pub fn public<H>(function_id: Field, input: &ValueFields, tcm: Field, index: u16, hash_psd8: &H) -> (r: Result<
        InputID,
        Error,
    >) where H: Fn(&[Field]) -> Result<Field, Error>
        requires
            forall|p: &[Field]| hash_psd8.requires((p,)),
        ensures
            hashed_input_outcome(*hash_psd8, InputID::Public(function_id), function_id, *input, tcm, index, r),
    {
        match input {
            ValueFields::Plaintext(f) => {
                let c = hash_id(function_id, f, tcm, index, hash_psd8);
                assert(fields_of(*input) == f@);
                match c {
                    Ok(h) => {
                        assert(with_input_id(InputID::Public(function_id), h) == InputID::Public(h));
                        Ok(InputID::Public(h))
                    },
                    Err(e) => Err(e),
                }
            },
            _ => Err(Error::InvalidVariant),
        }
    }

    /// The ID of a private input: the hash of the input encrypted under its view key. The
    /// value must be a plaintext.
    pub fn private<H4, E, H8>(
        function_id: Field,
        input: &ValueFields,
        tvk: Field,
        index: u16,
        hash_psd4: &H4,
        encrypt: &E,
        hash_psd8: &H8,
    ) -> (r: Result<InputID, Error>) where
        H4: Fn(&[Field]) -> Result<Field, Error>,
        E: Fn(&[Field], Field) -> Result<Vec<Field>, Error>,
        H8: Fn(&[Field]) -> Result<Field, Error>,
        requires
            forall|p: &[Field]| hash_psd4.requires((p,)),
            forall|p: &[Field], k: Field| encrypt.requires((p, k)),
            forall|p: &[Field]| hash_psd8.requires((p,)),
        ensures
            private_input_outcome(*hash_psd4, *encrypt, *hash_psd8, function_id, *input, tvk, index, r),
    {
        match input {
            ValueFields::Plaintext(f) => match private_id(function_id, f, tvk, index, hash_psd4, encrypt, hash_psd8) {
                Ok(h) => Ok(InputID::Private(h)),
                Err(e) => Err(e),
            },
            _ => Err(Error::InvalidVariant),
        }
    }

    /// The ID of an external record input: the hash of the function ID, the record, the
    /// transition view key and the index. The value must be a record.
    pub fn external_record<H>(function_id: Field, input: &ValueFields, tvk: Field, index: u16, hash_psd8: &H) -> (r:
        Result<InputID, Error>) where H: Fn(&[Field]) -> Result<Field, Error>
        requires
            forall|p: &[Field]| hash_psd8.requires((p,)),
        ensures
            hashed_input_outcome(*hash_psd8, InputID::ExternalRecord(function_id), function_id, *input, tvk, index, r),
    {
        match input {
            ValueFields::Record(f) => {
                let c = hash_id(function_id, f, tvk, index, hash_psd8);
                assert(fields_of(*input) == f@);
                match c {
                    Ok(h) => {
                        assert(with_input_id(InputID::ExternalRecord(function_id), h) == InputID::ExternalRecord(h));
                        Ok(InputID::ExternalRecord(h))
                    },
                    Err(e) => Err(e),
                }
            },
            _ => Err(Error::InvalidVariant),
        }
    }

    /// The ID of a dynamic record input: computed as for an external record, from a
    /// dynamic record.
    pub fn dynamic_record<H>(function_id: Field, input: &ValueFields, tvk: Field, index: u16, hash_psd8: &H) -> (r:
        Result<InputID, Error>) where H: Fn(&[Field]) -> Result<Field, Error>
        requires
            forall|p: &[Field]| hash_psd8.requires((p,)),
        ensures
            dynamic_record_input_outcome(*hash_psd8, function_id, *input, tvk, index, r),
    {
        match input {
            ValueFields::DynamicRecord(f) => match hash_id(function_id, f, tvk, index, hash_psd8) {
                Ok(h) => Ok(InputID::DynamicRecord(h)),
                Err(e) => Err(e),
            },
            _ => Err(Error::InvalidVariant),
        }
    }
}

impl OutputID {
    /// The primary ID: the hash, or the commitment of a record.
    pub fn id(&self) -> (r: Field)
        ensures
            r == output_id_of(*self),
    {
        match self {
            OutputID::Constant(h) | OutputID::Public(h) | OutputID::Private(h) | OutputID::ExternalRecord(h)
            | OutputID::Future(h) | OutputID::DynamicRecord(h) | OutputID::DynamicFuture(h) => *h,
            OutputID::Record(c, ..) => *c,
        }
    }

    /// The ID of a constant output: the hash of the function ID, the value, the
    /// transition commitment and the index. The value must be a plaintext.
    pub fn constant<H>(function_id: Field, output: &ValueFields, tcm: Field, index: u16, hash_psd8: &H) -> (r: Result<
        OutputID,
        Error,
    >) where H: Fn(&[Field]) -> Result<Field, Error>
        requires
            forall|p: &[Field]| hash_psd8.requires((p,)),
        ensures
            hashed_output_outcome(*hash_psd8, OutputID::Constant(function_id), function_id, *output, tcm, index, r),
    {
        match output {
            ValueFields::Plaintext(f) => {
                let c = hash_id(function_id, f, tcm, index, hash_psd8);
                assert(fields_of(*output) == f@);
                match c {
                    Ok(h) => {
                        assert(with_id(OutputID::Constant(function_id), h) == OutputID::Constant(h));
                        Ok(OutputID::Constant(h))
                    },
                    Err(e) => Err(e),
                }
            },
            _ => Err(Error::InvalidVariant),
        }
    }

    /// The ID of a public output: computed as for a constant output.
    pub fn public<H>(function_id: Field, output: &ValueFields, tcm: Field, index: u16, hash_psd8: &H) -> (r: Result<
        OutputID,
        Error,
    >) where H: Fn(&[Field]) -> Result<Field, Error>
        requires
            forall|p: &[Field]| hash_psd8.requires((p,)),
        ensures
            hashed_output_outcome(*hash_psd8, OutputID::Public(function_id), function_id, *output, tcm, index, r),
    {
        match output {
            ValueFields::Plaintext(f) => {
                let c = hash_id(function_id, f, tcm, index, hash_psd8);
                assert(fields_of(*output) == f@);
                match c {
                    Ok(h) => {
                        assert(with_id(OutputID::Public(function_id), h) == OutputID::Public(h));
                        Ok(OutputID::Public(h))
                    },
                    Err(e) => Err(e),
                }
            },
            _ => Err(Error::InvalidVariant),
        }
    }

    /// The ID of a private output: the hash of the output encrypted under its view key.
    /// The value must be a plaintext.
    pub fn private<H4, E, H8>(
        function_id: Field,
        output: &ValueFields,
        tvk: Field,
        index: u16,
        hash_psd4: &H4,
        encrypt: &E,
        hash_psd8: &H8,
    ) -> (r: Result<OutputID, Error>) where
        H4: Fn(&[Field]) -> Result<Field, Error>,
        E: Fn(&[Field], Field) -> Result<Vec<Field>, Error>,
        H8: Fn(&[Field]) -> Result<Field, Error>,
        requires
            forall|p: &[Field]| hash_psd4.requires((p,)),
            forall|p: &[Field], k: Field| encrypt.requires((p, k)),
            forall|p: &[Field]| hash_psd8.requires((p,)),
        ensures
            private_output_outcome(*hash_psd4, *encrypt, *hash_psd8, function_id, *output, tvk, index, r),
    {
        match output {
            ValueFields::Plaintext(f) => match private_id(function_id, f, tvk, index, hash_psd4, encrypt, hash_psd8) {
                Ok(h) => Ok(OutputID::Private(h)),
                Err(e) => Err(e),
            },
            _ => Err(Error::InvalidVariant),
        }
    }

    /// The ID of a record output: the commitment, checksum and sender ciphertext that
    /// `record_id` computes from the record's name, the record and its register (the
    /// record's encryption and commitment). The value must be a record.
    pub fn record<R>(name: &Identifier, output: &ValueFields, locator: u64, record_id: &R) -> (r: Result<
        OutputID,
        Error,
    >) where R: Fn(&Identifier, &Vec<Field>, u64) -> Result<(Field, Field, Field), Error>
        requires
            forall|n: &Identifier, v: &Vec<Field>, l: u64| record_id.requires((n, v, l)),
        ensures
            record_output_outcome(*record_id, *name, *output, locator, r),
    {
        match output {
            ValueFields::Record(f) => {
                let c = record_id(name, f, locator);
                match c {
                    Ok((cm, cs, sc)) => Ok(OutputID::Record(cm, cs, sc)),
                    Err(e) => Err(e),
                }
            },
            _ => Err(Error::InvalidVariant),
        }
    }

    /// The ID of an external record output: the hash of the function ID, the record, the
    /// transition view key and the index. The value must be a record.
    pub fn external_record<H>(function_id: Field, output: &ValueFields, tvk: Field, index: u16, hash_psd8: &H) -> (r:
        Result<OutputID, Error>) where H: Fn(&[Field]) -> Result<Field, Error>
        requires
            forall|p: &[Field]| hash_psd8.requires((p,)),
        ensures
            hashed_output_outcome(*hash_psd8, OutputID::ExternalRecord(function_id), function_id, *output, tvk, index, r),
    {
        match output {
            ValueFields::Record(f) => {
                let c = hash_id(function_id, f, tvk, index, hash_psd8);
                assert(fields_of(*output) == f@);
                match c {
                    Ok(h) => {
                        assert(with_id(OutputID::ExternalRecord(function_id), h) == OutputID::ExternalRecord(h));
                        Ok(OutputID::ExternalRecord(h))
                    },
                    Err(e) => Err(e),
                }
            },
            _ => Err(Error::InvalidVariant),
        }
    }

    /// The ID of a future output: the hash of the function ID, the future, the
    /// transition commitment and the index. The value must be a future.
    pub fn future<H>(function_id: Field, output: &ValueFields, tcm: Field, index: u16, hash_psd8: &H) -> (r: Result<
        OutputID,
        Error,
    >) where H: Fn(&[Field]) -> Result<Field, Error>
        requires
            forall|p: &[Field]| hash_psd8.requires((p,)),
        ensures
            hashed_output_outcome(*hash_psd8, OutputID::Future(function_id), function_id, *output, tcm, index, r),
    {
        match output {
            ValueFields::Future(f) => {
                let c = hash_id(function_id, f, tcm, index, hash_psd8);
                assert(fields_of(*output) == f@);
                match c {
                    Ok(h) => {
                        assert(with_id(OutputID::Future(function_id), h) == OutputID::Future(h));
                        Ok(OutputID::Future(h))
                    },
                    Err(e) => Err(e),
                }
            },
            _ => Err(Error::InvalidVariant),
        }
    }

    /// The ID of a dynamic record output: the hash of the function ID, the dynamic
    /// record, the transition view key and the index.
    pub fn dynamic_record<H>(function_id: Field, output: &ValueFields, tvk: Field, index: u16, hash_psd8: &H) -> (r:
        Result<OutputID, Error>) where H: Fn(&[Field]) -> Result<Field, Error>
        requires
            forall|p: &[Field]| hash_psd8.requires((p,)),
        ensures
            dynamic_record_output_outcome(*hash_psd8, function_id, *output, tvk, index, r),
    {
        match output {
            ValueFields::DynamicRecord(f) => match hash_id(function_id, f, tvk, index, hash_psd8) {
                Ok(h) => Ok(OutputID::DynamicRecord(h)),
                Err(e) => Err(e),
            },
            _ => Err(Error::InvalidVariant),
        }
    }

    /// The ID of a dynamic future output: the hash of the function ID, the dynamic
    /// future, the transition commitment and the index.
    pub fn dynamic_future<H>(function_id: Field, output: &ValueFields, tcm: Field, index: u16, hash_psd8: &H) -> (r:
        Result<OutputID, Error>) where H: Fn(&[Field]) -> Result<Field, Error>
        requires
            forall|p: &[Field]| hash_psd8.requires((p,)),
        ensures
            dynamic_future_output_outcome(*hash_psd8, function_id, *output, tcm, index, r),
    {
        match output {
            ValueFields::DynamicFuture(f) => match hash_id(function_id, f, tcm, index, hash_psd8) {
                Ok(h) => Ok(OutputID::DynamicFuture(h)),
                Err(e) => Err(e),
            },
            _ => Err(Error::InvalidVariant),
        }
    }
}

/// What the caller of a dynamic call sees of output `o`, given the caller's form of the
/// output at `index`: a record output becomes a dynamic record output, a future output
/// a dynamic future output; any other output stays.
pub open spec fn dynamic_output_id_outcome<H>(
    hash: H,
    o: OutputID,
    caller_output: ValueFields,
    function_id: Field,
    tvk: Field,
    tcm: Field,
    index: u16,
    r: Result<OutputID, Error>,
) -> bool where H: Fn(&[Field]) -> Result<Field, Error> {
    match o {
        OutputID::Record(..) | OutputID::ExternalRecord(..) => dynamic_record_output_outcome(
            hash,
            function_id,
            caller_output,
            tvk,
            index,
            r,
        ),
        OutputID::Future(..) => dynamic_future_output_outcome(hash, function_id, caller_output, tcm, index, r),
        _ => r == Ok::<OutputID, Error>(o),
    }
}

/// What the caller of a dynamic call sees of input `i` with value `input`, given the
/// caller's form of the input at `index`: a record input (of this program or another)
/// becomes a dynamic record input; a plaintext or dynamic record input of the matching
/// kind stays; a mismatch of ID and value is refused.
pub open spec fn dynamic_input_id_outcome<H>(
    hash: H,
    i: InputID,
    input: ValueFields,
    caller_input: ValueFields,
    function_id: Field,
    tvk: Field,
    index: int,
    r: Result<InputID, Error>,
) -> bool where H: Fn(&[Field]) -> Result<Field, Error> {
    match (i, input) {
        (InputID::Constant(..), ValueFields::Plaintext(..))
        | (InputID::Public(..), ValueFields::Plaintext(..))
        | (InputID::Private(..), ValueFields::Plaintext(..))
        | (InputID::DynamicRecord(..), ValueFields::DynamicRecord(..)) => r == Ok::<InputID, Error>(i),
        (InputID::Record(..), ValueFields::Record(..)) | (InputID::ExternalRecord(..), ValueFields::Record(..)) => if index
            > u16::MAX {
            r == Err::<InputID, Error>(Error::Overflow)
        } else {
            dynamic_record_input_outcome(hash, function_id, caller_input, tvk, index as u16, r)
        },
        _ => r == Err::<InputID, Error>(Error::InvalidVariant),
    }
}

/// Whether `r` is what collecting `n` outcomes gives, outcome `k` being one that `step(k, _)`
/// admits: all of them, in order, when each is `Ok`; else the first error.
pub open spec fn collects<T>(n: int, step: spec_fn(int, Result<T, Error>) -> bool, r: Result<Seq<T>, Error>) -> bool {
    match r {
        Ok(v) => v.len() == n && forall|k: int| 0 <= k < n ==> #[trigger] step(k, Ok(v[k])),
        Err(e) => exists|k: int|
            0 <= k < n && #[trigger] step(k, Err(e)) && forall|j: int| 0 <= j < k ==> #[trigger] succeeds(step, j),
    }
}

/// Whether outcome `k` may be `Ok`.
pub open spec fn succeeds<T>(step: spec_fn(int, Result<T, Error>) -> bool, k: int) -> bool {
    exists|o: T| #[trigger] step(k, Ok(o))
}

/// The outcomes admitted for each output ID of a dynamic call; output `k` takes the
/// index `num_inputs + k`.
pub open spec fn dynamic_output_steps<H>(
    hash: H,
    output_ids: Seq<OutputID>,
    caller_outputs: Seq<ValueFields>,
    function_id: Field,
    num_inputs: usize,
    tvk: Field,
    tcm: Field,
) -> spec_fn(int, Result<OutputID, Error>) -> bool where H: Fn(&[Field]) -> Result<Field, Error> {
    |k: int, o: Result<OutputID, Error>|
        dynamic_output_id_outcome(
            hash,
            output_ids[k],
            caller_outputs[k],
            function_id,
            tvk,
            tcm,
            (num_inputs + k) as u16,
            o,
        )
}

/// The outcomes admitted for each input ID of a dynamic call; input `k` takes the index `k`.
pub open spec fn dynamic_input_steps<H>(
    hash: H,
    input_ids: Seq<InputID>,
    inputs: Seq<ValueFields>,
    caller_inputs: Seq<ValueFields>,
    function_id: Field,
    tvk: Field,
) -> spec_fn(int, Result<InputID, Error>) -> bool where H: Fn(&[Field]) -> Result<Field, Error> {
    |k: int, o: Result<InputID, Error>|
        dynamic_input_id_outcome(hash, input_ids[k], inputs[k], caller_inputs[k], function_id, tvk, k, o)
}

/// The view of a collected outcome.
pub open spec fn vec_outcome<T>(r: Result<Vec<T>, Error>) -> Result<Seq<T>, Error> {
    match r {
        Ok(v) => Ok(v@),
        Err(e) => Err(e),
    }
}

/// The output IDs that the caller of a dynamic call sees, given the callee's output IDs
/// and the caller's form of the outputs (records as dynamic records, futures as dynamic
/// futures). Output `k` takes the index `num_inputs + k`. Refused when the numbers of
/// outputs and output IDs differ.
pub fn to_dynamic_output_ids<H>(
    output_ids: &[OutputID],
    caller_outputs: &[ValueFields],
    function_id: Field,
    num_inputs: usize,
    tvk: Field,
    tcm: Field,
    hash_psd8: &H,
) -> (r: Result<Vec<OutputID>, Error>) where H: Fn(&[Field]) -> Result<Field, Error>
    requires
        forall|p: &[Field]| hash_psd8.requires((p,)),
        num_inputs + output_ids@.len() <= u16::MAX + 1,
    ensures
        caller_outputs@.len() != output_ids@.len() ==> r == Err::<Vec<OutputID>, Error>(Error::InvalidLength),
        caller_outputs@.len() == output_ids@.len() ==> collects(
            output_ids@.len() as int,
            dynamic_output_steps(*hash_psd8, output_ids@, caller_outputs@, function_id, num_inputs, tvk, tcm),
            vec_outcome(r),
        ),
{
    if caller_outputs.len() != output_ids.len() {
        return Err(Error::InvalidLength);
    }
    let ghost step = dynamic_output_steps(*hash_psd8, output_ids@, caller_outputs@, function_id, num_inputs, tvk, tcm);
    let n = output_ids.len();
    let mut v: Vec<OutputID> = Vec::new();
    let mut k: usize = 0;
    while k < n
        invariant
            k <= n,
            n == output_ids@.len(),
            n == caller_outputs@.len(),
            num_inputs + n <= u16::MAX + 1,
            forall|p: &[Field]| hash_psd8.requires((p,)),
            step == dynamic_output_steps(*hash_psd8, output_ids@, caller_outputs@, function_id, num_inputs, tvk, tcm),
            v@.len() == k,
            forall|j: int| 0 <= j < k ==> #[trigger] step(j, Ok(v@[j])),
        decreases n - k,
    {
        let index = (num_inputs + k) as u16;
        let o = match output_ids[k] {
            OutputID::Record(..) | OutputID::ExternalRecord(..) => OutputID::dynamic_record(
                function_id,
                &caller_outputs[k],
                tvk,
                index,
                hash_psd8,
            ),
            OutputID::Future(..) => OutputID::dynamic_future(function_id, &caller_outputs[k], tcm, index, hash_psd8),
            other => Ok(other),
        };
        assert(step(k as int, o));
        match o {
            Ok(id) => {
                v.push(id);
            },
            Err(e) => {
                assert forall|j: int| 0 <= j < k implies #[trigger] succeeds(step, j) by {
                    assert(step(j, Ok(v@[j])));
                }
                return Err(e);
            },
        }
        k = k + 1;
    }
    Ok(v)
}

/// The input IDs that the caller of a dynamic call sees, given the callee's input IDs,
/// the inputs, and the caller's form of the inputs (records as dynamic records). Refused
/// when the numbers of inputs and input IDs differ.
pub fn to_dynamic_input_ids<H>(
    input_ids: &[InputID],
    inputs: &[ValueFields],
    caller_inputs: &[ValueFields],
    function_id: Field,
    tvk: Field,
    hash_psd8: &H,
) -> (r: Result<Vec<InputID>, Error>) where H: Fn(&[Field]) -> Result<Field, Error>
    requires
        forall|p: &[Field]| hash_psd8.requires((p,)),
        caller_inputs@.len() == inputs@.len(),
    ensures
        input_ids@.len() != inputs@.len() ==> r == Err::<Vec<InputID>, Error>(Error::InvalidLength),
        input_ids@.len() == inputs@.len() ==> collects(
            input_ids@.len() as int,
            dynamic_input_steps(*hash_psd8, input_ids@, inputs@, caller_inputs@, function_id, tvk),
            vec_outcome(r),
        ),
{
    if input_ids.len() != inputs.len() {
        return Err(Error::InvalidLength);
    }
    let ghost step = dynamic_input_steps(*hash_psd8, input_ids@, inputs@, caller_inputs@, function_id, tvk);
    let n = input_ids.len();
    let mut v: Vec<InputID> = Vec::new();
    let mut k: usize = 0;
    while k < n
        invariant
            k <= n,
            n == input_ids@.len(),
            n == inputs@.len(),
            n == caller_inputs@.len(),
            forall|p: &[Field]| hash_psd8.requires((p,)),
            step == dynamic_input_steps(*hash_psd8, input_ids@, inputs@, caller_inputs@, function_id, tvk),
            v@.len() == k,
            forall|j: int| 0 <= j < k ==> #[trigger] step(j, Ok(v@[j])),
        decreases n - k,
    {
        let o = match (&input_ids[k], &inputs[k]) {
            (InputID::Constant(..), ValueFields::Plaintext(..))
            | (InputID::Public(..), ValueFields::Plaintext(..))
            | (InputID::Private(..), ValueFields::Plaintext(..))
            | (InputID::DynamicRecord(..), ValueFields::DynamicRecord(..)) => Ok(input_ids[k]),
            (InputID::Record(..), ValueFields::Record(..)) | (InputID::ExternalRecord(..), ValueFields::Record(..)) => {
                if k > 65535 {
                    Err(Error::Overflow)
                } else {
                    InputID::dynamic_record(function_id, &caller_inputs[k], tvk, k as u16, hash_psd8)
                }
            },
            _ => Err(Error::InvalidVariant),
        };
        assert(step(k as int, o));
        match o {
            Ok(id) => {
                v.push(id);
            },
            Err(e) => {
                assert forall|j: int| 0 <= j < k implies #[trigger] succeeds(step, j) by {
                    assert(step(j, Ok(v@[j])));
                }
                return Err(e);
            },
        }
        k = k + 1;
    }
    Ok(v)
}

/// What the ID of output `index` of a response may be, by the output's type: constant,
/// public and future outputs hash with the transition commitment, external and dynamic
/// records with the transition view key; a private output hashes its ciphertext; a record
/// output, which must be a record and have a register, takes the commitment, checksum
/// and sender ciphertext that `record_id` computes from its name, the record and the
/// register.
pub open spec fn response_output_outcome<H4, E, H8, R>(
    hash_psd4: H4,
    encrypt: E,
    hash_psd8: H8,
    record_id: R,
    function_id: Field,
    output: ValueFields,
    output_type: ValueType,
    register: Option<u64>,
    tvk: Field,
    tcm: Field,
    index: u16,
    r: Result<OutputID, Error>,
) -> bool where
    H4: Fn(&[Field]) -> Result<Field, Error>,
    E: Fn(&[Field], Field) -> Result<Vec<Field>, Error>,
    H8: Fn(&[Field]) -> Result<Field, Error>,
    R: Fn(&Identifier, &Vec<Field>, u64) -> Result<(Field, Field, Field), Error>,
 {
    match output_type {
        ValueType::Constant(_) => hashed_output_outcome(
            hash_psd8,
            OutputID::Constant(function_id),
            function_id,
            output,
            tcm,
            index,
            r,
        ),
        ValueType::Public(_) => hashed_output_outcome(
            hash_psd8,
            OutputID::Public(function_id),
            function_id,
            output,
            tcm,
            index,
            r,
        ),
        ValueType::Private(_) => private_output_outcome(hash_psd4, encrypt, hash_psd8, function_id, output, tvk, index, r),
        ValueType::Record(name) => match register {
            None => r == Err::<OutputID, Error>(Error::Missing),
            Some(locator) => record_output_outcome(record_id, name, output, locator, r),
        },
        ValueType::ExternalRecord(_) => hashed_output_outcome(
            hash_psd8,
            OutputID::ExternalRecord(function_id),
            function_id,
            output,
            tvk,
            index,
            r,
        ),
        ValueType::Future(_) => hashed_output_outcome(
            hash_psd8,
            OutputID::Future(function_id),
            function_id,
            output,
            tcm,
            index,
            r,
        ),
        ValueType::DynamicRecord => dynamic_record_output_outcome(hash_psd8, function_id, output, tvk, index, r),
        ValueType::DynamicFuture => dynamic_future_output_outcome(hash_psd8, function_id, output, tcm, index, r),
    }
}

/// The outcomes admitted for each output ID of a response; output `k` takes the index
/// `num_inputs + k`.
pub open spec fn response_output_steps<H4, E, H8, R>(
    hash_psd4: H4,
    encrypt: E,
    hash_psd8: H8,
    record_id: R,
    function_id: Field,
    outputs: Seq<ValueFields>,
    output_types: Seq<ValueType>,
    registers: Seq<Option<u64>>,
    num_inputs: usize,
    tvk: Field,
    tcm: Field,
) -> spec_fn(int, Result<OutputID, Error>) -> bool where
    H4: Fn(&[Field]) -> Result<Field, Error>,
    E: Fn(&[Field], Field) -> Result<Vec<Field>, Error>,
    H8: Fn(&[Field]) -> Result<Field, Error>,
    R: Fn(&Identifier, &Vec<Field>, u64) -> Result<(Field, Field, Field), Error>,
 {
    |k: int, o: Result<OutputID, Error>|
        response_output_outcome(
            hash_psd4,
            encrypt,
            hash_psd8,
            record_id,
            function_id,
            outputs[k],
            output_types[k],
            registers[k],
            tvk,
            tcm,
            (num_inputs + k) as u16,
            o,
        )
}

/// Whether an output ID is of the kind that an output of type `t` gets, and the output
/// value of the kind that type demands.
pub open spec fn output_matches_type(t: ValueType, output: ValueFields, o: OutputID) -> bool {
    match t {
        ValueType::Constant(_) => o is Constant && output is Plaintext,
        ValueType::Public(_) => o is Public && output is Plaintext,
        ValueType::Private(_) => o is Private && output is Plaintext,
        ValueType::Record(_) => o is Record && output is Record,
        ValueType::ExternalRecord(_) => o is ExternalRecord && output is Record,
        ValueType::Future(_) => o is Future && output is Future,
        ValueType::DynamicRecord => o is DynamicRecord && output is DynamicRecord,
        ValueType::DynamicFuture => o is DynamicFuture && output is DynamicFuture,
    }
}

/// An output ID that a response admits for an output is of the kind its type demands,
/// and the output is of the kind of value that type demands.
pub proof fn lemma_response_output_kind<H4, E, H8, R>(
    hash_psd4: H4,
    encrypt: E,
    hash_psd8: H8,
    record_id: R,
    function_id: Field,
    output: ValueFields,
    output_type: ValueType,
    register: Option<u64>,
    tvk: Field,
    tcm: Field,
    index: u16,
    o: OutputID,
) where
    H4: Fn(&[Field]) -> Result<Field, Error>,
    E: Fn(&[Field], Field) -> Result<Vec<Field>, Error>,
    H8: Fn(&[Field]) -> Result<Field, Error>,
    R: Fn(&Identifier, &Vec<Field>, u64) -> Result<(Field, Field, Field), Error>,

    requires
        response_output_outcome(
            hash_psd4,
            encrypt,
            hash_psd8,
            record_id,
            function_id,
            output,
            output_type,
            register,
            tvk,
            tcm,
            index,
            Ok(o),
        ),
    ensures
        output_matches_type(output_type, output, o),
{
}

/// The mode in which a value stands in a circuit.
#[derive(Clone, Copy, Debug, PartialEq, Eq, Structural)]
pub enum Mode {
    Constant,
    Public,
    Private,
}

/// The mode in which a callback's output of type `t` is taken: a constant output as a
/// constant, every other (a public one too) as private.
pub open spec fn spec_output_mode(t: ValueType) -> Mode {
    match t {
        ValueType::Constant(_) => Mode::Constant,
        _ => Mode::Private,
    }
}

/// Whether a value is of the kind that an output of type `t` must be.
pub open spec fn output_kind_matches(t: ValueType, output: ValueFields) -> bool {
    match t {
        ValueType::Constant(_) | ValueType::Public(_) | ValueType::Private(_) => output is Plaintext,
        ValueType::Record(_) | ValueType::ExternalRecord(_) => output is Record,
        ValueType::Future(_) => output is Future,
        ValueType::DynamicRecord => output is DynamicRecord,
        ValueType::DynamicFuture => output is DynamicFuture,
    }
}

/// The mode in which a callback's output of type `t` is taken.
pub fn output_mode(t: &ValueType) -> (r: Mode)
    ensures
        r == spec_output_mode(*t),
        *t is Constant ==> r == Mode::Constant,
        !(*t is Constant) ==> r == Mode::Private,
{
    match t {
        ValueType::Constant(_) => Mode::Constant,
        _ => Mode::Private,
    }
}

/// The outputs of a callback, each with the mode in which it is taken by its type. Each
/// output must be of the kind its type demands, and a record output must have a register.
pub fn callback_outputs(outputs: Vec<ValueFields>, output_types: &[ValueType], output_registers: &[Option<u64>]) -> (r:
    Vec<(ValueFields, Mode)>)
    requires
        output_types@.len() == outputs@.len(),
        output_registers@.len() == outputs@.len(),
        forall|i: int|
            0 <= i < outputs@.len() ==> output_kind_matches(#[trigger] output_types@[i], outputs@[i]) && (
            output_types@[i] is Record ==> output_registers@[i] is Some),
    ensures
        r@.len() == outputs@.len(),
        forall|i: int|
            0 <= i < outputs@.len() ==> #[trigger] r@[i] == (outputs@[i], spec_output_mode(output_types@[i])),
        forall|i: int|
            0 <= i < outputs@.len() ==> #[trigger] r@[i].1 == if output_types@[i] is Constant {
                Mode::Constant
            } else {
                Mode::Private
            },
{
    let n = outputs.len();
    let ghost all = outputs@;
    let mut rest = outputs;
    let mut r: Vec<(ValueFields, Mode)> = Vec::new();
    let mut k: usize = 0;
    while k < n
        invariant
            k <= n,
            n == all.len(),
            n == output_types@.len(),
            rest@ == all.subrange(k as int, n as int),
            r@.len() == k,
            forall|i: int| 0 <= i < k ==> #[trigger] r@[i] == (all[i], spec_output_mode(output_types@[i])),
        decreases n - k,
    {
        let mode = output_mode(&output_types[k]);
        let output = rest.remove(0);
        assert(output == all[k as int]);
        r.push((output, mode));
        k = k + 1;
        assert(rest@ =~= all.subrange(k as int, n as int));
    }
    r
}

/// A callback's constant output is taken as a constant, and every other output (public,
/// private, record, external record, future, dynamic record or dynamic future) as private;
/// none is taken as public.
pub proof fn lemma_output_modes(t: ValueType)
    ensures
        t is Constant ==> spec_output_mode(t) == Mode::Constant,
        !(t is Constant) ==> spec_output_mode(t) == Mode::Private,
        spec_output_mode(t) != Mode::Public,
{
}

/// The outputs of a function call and their IDs.
pub struct Response {
    output_ids: Vec<OutputID>,
    outputs: Vec<ValueFields>,
}

impl Response {
    /// The output IDs.
    pub closed spec fn spec_output_ids(&self) -> Seq<OutputID> {
        self.output_ids@
    }

    /// The outputs.
    pub closed spec fn spec_outputs(&self) -> Seq<ValueFields> {
        self.outputs@
    }

    /// A response of the outputs of a call of the function `function_id`, with their IDs
    /// computed by their types; output `k` takes the index `num_inputs + k`. The first
    /// output whose ID cannot be computed makes the error. This is the response as it is
    /// built outside a circuit: an output whose value is not of the kind its type demands
    /// is refused with `InvalidVariant`, and a record output without a register with
    /// `Missing`, where the construction inside a circuit halts on both.
    pub fn new<H4, E, H8, R>(
        function_id: Field,
        num_inputs: usize,
        tvk: Field,
        tcm: Field,
        outputs: Vec<ValueFields>,
        output_types: &[ValueType],
        output_registers: &[Option<u64>],
        hash_psd4: &H4,
        encrypt: &E,
        hash_psd8: &H8,
        record_id: &R,
    ) -> (r: Result<Response, Error>) where
        H4: Fn(&[Field]) -> Result<Field, Error>,
        E: Fn(&[Field], Field) -> Result<Vec<Field>, Error>,
        H8: Fn(&[Field]) -> Result<Field, Error>,
        R: Fn(&Identifier, &Vec<Field>, u64) -> Result<(Field, Field, Field), Error>,
        requires
            forall|p: &[Field]| hash_psd4.requires((p,)),
            forall|p: &[Field], k: Field| encrypt.requires((p, k)),
            forall|p: &[Field]| hash_psd8.requires((p,)),
            forall|n: &Identifier, v: &Vec<Field>, l: u64| record_id.requires((n, v, l)),
            output_types@.len() == outputs@.len(),
            output_registers@.len() == outputs@.len(),
            num_inputs + outputs@.len() <= u16::MAX + 1,
        ensures
            collects(
                outputs@.len() as int,
                response_output_steps(
                    *hash_psd4,
                    *encrypt,
                    *hash_psd8,
                    *record_id,
                    function_id,
                    outputs@,
                    output_types@,
                    output_registers@,
                    num_inputs,
                    tvk,
                    tcm,
                ),
                match r {
                    Ok(resp) => Ok(resp.spec_output_ids()),
                    Err(e) => Err(e),
                },
            ),
            r matches Ok(resp) ==> resp.spec_outputs() == outputs@,
            r matches Ok(resp) ==> resp.spec_output_ids().len() == outputs@.len() && forall|i: int|
                0 <= i < outputs@.len() ==> output_matches_type(
                    #[trigger] output_types@[i],
                    outputs@[i],
                    resp.spec_output_ids()[i],
                ),
    {
        let ghost step = response_output_steps(
            *hash_psd4,
            *encrypt,
            *hash_psd8,
            *record_id,
            function_id,
            outputs@,
            output_types@,
            output_registers@,
            num_inputs,
            tvk,
            tcm,
        );
        let n = outputs.len();
        let mut ids: Vec<OutputID> = Vec::new();
        let mut k: usize = 0;
        while k < n
            invariant
                k <= n,
                n == outputs@.len(),
                n == output_types@.len(),
                n == output_registers@.len(),
                num_inputs + n <= u16::MAX + 1,
                forall|p: &[Field]| hash_psd4.requires((p,)),
                forall|p: &[Field], k: Field| encrypt.requires((p, k)),
                forall|p: &[Field]| hash_psd8.requires((p,)),
                forall|n: &Identifier, v: &Vec<Field>, l: u64| record_id.requires((n, v, l)),
                step == response_output_steps(
                    *hash_psd4,
                    *encrypt,
                    *hash_psd8,
                    *record_id,
                    function_id,
                    outputs@,
                    output_types@,
                    output_registers@,
                    num_inputs,
                    tvk,
                    tcm,
                ),
                ids@.len() == k,
                forall|j: int|
                    0 <= j < k ==> output_matches_type(#[trigger] output_types@[j], outputs@[j], ids@[j]),
                forall|j: int| 0 <= j < k ==> #[trigger] step(j, Ok(ids@[j])),
            decreases n - k,
        {
            let index = (num_inputs + k) as u16;
            let output = &outputs[k];
            let o = match &output_types[k] {
                ValueType::Constant(_) => OutputID::constant(function_id, output, tcm, index, hash_psd8),
                ValueType::Public(_) => OutputID::public(function_id, output, tcm, index, hash_psd8),
                ValueType::Private(_) => OutputID::private(
                    function_id,
                    output,
                    tvk,
                    index,
                    hash_psd4,
                    encrypt,
                    hash_psd8,
                ),
                ValueType::Record(name) => match output_registers[k] {
                    None => Err(Error::Missing),
                    Some(locator) => OutputID::record(name, output, locator, record_id),
                },
                ValueType::ExternalRecord(_) => OutputID::external_record(function_id, output, tvk, index, hash_psd8),
                ValueType::Future(_) => OutputID::future(function_id, output, tcm, index, hash_psd8),
                ValueType::DynamicRecord => OutputID::dynamic_record(function_id, output, tvk, index, hash_psd8),
                ValueType::DynamicFuture => OutputID::dynamic_future(function_id, output, tcm, index, hash_psd8),
            };
            assert(step(k as int, o));
            match o {
                Ok(id) => {
                    proof {
                        lemma_response_output_kind(
                            *hash_psd4,
                            *encrypt,
                            *hash_psd8,
                            *record_id,
                            function_id,
                            outputs@[k as int],
                            output_types@[k as int],
                            output_registers@[k as int],
                            tvk,
                            tcm,
                            index,
                            id,
                        );
                    }
                    ids.push(id);
                },
                Err(e) => {
                    assert forall|j: int| 0 <= j < k implies #[trigger] succeeds(step, j) by {
                        assert(step(j, Ok(ids@[j])));
                    }
                    return Err(e);
                },
            }
            k = k + 1;
        }
        Ok(Response { output_ids: ids, outputs })
    }

    /// The output IDs.
    pub fn output_ids(&self) -> (r: &[OutputID])
        ensures
            r@ == self.spec_output_ids(),
    {
        self.output_ids.as_slice()
    }

    /// The outputs.
    pub fn outputs(&self) -> (r: &[ValueFields])
        ensures
            r@ == self.spec_outputs(),
    {
        self.outputs.as_slice()
    }

    /// The output IDs that the caller of a dynamic call sees, given the caller's form of
    /// the outputs (records as dynamic records, futures as dynamic futures); output `k`
    /// takes the index `num_inputs + k`. Refused when the numbers of outputs and output
    /// IDs differ.
    pub fn to_dynamic_output_ids<H>(
        &self,
        caller_outputs: &[ValueFields],
        function_id: Field,
        num_inputs: usize,
        tvk: Field,
        tcm: Field,
        hash_psd8: &H,
    ) -> (r: Result<Vec<OutputID>, Error>) where H: Fn(&[Field]) -> Result<Field, Error>
        requires
            forall|p: &[Field]| hash_psd8.requires((p,)),
            num_inputs + self.spec_output_ids().len() <= u16::MAX + 1,
        ensures
            caller_outputs@.len() != self.spec_output_ids().len() ==> r == Err::<Vec<OutputID>, Error>(
                Error::InvalidLength,
            ),
            caller_outputs@.len() == self.spec_output_ids().len() ==> collects(
                self.spec_output_ids().len() as int,
                dynamic_output_steps(
                    *hash_psd8,
                    self.spec_output_ids(),
                    caller_outputs@,
                    function_id,
                    num_inputs,
                    tvk,
                    tcm,
                ),
                vec_outcome(r),
            ),
    {
        to_dynamic_output_ids(self.output_ids.as_slice(), caller_outputs, function_id, num_inputs, tvk, tcm, hash_psd8)
    }
}

/// What checking an input ID against its recomputation gives: the ID, as the field
/// elements it adds to the signed message, when the recomputed ID equals it; else
/// `Mismatch`, or the error of the recomputation.
pub open spec fn checked_candidate(h: Field, c: Result<InputID, Error>) -> Result<Seq<Field>, Error> {
    match c {
        Ok(candidate) => if input_id_of(candidate) == h {
            Ok(seq![h])
        } else {
            Err(Error::Mismatch)
        },
        Err(e) => Err(e),
    }
}

/// What checking input `index` of a request may give: the field elements that the input
/// adds to the signed message, or why it is refused. A constant or public input ID is
/// recomputed with the transition commitment, a private, external record or dynamic
/// record input ID with the transition view key, and must equal the given one. A record
/// input must be a record of a record type; `record_check` checks it against its ID and
/// gives the group elements (by their x-coordinates) that go before its tag.
pub open spec fn request_input_outcome<H4, E, H8, C>(
    hash_psd4: H4,
    encrypt: E,
    hash_psd8: H8,
    record_check: C,
    function_id: Field,
    tvk: Field,
    tcm: Field,
    input_id: InputID,
    input: ValueFields,
    input_type: ValueType,
    index: u16,
    r: Result<Seq<Field>, Error>,
) -> bool where
    H4: Fn(&[Field]) -> Result<Field, Error>,
    E: Fn(&[Field], Field) -> Result<Vec<Field>, Error>,
    H8: Fn(&[Field]) -> Result<Field, Error>,
    C: Fn(&Identifier, &Vec<Field>, &InputID) -> Result<Vec<Field>, Error>,
 {
    match input_id {
        InputID::Constant(h) => exists|c: Result<InputID, Error>|
            hashed_input_outcome(hash_psd8, InputID::Constant(function_id), function_id, input, tcm, index, c) && r
                == checked_candidate(h, c),
        InputID::Public(h) => exists|c: Result<InputID, Error>|
            hashed_input_outcome(hash_psd8, InputID::Public(function_id), function_id, input, tcm, index, c) && r
                == checked_candidate(h, c),
        InputID::Private(h) => exists|c: Result<InputID, Error>|
            private_input_outcome(hash_psd4, encrypt, hash_psd8, function_id, input, tvk, index, c) && r
                == checked_candidate(h, c),
        InputID::Record(_, _, _, _, tag) => match (input, input_type) {
            (ValueFields::Record(f), ValueType::Record(name)) => exists|c: Result<Vec<Field>, Error>|
                #[trigger] record_check.ensures((&name, &f, &input_id), c) && r == match c {
                    Ok(points) => Ok(points@.push(tag)),
                    Err(e) => Err(e),
                },
            _ => r == Err::<Seq<Field>, Error>(Error::InvalidVariant),
        },
        InputID::ExternalRecord(h) => exists|c: Result<InputID, Error>|
            hashed_input_outcome(hash_psd8, InputID::ExternalRecord(function_id), function_id, input, tvk, index, c)
                && r == checked_candidate(h, c),
        InputID::DynamicRecord(h) => exists|c: Result<InputID, Error>|
            dynamic_record_input_outcome(hash_psd8, function_id, input, tvk, index, c) && r == checked_candidate(h, c),
    }
}

/// The outcomes admitted for checking each input of a request; input `k` takes the index `k`.
pub open spec fn request_input_steps<H4, E, H8, C>(
    hash_psd4: H4,
    encrypt: E,
    hash_psd8: H8,
    record_check: C,
    function_id: Field,
    tvk: Field,
    tcm: Field,
    input_ids: Seq<InputID>,
    inputs: Seq<ValueFields>,
    input_types: Seq<ValueType>,
) -> spec_fn(int, Result<Seq<Field>, Error>) -> bool where
    H4: Fn(&[Field]) -> Result<Field, Error>,
    E: Fn(&[Field], Field) -> Result<Vec<Field>, Error>,
    H8: Fn(&[Field]) -> Result<Field, Error>,
    C: Fn(&Identifier, &Vec<Field>, &InputID) -> Result<Vec<Field>, Error>,
 {
    |k: int, o: Result<Seq<Field>, Error>|
        request_input_outcome(
            hash_psd4,
            encrypt,
            hash_psd8,
            record_check,
            function_id,
            tvk,
            tcm,
            input_ids[k],
            inputs[k],
            input_types[k],
            k as u16,
            o,
        )
}

/// The start of the message a request signs: the transition view key, the transition
/// commitment, the function ID, whether the call is the root (one or zero), and the
/// program checksum where one is given.
pub open spec fn message_header(tvk: Field, tcm: Field, function_id: Field, is_root: bool, program_checksum: Option<
    Field,
>) -> Seq<Field> {
    let head = seq![tvk, tcm, function_id, Field::spec_from_u16(if is_root { 1 } else { 0 })];
    match program_checksum {
        Some(c) => head.push(c),
        None => head,
    }
}

/// Which key an output ID depends on: the IDs of constant, public, future and dynamic
/// future outputs do not depend on the transition view key, and those of private, record,
/// external record and dynamic record outputs do not depend on the transition commitment.
pub proof fn lemma_response_output_keys<H4, E, H8, R>(
    hash_psd4: H4,
    encrypt: E,
    hash_psd8: H8,
    record_id: R,
    function_id: Field,
    output: ValueFields,
    output_type: ValueType,
    register: Option<u64>,
    tvk: Field,
    other_tvk: Field,
    tcm: Field,
    other_tcm: Field,
    index: u16,
    r: Result<OutputID, Error>,
) where
    H4: Fn(&[Field]) -> Result<Field, Error>,
    E: Fn(&[Field], Field) -> Result<Vec<Field>, Error>,
    H8: Fn(&[Field]) -> Result<Field, Error>,
    R: Fn(&Identifier, &Vec<Field>, u64) -> Result<(Field, Field, Field), Error>,

    ensures
        output_type is Constant || output_type is Public || output_type is Future || output_type is DynamicFuture
            ==> (response_output_outcome(
            hash_psd4,
            encrypt,
            hash_psd8,
            record_id,
            function_id,
            output,
            output_type,
            register,
            tvk,
            tcm,
            index,
            r,
        ) == response_output_outcome(
            hash_psd4,
            encrypt,
            hash_psd8,
            record_id,
            function_id,
            output,
            output_type,
            register,
            other_tvk,
            tcm,
            index,
            r,
        )),
        output_type is Private || output_type is Record || output_type is ExternalRecord || output_type is DynamicRecord
            ==> (response_output_outcome(
            hash_psd4,
            encrypt,
            hash_psd8,
            record_id,
            function_id,
            output,
            output_type,
            register,
            tvk,
            tcm,
            index,
            r,
        ) == response_output_outcome(
            hash_psd4,
            encrypt,
            hash_psd8,
            record_id,
            function_id,
            output,
            output_type,
            register,
            tvk,
            other_tcm,
            index,
            r,
        )),
{
}

/// Which key an input check depends on: checking a constant or public input does not
/// depend on the transition view key, checking a private, external record or dynamic
/// record input does not depend on the transition commitment, and checking a record
/// input depends on neither.
pub proof fn lemma_request_input_keys<H4, E, H8, C>(
    hash_psd4: H4,
    encrypt: E,
    hash_psd8: H8,
    record_check: C,
    function_id: Field,
    tvk: Field,
    other_tvk: Field,
    tcm: Field,
    other_tcm: Field,
    input_id: InputID,
    input: ValueFields,
    input_type: ValueType,
    index: u16,
    r: Result<Seq<Field>, Error>,
) where
    H4: Fn(&[Field]) -> Result<Field, Error>,
    E: Fn(&[Field], Field) -> Result<Vec<Field>, Error>,
    H8: Fn(&[Field]) -> Result<Field, Error>,
    C: Fn(&Identifier, &Vec<Field>, &InputID) -> Result<Vec<Field>, Error>,

    ensures
        input_id is Constant || input_id is Public || input_id is Record ==> (request_input_outcome(
            hash_psd4,
            encrypt,
            hash_psd8,
            record_check,
            function_id,
            tvk,
            tcm,
            input_id,
            input,
            input_type,
            index,
            r,
        ) == request_input_outcome(
            hash_psd4,
            encrypt,
            hash_psd8,
            record_check,
            function_id,
            other_tvk,
            tcm,
            input_id,
            input,
            input_type,
            index,
            r,
        )),
        input_id is Private || input_id is Record || input_id is ExternalRecord || input_id is DynamicRecord
            ==> (request_input_outcome(
            hash_psd4,
            encrypt,
            hash_psd8,
            record_check,
            function_id,
            tvk,
            tcm,
            input_id,
            input,
            input_type,
            index,
            r,
        ) == request_input_outcome(
            hash_psd4,
            encrypt,
            hash_psd8,
            record_check,
            function_id,
            tvk,
            other_tcm,
            input_id,
            input,
            input_type,
            index,
            r,
        )),
{
}

/// The number of field elements that an input with this ID adds to the signed message:
/// four for a record input (three group points by their x-coordinates and the tag), one
/// for any other.
pub open spec fn input_message_weight(id: InputID) -> int {
    if id is Record {
        4
    } else {
        1
    }
}

/// The number of field elements that inputs with these IDs add to the signed message.
pub open spec fn input_message_len(ids: Seq<InputID>) -> int
    decreases ids.len(),
{
    if ids.len() == 0 {
        0
    } else {
        input_message_len(ids.drop_last()) + input_message_weight(ids.last())
    }
}

/// Whether a record check, where it passes, gives three group points (by their
/// x-coordinates): H, r·H and gamma.
pub open spec fn gives_three_points<C>(record_check: C) -> bool where
    C: Fn(&Identifier, &Vec<Field>, &InputID) -> Result<Vec<Field>, Error>,
 {
    forall|n: &Identifier, v: &Vec<Field>, i: &InputID, r: Result<Vec<Field>, Error>|
        #[trigger] record_check.ensures((n, v, i), r) ==> (r matches Ok(points) ==> points@.len() == 3)
}

/// The message length of the first `k + 1` input IDs.
proof fn lemma_input_message_len_step(ids: Seq<InputID>, k: int)
    requires
        0 <= k < ids.len(),
    ensures
        input_message_len(ids.subrange(0, k + 1)) == input_message_len(ids.subrange(0, k)) + input_message_weight(
            ids[k],
        ),
{
    assert(ids.subrange(0, k + 1).drop_last() =~= ids.subrange(0, k));
}

/// Appends `extra` to `v`.
fn append_fields(v: &mut Vec<Field>, extra: &Vec<Field>)
    ensures
        final(v)@ == old(v)@ + extra@,
{
    let n = extra.len();
    let mut i: usize = 0;
    while i < n
        invariant
            i <= n,
            n == extra@.len(),
            v@ == old(v)@ + extra@.subrange(0, i as int),
        decreases n - i,
    {
        v.push(extra[i]);
        i = i + 1;
        assert(v@ =~= old(v)@ + extra@.subrange(0, i as int));
    }
    assert(extra@.subrange(0, n as int) =~= extra@);
}

/// What verifying a request may give: the transition commitment must be the hash (by
/// `hash_psd2`) of the transition view key; every input must pass its check; and the
/// signature must verify over the message header followed by what the inputs add. Any
/// failure gives `false`.
pub open spec fn request_verify_outcome<H2, H4, E, H8, C, S>(
    hash_psd2: H2,
    hash_psd4: H4,
    encrypt: E,
    hash_psd8: H8,
    record_check: C,
    verify_signature: S,
    function_id: Field,
    tvk: Field,
    tcm: Field,
    is_root: bool,
    program_checksum: Option<Field>,
    input_ids: Seq<InputID>,
    inputs: Seq<ValueFields>,
    input_types: Seq<ValueType>,
    r: bool,
) -> bool where
    H2: Fn(&[Field]) -> Result<Field, Error>,
    H4: Fn(&[Field]) -> Result<Field, Error>,
    E: Fn(&[Field], Field) -> Result<Vec<Field>, Error>,
    H8: Fn(&[Field]) -> Result<Field, Error>,
    C: Fn(&Identifier, &Vec<Field>, &InputID) -> Result<Vec<Field>, Error>,
    S: Fn(&[Field]) -> bool,
 {
    let step = request_input_steps(
        hash_psd4,
        encrypt,
        hash_psd8,
        record_check,
        function_id,
        tvk,
        tcm,
        input_ids,
        inputs,
        input_types,
    );
    exists|t: Result<Field, Error>|
        hashes_to(hash_psd2, seq![tvk], t) && match t {
            Ok(c) => if c == tcm {
                exists|m: Result<Seq<Seq<Field>>, Error>|
                    collects(inputs.len() as int, step, m) && match m {
                        Ok(parts) => exists|p: &[Field]|
                            #![trigger verify_signature.ensures((p,), r)]
                            p@ == message_header(tvk, tcm, function_id, is_root, program_checksum) + parts.flatten()
                                && verify_signature.ensures((p,), r),
                        Err(_) => !r,
                    }
            } else {
                !r
            },
            Err(_) => !r,
        }
}

/// The start of the signed message is, in this order: the transition view key, the
/// transition commitment, the function ID, one or zero for whether the call is the root,
/// and the program checksum where one is given.
pub proof fn lemma_message_header_layout(
    tvk: Field,
    tcm: Field,
    function_id: Field,
    is_root: bool,
    program_checksum: Option<Field>,
)
    ensures
        ({
            let h = message_header(tvk, tcm, function_id, is_root, program_checksum);
            &&& h.len() == if program_checksum is Some {
                5int
            } else {
                4int
            }
            &&& h[0] == tvk
            &&& h[1] == tcm
            &&& h[2] == function_id
            &&& is_root ==> h[3] == Field::spec_from_u16(1)
            &&& !is_root ==> h[3] == Field::spec_from_u16(0)
            &&& program_checksum matches Some(c) ==> h[4] == c
        }),
{
}

/// Builds the start of the message a request signs.
fn build_message_header(tvk: Field, tcm: Field, function_id: Field, is_root: bool, program_checksum: Option<Field>) -> (r: Vec<Field>)
    ensures
        r@ == message_header(tvk, tcm, function_id, is_root, program_checksum),
{
    let mut v: Vec<Field> = Vec::new();
    v.push(tvk);
    v.push(tcm);
    v.push(function_id);
    v.push(Field::from_u16(if is_root { 1 } else { 0 }));
    if let Some(c) = program_checksum {
        v.push(c);
    }
    assert(v@ =~= message_header(tvk, tcm, function_id, is_root, program_checksum));
    v
}

/// Checks an input ID's hash against its recomputation `c`.
fn check_candidate(h: Field, c: Result<InputID, Error>) -> (r: Result<Vec<Field>, Error>)
    ensures
        vec_outcome(r) == checked_candidate(h, c),
{
    match c {
        Ok(candidate) => if candidate.id() == h {
            let v = vec![h];
            assert(v@ =~= seq![h]);
            Ok(v)
        } else {
            Err(Error::Mismatch)
        },
        Err(e) => Err(e),
    }
}

/// A request to call a function: the IDs of its inputs, the inputs, and the transition
/// view key and commitment.
pub struct Request {
    input_ids: Vec<InputID>,
    inputs: Vec<ValueFields>,
    tvk: Field,
    tcm: Field,
}

impl Request {
    /// The input IDs.
    pub closed spec fn spec_input_ids(&self) -> Seq<InputID> {
        self.input_ids@
    }

    /// The inputs.
    pub closed spec fn spec_inputs(&self) -> Seq<ValueFields> {
        self.inputs@
    }

    /// The transition view key.
    pub closed spec fn spec_tvk(&self) -> Field {
        self.tvk
    }

    /// The transition commitment.
    pub closed spec fn spec_tcm(&self) -> Field {
        self.tcm
    }

    /// A request of these inputs and input IDs, one for each input.
    pub fn new(input_ids: Vec<InputID>, inputs: Vec<ValueFields>, tvk: Field, tcm: Field) -> (r: Request)
        requires
            input_ids@.len() == inputs@.len(),
        ensures
            r.spec_input_ids() == input_ids@,
            r.spec_inputs() == inputs@,
            r.spec_tvk() == tvk,
            r.spec_tcm() == tcm,
    {
        Request { input_ids, inputs, tvk, tcm }
    }

    /// The input IDs.
    pub fn input_ids(&self) -> (r: &[InputID])
        ensures
            r@ == self.spec_input_ids(),
    {
        self.input_ids.as_slice()
    }

    /// The inputs.
    pub fn inputs(&self) -> (r: &[ValueFields])
        ensures
            r@ == self.spec_inputs(),
    {
        self.inputs.as_slice()
    }

    /// The transition view key.
    pub fn tvk(&self) -> (r: Field)
        ensures
            r == self.spec_tvk(),
    {
        self.tvk
    }

    /// The transition commitment.
    pub fn tcm(&self) -> (r: Field)
        ensures
            r == self.spec_tcm(),
    {
        self.tcm
    }

    /// Checks the inputs of the request against their IDs, in order, and gives the field
    /// elements they add to the signed message; the first input that fails its check
    /// makes the error.
    pub fn check_inputs<H4, E, H8, C>(
        &self,
        input_types: &[ValueType],
        function_id: Field,
        hash_psd4: &H4,
        encrypt: &E,
        hash_psd8: &H8,
        record_check: &C,
    ) -> (r: Result<Vec<Field>, Error>) where
        H4: Fn(&[Field]) -> Result<Field, Error>,
        E: Fn(&[Field], Field) -> Result<Vec<Field>, Error>,
        H8: Fn(&[Field]) -> Result<Field, Error>,
        C: Fn(&Identifier, &Vec<Field>, &InputID) -> Result<Vec<Field>, Error>,
        requires
            forall|p: &[Field]| hash_psd4.requires((p,)),
            forall|p: &[Field], k: Field| encrypt.requires((p, k)),
            forall|p: &[Field]| hash_psd8.requires((p,)),
            forall|n: &Identifier, v: &Vec<Field>, i: &InputID| record_check.requires((n, v, i)),
            gives_three_points(*record_check),
            self.spec_input_ids().len() == self.spec_inputs().len(),
            input_types@.len() == self.spec_inputs().len(),
            self.spec_inputs().len() <= u16::MAX + 1,
        ensures
            r matches Ok(m) ==> m@.len() == input_message_len(self.spec_input_ids()),
            ({
                let step = request_input_steps(
                    *hash_psd4,
                    *encrypt,
                    *hash_psd8,
                    *record_check,
                    function_id,
                    self.spec_tvk(),
                    self.spec_tcm(),
                    self.spec_input_ids(),
                    self.spec_inputs(),
                    input_types@,
                );
                match r {
                    Ok(m) => exists|parts: Seq<Seq<Field>>|
                        collects(self.spec_inputs().len() as int, step, Ok(parts)) && m@ == parts.flatten(),
                    Err(e) => collects(self.spec_inputs().len() as int, step, Err(e)),
                }
            }),
    {
        let ghost step = request_input_steps(
            *hash_psd4,
            *encrypt,
            *hash_psd8,
            *record_check,
            function_id,
            self.tvk,
            self.tcm,
            self.input_ids@,
            self.inputs@,
            input_types@,
        );
        let n = self.inputs.len();
        let mut message: Vec<Field> = Vec::new();
        let ghost mut parts: Seq<Seq<Field>> = Seq::empty();
        let mut k: usize = 0;
        while k < n
            invariant
                k <= n,
                n == self.inputs@.len(),
                n == self.input_ids@.len(),
                n == input_types@.len(),
                n <= u16::MAX + 1,
                forall|p: &[Field]| hash_psd4.requires((p,)),
                forall|p: &[Field], k: Field| encrypt.requires((p, k)),
                forall|p: &[Field]| hash_psd8.requires((p,)),
                forall|n: &Identifier, v: &Vec<Field>, i: &InputID| record_check.requires((n, v, i)),
                gives_three_points(*record_check),
                message@.len() == input_message_len(self.input_ids@.subrange(0, k as int)),
                step == request_input_steps(
                    *hash_psd4,
                    *encrypt,
                    *hash_psd8,
                    *record_check,
                    function_id,
                    self.tvk,
                    self.tcm,
                    self.input_ids@,
                    self.inputs@,
                    input_types@,
                ),
                parts.len() == k,
                message@ == parts.flatten(),
                forall|j: int| 0 <= j < k ==> #[trigger] step(j, Ok(parts[j])),
            decreases n - k,
        {
            let index = k as u16;
            let input = &self.inputs[k];
            let input_id = self.input_ids[k];
            let o: Result<Vec<Field>, Error> = match input_id {
                InputID::Constant(h) => check_candidate(h, InputID::constant(function_id, input, self.tcm, index, hash_psd8)),
                InputID::Public(h) => check_candidate(h, InputID::public(function_id, input, self.tcm, index, hash_psd8)),
                InputID::Private(h) => check_candidate(h, InputID::private(
                    function_id,
                    input,
                    self.tvk,
                    index,
                    hash_psd4,
                    encrypt,
                    hash_psd8,
                )),
                InputID::Record(_, _, _, _, tag) => match (input, &input_types[k]) {
                    (ValueFields::Record(f), ValueType::Record(name)) => match record_check(name, f, &input_id) {
                        Ok(points) => {
                            let mut m = points;
                            m.push(tag);
                            assert(m@ == points@.push(tag));
                            Ok(m)
                        },
                        Err(e) => Err(e),
                    },
                    _ => Err(Error::InvalidVariant),
                },
                InputID::ExternalRecord(h) => check_candidate(h, InputID::external_record(
                    function_id,
                    input,
                    self.tvk,
                    index,
                    hash_psd8,
                )),
                InputID::DynamicRecord(h) => check_candidate(h, InputID::dynamic_record(
                    function_id,
                    input,
                    self.tvk,
                    index,
                    hash_psd8,
                )),
            };
            assert(step(k as int, vec_outcome(o)));
            assert(o matches Ok(m) ==> m@.len() == input_message_weight(input_id));
            match o {
                Ok(m) => {
                    proof {
                        lemma_input_message_len_step(self.input_ids@, k as int);
                        parts.lemma_flatten_push(m@);
                        parts = parts.push(m@);
                    }
                    append_fields(&mut message, &m);
                },
                Err(e) => {
                    assert forall|j: int| 0 <= j < k implies #[trigger] succeeds(step, j) by {
                        assert(step(j, Ok(parts[j])));
                    }
                    return Err(e);
                },
            }
            k = k + 1;
        }
        assert(self.input_ids@.subrange(0, n as int) =~= self.input_ids@);
        Ok(message)
    }
    /// Checks the inputs of the request against their IDs, as `check_inputs` does, and
    /// gives the field elements they add to the signed message only when `create_message`
    /// asks for them.
    pub fn check_input_ids<H4, E, H8, C>(
        &self,
        input_types: &[ValueType],
        function_id: Field,
        create_message: bool,
        hash_psd4: &H4,
        encrypt: &E,
        hash_psd8: &H8,
        record_check: &C,
    ) -> (r: Result<Option<Vec<Field>>, Error>) where
        H4: Fn(&[Field]) -> Result<Field, Error>,
        E: Fn(&[Field], Field) -> Result<Vec<Field>, Error>,
        H8: Fn(&[Field]) -> Result<Field, Error>,
        C: Fn(&Identifier, &Vec<Field>, &InputID) -> Result<Vec<Field>, Error>,
        requires
            forall|p: &[Field]| hash_psd4.requires((p,)),
            forall|p: &[Field], k: Field| encrypt.requires((p, k)),
            forall|p: &[Field]| hash_psd8.requires((p,)),
            forall|n: &Identifier, v: &Vec<Field>, i: &InputID| record_check.requires((n, v, i)),
            gives_three_points(*record_check),
            self.spec_input_ids().len() == self.spec_inputs().len(),
            input_types@.len() == self.spec_inputs().len(),
            self.spec_inputs().len() <= u16::MAX + 1,
        ensures
            ({
                let step = request_input_steps(
                    *hash_psd4,
                    *encrypt,
                    *hash_psd8,
                    *record_check,
                    function_id,
                    self.spec_tvk(),
                    self.spec_tcm(),
                    self.spec_input_ids(),
                    self.spec_inputs(),
                    input_types@,
                );
                match r {
                    Ok(Some(m)) => create_message && m@.len() == input_message_len(self.spec_input_ids()) && exists|
                        parts: Seq<Seq<Field>>,
                    | collects(self.spec_inputs().len() as int, step, Ok(parts)) && m@ == parts.flatten(),
                    Ok(None) => !create_message && exists|parts: Seq<Seq<Field>>|
                        collects(self.spec_inputs().len() as int, step, Ok(parts)),
                    Err(e) => collects(self.spec_inputs().len() as int, step, Err(e)),
                }
            }),
    {
        match self.check_inputs(input_types, function_id, hash_psd4, encrypt, hash_psd8, record_check) {
            Ok(m) => if create_message {
                Ok(Some(m))
            } else {
                Ok(None)
            },
            Err(e) => Err(e),
        }
    }

    /// Whether the request is valid for these input types: its transition commitment is
    /// the hash (by `hash_psd2`) of its transition view key, each input passes its check,
    /// and `verify_signature` accepts the message made of the header (transition view
    /// key, transition commitment, function ID, whether the call is the root, and the
    /// program checksum where given) and what the inputs add.
    pub fn verify<H2, H4, E, H8, C, S>(
        &self,
        input_types: &[ValueType],
        is_root: bool,
        program_checksum: Option<Field>,
        function_id: Field,
        hash_psd2: &H2,
        hash_psd4: &H4,
        encrypt: &E,
        hash_psd8: &H8,
        record_check: &C,
        verify_signature: &S,
    ) -> (r: bool) where
        H2: Fn(&[Field]) -> Result<Field, Error>,
        H4: Fn(&[Field]) -> Result<Field, Error>,
        E: Fn(&[Field], Field) -> Result<Vec<Field>, Error>,
        H8: Fn(&[Field]) -> Result<Field, Error>,
        C: Fn(&Identifier, &Vec<Field>, &InputID) -> Result<Vec<Field>, Error>,
        S: Fn(&[Field]) -> bool,
        requires
            forall|p: &[Field]| hash_psd2.requires((p,)),
            forall|p: &[Field]| hash_psd4.requires((p,)),
            forall|p: &[Field], k: Field| encrypt.requires((p, k)),
            forall|p: &[Field]| hash_psd8.requires((p,)),
            forall|n: &Identifier, v: &Vec<Field>, i: &InputID| record_check.requires((n, v, i)),
            gives_three_points(*record_check),
            forall|p: &[Field]| verify_signature.requires((p,)),
            self.spec_input_ids().len() == self.spec_inputs().len(),
            input_types@.len() == self.spec_inputs().len(),
            self.spec_inputs().len() <= u16::MAX + 1,
        ensures
            request_verify_outcome(
                *hash_psd2,
                *hash_psd4,
                *encrypt,
                *hash_psd8,
                *record_check,
                *verify_signature,
                function_id,
                self.spec_tvk(),
                self.spec_tcm(),
                is_root,
                program_checksum,
                self.spec_input_ids(),
                self.spec_inputs(),
                input_types@,
                r,
            ),
    {
        let tvk_preimage = vec![self.tvk];
        let tp = tvk_preimage.as_slice();
        let t = hash_psd2(tp);
        assert(tp@ == seq![self.tvk]);
        assert(hashes_to(*hash_psd2, seq![self.tvk], t));
        match t {
            Err(_) => false,
            Ok(c) => {
                if c != self.tcm {
                    return false;
                }
                let ghost step = request_input_steps(
                    *hash_psd4,
                    *encrypt,
                    *hash_psd8,
                    *record_check,
                    function_id,
                    self.tvk,
                    self.tcm,
                    self.input_ids@,
                    self.inputs@,
                    input_types@,
                );
                let checked = self.check_inputs(input_types, function_id, hash_psd4, encrypt, hash_psd8, record_check);
                match checked {
                    Err(e) => {
                        assert(collects(self.inputs@.len() as int, step, Err::<Seq<Seq<Field>>, Error>(e)));
                        false
                    },
                    Ok(added) => {
                        let ghost parts = choose|parts: Seq<Seq<Field>>|
                            collects(self.inputs@.len() as int, step, Ok(parts)) && added@ == parts.flatten();
                        assert(collects(self.inputs@.len() as int, step, Ok::<Seq<Seq<Field>>, Error>(parts)));
                        let mut message = build_message_header(self.tvk, self.tcm, function_id, is_root, program_checksum);
                        append_fields(&mut message, &added);
                        let mp = message.as_slice();
                        let ok = verify_signature(mp);
                        assert(verify_signature.ensures((mp,), ok));
                        ok
                    },
                }
            },
        }
    }
}

} // verus!
