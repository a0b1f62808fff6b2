//! Value types (of function inputs and outputs) and register types (of the values in a
//! function's registers), their conversions, and the size of a register's value.
use vstd::prelude::*;

use crate::dynamic::{DynamicFuture, DynamicRecord, DYNAMIC_FUTURE_SIZE, DYNAMIC_RECORD_SIZE_IN_BITS};
use crate::error::Error;
use crate::finalize_type::{future_outcome, FinalizeType, FinalizeTypeView};
use crate::plaintext_type::{pt_contains_external_struct, pt_qualify, PlaintextType, PlaintextTypeView};
use crate::program_names::{Identifier, Locator, LocatorView, ProgramID, ProgramIdView};

verus! {

/// A value type, in terms of the views of its parts.
pub enum ValueTypeView {
    Constant(PlaintextTypeView),
    Public(PlaintextTypeView),
    Private(PlaintextTypeView),
    Record(Seq<u8>),
    ExternalRecord(LocatorView),
    Future(LocatorView),
    DynamicRecord,
    DynamicFuture,
}

/// The type of a function's input or output.
#[derive(Debug, PartialEq, Eq)]
pub enum ValueType {
    Constant(PlaintextType),
    Public(PlaintextType),
    Private(PlaintextType),
    Record(Identifier),
    ExternalRecord(Locator),
    Future(Locator),
    DynamicRecord,
    DynamicFuture,
}

impl View for ValueType {
    type V = ValueTypeView;

    open spec fn view(&self) -> ValueTypeView {
        match self {
            ValueType::Constant(p) => ValueTypeView::Constant(p@),
            ValueType::Public(p) => ValueTypeView::Public(p@),
            ValueType::Private(p) => ValueTypeView::Private(p@),
            ValueType::Record(n) => ValueTypeView::Record(n@),
            ValueType::ExternalRecord(l) => ValueTypeView::ExternalRecord(l@),
            ValueType::Future(l) => ValueTypeView::Future(l@),
            ValueType::DynamicRecord => ValueTypeView::DynamicRecord,
            ValueType::DynamicFuture => ValueTypeView::DynamicFuture,
        }
    }
}

/// A register type, in terms of the views of its parts.
pub enum RegisterTypeView {
    Plaintext(PlaintextTypeView),
    Record(Seq<u8>),
    ExternalRecord(LocatorView),
    Future(LocatorView),
    DynamicRecord,
    DynamicFuture,
}

/// The type of a register.
#[derive(Debug, PartialEq, Eq)]
pub enum RegisterType {
    /// A plaintext type.
    Plaintext(PlaintextType),
    /// A record of the same program, by name.
    Record(Identifier),
    /// A record of another program, by locator.
    ExternalRecord(Locator),
    /// A future.
    Future(Locator),
    /// A dynamic record.
    DynamicRecord,
    /// A dynamic future.
    DynamicFuture,
}

impl View for RegisterType {
    type V = RegisterTypeView;

    open spec fn view(&self) -> RegisterTypeView {
        match self {
            RegisterType::Plaintext(p) => RegisterTypeView::Plaintext(p@),
            RegisterType::Record(n) => RegisterTypeView::Record(n@),
            RegisterType::ExternalRecord(l) => RegisterTypeView::ExternalRecord(l@),
            RegisterType::Future(l) => RegisterTypeView::Future(l@),
            RegisterType::DynamicRecord => RegisterTypeView::DynamicRecord,
            RegisterType::DynamicFuture => RegisterTypeView::DynamicFuture,
        }
    }
}

/// The register type of a value type: its plaintext type for a constant, public or
/// private value, else the same kind.
pub open spec fn register_of_value(v: ValueTypeView) -> RegisterTypeView {
    match v {
        ValueTypeView::Constant(p) | ValueTypeView::Public(p) | ValueTypeView::Private(p) => RegisterTypeView::Plaintext(p),
        ValueTypeView::Record(n) => RegisterTypeView::Record(n),
        ValueTypeView::ExternalRecord(l) => RegisterTypeView::ExternalRecord(l),
        ValueTypeView::Future(l) => RegisterTypeView::Future(l),
        ValueTypeView::DynamicRecord => RegisterTypeView::DynamicRecord,
        ValueTypeView::DynamicFuture => RegisterTypeView::DynamicFuture,
    }
}

/// The register type of a finalize type.
pub open spec fn register_of_finalize(f: FinalizeTypeView) -> RegisterTypeView {
    match f {
        FinalizeTypeView::Plaintext(p) => RegisterTypeView::Plaintext(p),
        FinalizeTypeView::Future(l) => RegisterTypeView::Future(l),
        FinalizeTypeView::DynamicFuture => RegisterTypeView::DynamicFuture,
    }
}

/// A register type with its structs and records of the same program made those of
/// program `id`.
pub open spec fn register_qualify(t: RegisterTypeView, id: ProgramIdView) -> RegisterTypeView {
    match t {
        RegisterTypeView::Plaintext(p) => RegisterTypeView::Plaintext(pt_qualify(p, id)),
        RegisterTypeView::Record(n) => RegisterTypeView::ExternalRecord(LocatorView { id, resource: n }),
        _ => t,
    }
}

/// What sizing a register's value may return, given the outcomes of the sizing functions
/// and the future lookup: a plaintext type, as `plaintext_size` sizes it at depth zero; a
/// record or external record, as `record_size` or `external_record_size` do; a future, as
/// finalize types size it; a dynamic record 767 bits, a dynamic future 1012.
pub open spec fn register_size_outcome<F, R, X, G>(
    t: RegisterType,
    plaintext_size: F,
    record_size: R,
    external_record_size: X,
    get_future: G,
    r: Result<usize, Error>,
) -> bool where
    F: Fn(&PlaintextType, usize) -> Result<usize, Error>,
    R: Fn(&Identifier) -> Result<usize, Error>,
    X: Fn(&Locator) -> Result<usize, Error>,
    G: Fn(&Locator) -> Result<Vec<FinalizeType>, Error>,
{
    match t {
        RegisterType::Plaintext(p) => plaintext_size.ensures((&p, 0usize), r),
        RegisterType::Record(n) => record_size.ensures((&n,), r),
        RegisterType::ExternalRecord(l) => external_record_size.ensures((&l,), r),
        RegisterType::Future(l) => future_outcome(plaintext_size, get_future, l, 0, r),
        RegisterType::DynamicRecord => r == Ok::<usize, Error>(DYNAMIC_RECORD_SIZE_IN_BITS),
        RegisterType::DynamicFuture => r == Ok::<usize, Error>(DYNAMIC_FUTURE_SIZE),
    }
}

impl RegisterType {
    /// The register type of a value type.
    pub fn from_value_type(v: ValueType) -> (r: RegisterType)
        ensures
            r@ == register_of_value(v@),
    {
        match v {
            ValueType::Constant(p) | ValueType::Public(p) | ValueType::Private(p) => RegisterType::Plaintext(p),
            ValueType::Record(n) => RegisterType::Record(n),
            ValueType::ExternalRecord(l) => RegisterType::ExternalRecord(l),
            ValueType::Future(l) => RegisterType::Future(l),
            ValueType::DynamicRecord => RegisterType::DynamicRecord,
            ValueType::DynamicFuture => RegisterType::DynamicFuture,
        }
    }

    /// The register type of a finalize type.
    pub fn from_finalize_type(f: FinalizeType) -> (r: RegisterType)
        ensures
            r@ == register_of_finalize(f@),
    {
        match f {
            FinalizeType::Plaintext(p) => RegisterType::Plaintext(p),
            FinalizeType::Future(l) => RegisterType::Future(l),
            FinalizeType::DynamicFuture => RegisterType::DynamicFuture,
        }
    }

    /// The type with its structs and records of the same program made those of program `id`.
    pub fn qualify(self, id: &ProgramID) -> (r: RegisterType)
        ensures
            r@ == register_qualify(self@, id@),
    {
        match self {
            RegisterType::Plaintext(p) => RegisterType::Plaintext(p.qualify(id)),
            RegisterType::Record(n) => RegisterType::ExternalRecord(Locator::new(id.clone(), n)),
            other => other,
        }
    }

    /// Whether the type refers to a struct of another program.
    pub fn contains_external_struct(&self) -> (r: bool)
        ensures
            r == (self@ matches RegisterTypeView::Plaintext(p) && pt_contains_external_struct(p)),
    {
        match self {
            RegisterType::Plaintext(p) => p.contains_external_struct(),
            _ => false,
        }
    }

    /// The number of bits of a value of the register type.
    pub fn size_in_bits<F, R, X, G>(
        &self,
        plaintext_size: &F,
        record_size: &R,
        external_record_size: &X,
        get_future: &G,
    ) -> (r: Result<usize, Error>) where
        F: Fn(&PlaintextType, usize) -> Result<usize, Error>,
        R: Fn(&Identifier) -> Result<usize, Error>,
        X: Fn(&Locator) -> Result<usize, Error>,
        G: Fn(&Locator) -> Result<Vec<FinalizeType>, Error>,
        requires
            forall|p: &PlaintextType, d: usize| plaintext_size.requires((p, d)),
            forall|n: &Identifier| record_size.requires((n,)),
            forall|l: &Locator| external_record_size.requires((l,)),
            forall|l: &Locator| get_future.requires((l,)),
        ensures
            register_size_outcome(*self, *plaintext_size, *record_size, *external_record_size, *get_future, r),
    {
        match self {
            RegisterType::Plaintext(p) => plaintext_size(p, 0),
            RegisterType::Record(n) => record_size(n),
            RegisterType::ExternalRecord(l) => external_record_size(l),
            RegisterType::Future(l) => FinalizeType::future_size_in_bits(l, plaintext_size, get_future),
            RegisterType::DynamicRecord => DynamicRecord::size_in_bits(),
            RegisterType::DynamicFuture => DynamicFuture::size_in_bits(),
        }
    }

    /// The number of raw bits of a value of the register type: as `size_in_bits`, with
    /// the raw sizes of plaintext types and records.
    pub fn size_in_bits_raw<F, R, X, G>(
        &self,
        plaintext_size_raw: &F,
        record_size_raw: &R,
        external_record_size_raw: &X,
        get_future: &G,
    ) -> (r: Result<usize, Error>) where
        F: Fn(&PlaintextType, usize) -> Result<usize, Error>,
        R: Fn(&Identifier) -> Result<usize, Error>,
        X: Fn(&Locator) -> Result<usize, Error>,
        G: Fn(&Locator) -> Result<Vec<FinalizeType>, Error>,
        requires
            forall|p: &PlaintextType, d: usize| plaintext_size_raw.requires((p, d)),
            forall|n: &Identifier| record_size_raw.requires((n,)),
            forall|l: &Locator| external_record_size_raw.requires((l,)),
            forall|l: &Locator| get_future.requires((l,)),
        ensures
            register_size_outcome(
                *self,
                *plaintext_size_raw,
                *record_size_raw,
                *external_record_size_raw,
                *get_future,
                r,
            ),
    {
        match self {
            RegisterType::Plaintext(p) => plaintext_size_raw(p, 0),
            RegisterType::Record(n) => record_size_raw(n),
            RegisterType::ExternalRecord(l) => external_record_size_raw(l),
            RegisterType::Future(l) => FinalizeType::future_size_in_bits_raw(l, plaintext_size_raw, get_future),
            RegisterType::DynamicRecord => DynamicRecord::size_in_bits_raw(),
            RegisterType::DynamicFuture => DynamicFuture::size_in_bits_raw(),
        }
    }
}

} // verus!
