//! Finalize types: the types of the arguments of a finalize block, with their byte
//! encoding, text form and serialized size.
use vstd::prelude::*;
use vstd::string::*;

use crate::dynamic::{DynamicFuture, DYNAMIC_FUTURE_SIZE};
use crate::error::Error;
use crate::identifier_literal::{is_identifier_char, IDENTIFIER_SIZE_IN_BYTES};
use crate::plaintext_type::{
    lemma_pt_bytes_roundtrip, pt_bytes, pt_text, pt_valid, spec_pt_parse, spec_pt_read_le,
    PlaintextType, PlaintextTypeView,
};
use crate::program_names::{
    is_locator, lemma_locator_bytes_roundtrip, locator_bytes_le, locator_text, spec_locator_parse,
    spec_locator_read_le, Locator, LocatorView,
};

verus! {

/// The deepest nesting of data that a finalize type may describe.
pub const MAX_DATA_DEPTH: usize = 32;

/// A finalize type, in terms of the views of its parts.
pub enum FinalizeTypeView {
    Plaintext(PlaintextTypeView),
    Future(LocatorView),
    DynamicFuture,
}

/// A finalize type.
#[derive(Debug, PartialEq, Eq)]
pub enum FinalizeType {
    /// A public plaintext value.
    Plaintext(PlaintextType),
    /// A future of the function at the locator.
    Future(Locator),
    /// A dynamic future.
    DynamicFuture,
}

impl View for FinalizeType {
    type V = FinalizeTypeView;

    open spec fn view(&self) -> FinalizeTypeView {
        match self {
            FinalizeType::Plaintext(p) => FinalizeTypeView::Plaintext(p@),
            FinalizeType::Future(l) => FinalizeTypeView::Future(l@),
            FinalizeType::DynamicFuture => FinalizeTypeView::DynamicFuture,
        }
    }
}

/// A valid finalize type.
pub open spec fn ft_valid(v: FinalizeTypeView) -> bool {
    match v {
        FinalizeTypeView::Plaintext(p) => pt_valid(p),
        FinalizeTypeView::Future(l) => is_locator(l),
        FinalizeTypeView::DynamicFuture => true,
    }
}

/// The byte encoding: a variant byte (0 plaintext, 1 future, 2 dynamic future), then the payload.
pub open spec fn ft_bytes(v: FinalizeTypeView) -> Seq<u8> {
    match v {
        FinalizeTypeView::Plaintext(p) => seq![0u8] + pt_bytes(p),
        FinalizeTypeView::Future(l) => seq![1u8] + locator_bytes_le(l),
        FinalizeTypeView::DynamicFuture => seq![2u8],
    }
}

/// The first byte of a finalize type's encoding tells its variant: 0 for a plaintext, 1
/// for a future, 2 for a dynamic future, which is that byte alone; the payload follows.
pub proof fn lemma_ft_bytes_tags(v: FinalizeTypeView)
    ensures
        ft_bytes(v).len() >= 1,
        v is Plaintext ==> ft_bytes(v)[0] == 0 && ft_bytes(v).subrange(1, ft_bytes(v).len() as int) == pt_bytes(
            v->Plaintext_0,
        ),
        v is Future ==> ft_bytes(v)[0] == 1 && ft_bytes(v).subrange(1, ft_bytes(v).len() as int) == locator_bytes_le(
            v->Future_0,
        ),
        v is DynamicFuture ==> ft_bytes(v) == seq![2u8],
{
    match v {
        FinalizeTypeView::Plaintext(p) => {
            assert(ft_bytes(v).subrange(1, ft_bytes(v).len() as int) =~= pt_bytes(p));
        },
        FinalizeTypeView::Future(l) => {
            assert(ft_bytes(v).subrange(1, ft_bytes(v).len() as int) =~= locator_bytes_le(l));
        },
        FinalizeTypeView::DynamicFuture => {},
    }
}

/// The outcome of reading a finalize type from the front of `s`: the type and the number
/// of bytes read.
pub open spec fn spec_ft_read_le(s: Seq<u8>) -> Result<(FinalizeTypeView, int), Error> {
    if s.len() < 1 {
        Err(Error::UnexpectedEnd)
    } else if s[0] == 0 {
        match spec_pt_read_le(s.subrange(1, s.len() as int)) {
            Ok((p, k)) => Ok((FinalizeTypeView::Plaintext(p), 1 + k)),
            Err(e) => Err(e),
        }
    } else if s[0] == 1 {
        match spec_locator_read_le(s.subrange(1, s.len() as int)) {
            Ok((l, k)) => Ok((FinalizeTypeView::Future(l), 1 + k)),
            Err(e) => Err(e),
        }
    } else if s[0] == 2 {
        Ok((FinalizeTypeView::DynamicFuture, 1))
    } else {
        Err(Error::InvalidVariant)
    }
}

/// The bytes `.public`.
pub open spec fn public_suffix() -> Seq<u8> {
    seq![0x2eu8, 0x70, 0x75, 0x62, 0x6c, 0x69, 0x63]
}

/// The bytes `.future`.
pub open spec fn future_suffix() -> Seq<u8> {
    seq![0x2eu8, 0x66, 0x75, 0x74, 0x75, 0x72, 0x65]
}

/// The bytes `dynamic.future`.
pub open spec fn dynamic_future_text() -> Seq<u8> {
    seq![0x64u8, 0x79, 0x6e, 0x61, 0x6d, 0x69, 0x63] + future_suffix()
}

/// The text of a finalize type: `<type>.public`, `<locator>.future` or `dynamic.future`.
pub open spec fn ft_text(v: FinalizeTypeView) -> Seq<u8> {
    match v {
        FinalizeTypeView::Plaintext(p) => pt_text(p) + public_suffix(),
        FinalizeTypeView::Future(l) => locator_text(l) + future_suffix(),
        FinalizeTypeView::DynamicFuture => dynamic_future_text(),
    }
}

/// Whether `b` holds `word` at `i`.
pub open spec fn has_at(b: Seq<u8>, i: int, word: Seq<u8>) -> bool {
    0 <= i && i + word.len() <= b.len() && b.subrange(i, i + word.len()) == word
}

/// The outcome of parsing a finalize type from the front of `b`: a locator followed by
/// `.future`, else `dynamic.future`, else a plaintext type followed by `.public`.
pub open spec fn spec_ft_parse(b: Seq<u8>) -> Result<(FinalizeTypeView, int), Error> {
    if spec_locator_parse(b) is Ok && has_at(b, spec_locator_parse(b)->Ok_0.1, future_suffix()) {
        Ok((FinalizeTypeView::Future(spec_locator_parse(b)->Ok_0.0), spec_locator_parse(b)->Ok_0.1 + 7))
    } else if has_at(b, 0, dynamic_future_text()) {
        Ok((FinalizeTypeView::DynamicFuture, 14))
    } else {
        match spec_pt_parse(b) {
            Err(e) => Err(e),
            Ok((p, k)) => if has_at(b, k, public_suffix()) {
                Ok((FinalizeTypeView::Plaintext(p), k + 7))
            } else {
                Err(Error::Syntax)
            },
        }
    }
}

/// Reading back the bytes of a valid finalize type gives it, whatever follows.
pub proof fn lemma_ft_bytes_roundtrip(v: FinalizeTypeView, rest: Seq<u8>)
    requires
        ft_valid(v),
    ensures
        spec_ft_read_le(ft_bytes(v) + rest) == Ok::<(FinalizeTypeView, int), Error>(
            (v, ft_bytes(v).len() as int),
        ),
{
    let s = ft_bytes(v) + rest;
    match v {
        FinalizeTypeView::Plaintext(p) => {
            assert(s.subrange(1, s.len() as int) =~= pt_bytes(p) + rest);
            lemma_pt_bytes_roundtrip(p, rest);
        },
        FinalizeTypeView::Future(l) => {
            assert(s.subrange(1, s.len() as int) =~= locator_bytes_le(l) + rest);
            lemma_locator_bytes_roundtrip(l, rest);
        },
        FinalizeTypeView::DynamicFuture => {},
    }
}

/// The bits that a future spends before its arguments: the program name's length (16)
/// and bits, the network's bits, the function name's length (16) and bits, and the
/// number of arguments (8).
pub open spec fn future_header_bits(l: LocatorView) -> int {
    16 + 8 * l.id.name.len() as int + 8 * l.id.network.len() as int + 16 + 8 * l.resource.len() as int + 8
}

/// The bits that an argument of `a` bits takes: its variant bit, its length (16 bits, or
/// 32 when `a` does not fit in 16 bits) and its own bits.
pub open spec fn argument_bits(a: int) -> int {
    1 + (if a <= 0xffff {
        16int
    } else {
        32int
    }) + a
}

/// The size that adding up the arguments' outcomes `rs` to `acc`, over `n` arguments,
/// produces, stopping at the first error or overflow of `usize`; `None` when `rs` is not
/// exactly the outcomes that the summing consults.
pub open spec fn fold_arguments(acc: int, rs: Seq<Result<usize, Error>>, n: nat) -> Option<Result<usize, Error>>
    decreases n,
{
    if n == 0 {
        if rs.len() == 0 {
            Some(Ok(acc as usize))
        } else {
            None
        }
    } else if acc + 1 > usize::MAX {
        if rs.len() == 0 {
            Some(Err(Error::Overflow))
        } else {
            None
        }
    } else if rs.len() == 0 {
        None
    } else {
        match rs[0] {
            Err(e) => if rs.len() == 1 {
                Some(Err(e))
            } else {
                None
            },
            Ok(a) => if acc + argument_bits(a as int) > usize::MAX {
                if rs.len() == 1 {
                    Some(Err(Error::Overflow))
                } else {
                    None
                }
            } else {
                fold_arguments(acc + argument_bits(a as int), rs.drop_first(), (n - 1) as nat)
            },
        }
    }
}

/// What sizing a finalize type at `depth` may return, given the outcomes that the
/// plaintext sizing `pf` and the future lookup `gf` may give: past the depth limit an
/// error; a plaintext type, an outcome of `pf`; a dynamic future, 1012; a future, as
/// `future_outcome` says.
pub open spec fn size_outcome<F, G>(pf: F, gf: G, ft: FinalizeType, depth: int, r: Result<usize, Error>) -> bool where
    F: Fn(&PlaintextType, usize) -> Result<usize, Error>,
    G: Fn(&Locator) -> Result<Vec<FinalizeType>, Error>,
    decreases MAX_DATA_DEPTH + 1 - depth, 1int,
{
    if depth < 0 || depth > MAX_DATA_DEPTH {
        r == Err::<usize, Error>(Error::DepthExceeded)
    } else {
        match ft {
            FinalizeType::Plaintext(p) => pf.ensures((&p, depth as usize), r),
            FinalizeType::DynamicFuture => r == Ok::<usize, Error>(DYNAMIC_FUTURE_SIZE),
            FinalizeType::Future(l) => future_outcome(pf, gf, l, depth, r),
        }
    }
}

/// What sizing the future of `l` at `depth` may return: the lookup's error, or the header
/// bits and each argument's bits (sized at `depth + 1`), summed until an error or an overflow.
pub open spec fn future_outcome<F, G>(pf: F, gf: G, l: Locator, depth: int, r: Result<usize, Error>) -> bool where
    F: Fn(&PlaintextType, usize) -> Result<usize, Error>,
    G: Fn(&Locator) -> Result<Vec<FinalizeType>, Error>,
    decreases MAX_DATA_DEPTH + 1 - depth, 0int,
{
    if depth < 0 || depth > MAX_DATA_DEPTH {
        r == Err::<usize, Error>(Error::DepthExceeded)
    } else {
        exists|g: Result<Vec<FinalizeType>, Error>, rs: Seq<Result<usize, Error>>|
            #![trigger gf.ensures((&l,), g), fold_arguments(future_header_bits(l@), rs, 0)]
            gf.ensures((&l,), g) && match g {
                Err(e) => r == Err::<usize, Error>(e),
                Ok(args) => {
                    &&& rs.len() <= args@.len()
                    &&& forall|i: int| 0 <= i < rs.len() ==> size_outcome(pf, gf, args@[i], depth + 1, #[trigger] rs[i])
                    &&& fold_arguments(future_header_bits(l@), rs, args@.len()) == Some(r)
                },
            }
    }
}

/// The header bits of the future of `l`.
fn future_header(l: &Locator) -> (r: usize)
    ensures
        r == future_header_bits(l@),
        r <= 800,
{
    let n = l.name().size_in_bits() as usize;
    let w = l.network().size_in_bits() as usize;
    let f = l.resource().size_in_bits() as usize;
    16 + n + w + 16 + f + 8
}

/// Sums the bits of the arguments `args[i..]` onto `acc`, sizing each at `depth`; returns
/// the size and, as a ghost value, the outcomes of the arguments it sized.
fn size_of_arguments<F, G>(
    args: &Vec<FinalizeType>,
    i: usize,
    acc: usize,
    plaintext_size: &F,
    get_future: &G,
    depth: usize,
) -> (r: (Result<usize, Error>, Ghost<Seq<Result<usize, Error>>>)) where
    F: Fn(&PlaintextType, usize) -> Result<usize, Error>,
    G: Fn(&Locator) -> Result<Vec<FinalizeType>, Error>,
    requires
        i <= args@.len(),
        depth <= MAX_DATA_DEPTH,
        forall|p: &PlaintextType, d: usize| plaintext_size.requires((p, d)),
        forall|l: &Locator| get_future.requires((l,)),
    ensures
        r.1@.len() <= args@.len() - i,
        forall|j: int| 0 <= j < r.1@.len() ==> size_outcome(*plaintext_size, *get_future, args@[i + j], depth + 1, #[trigger] r.1@[j]),
        fold_arguments(acc as int, r.1@, (args@.len() - i) as nat) == Some(r.0),
    decreases MAX_DATA_DEPTH + 1 - depth, 0int, args@.len() - i,
{
    if i >= args.len() {
        return (Ok(acc), Ghost(Seq::empty()));
    }
    let acc1 = match acc.checked_add(1) {
        Some(x) => x,
        None => {
            return (Err(Error::Overflow), Ghost(Seq::empty()));
        },
    };
    let ri = args[i].size_in_bits_internal(plaintext_size, get_future, depth + 1);
    let ghost one: Seq<Result<usize, Error>> = seq![ri];
    let a = match ri {
        Ok(a) => a,
        Err(e) => {
            return (Err(e), Ghost(one));
        },
    };
    let hdr: usize = if a <= 0xffff {
        16
    } else {
        32
    };
    let acc2 = match acc1.checked_add(hdr) {
        Some(x) => x,
        None => {
            return (Err(Error::Overflow), Ghost(one));
        },
    };
    let acc3 = match acc2.checked_add(a) {
        Some(x) => x,
        None => {
            return (Err(Error::Overflow), Ghost(one));
        },
    };
    let (r2, Ghost(rs2)) = size_of_arguments(args, i + 1, acc3, plaintext_size, get_future, depth);
    proof {
        let rs = one + rs2;
        assert(rs.drop_first() =~= rs2);
        assert forall|j: int| 0 <= j < rs.len() implies size_outcome(*plaintext_size, *get_future, args@[i + j], depth + 1, #[trigger] rs[j]) by {
            if j > 0 {
                assert(rs[j] == rs2[j - 1]);
                assert(args@[i + j] == args@[(i + 1) + (j - 1)]);
            }
        }
    }
    (r2, Ghost(one + rs2))
}

/// Sizes the future of `l` at `depth`.
fn size_of_future<F, G>(l: &Locator, plaintext_size: &F, get_future: &G, depth: usize) -> (r: Result<usize, Error>) where
    F: Fn(&PlaintextType, usize) -> Result<usize, Error>,
    G: Fn(&Locator) -> Result<Vec<FinalizeType>, Error>,
    requires
        depth <= MAX_DATA_DEPTH,
        forall|p: &PlaintextType, d: usize| plaintext_size.requires((p, d)),
        forall|l: &Locator| get_future.requires((l,)),
    ensures
        future_outcome(*plaintext_size, *get_future, *l, depth as int, r),
    decreases MAX_DATA_DEPTH + 1 - depth, 1int, 0int,
{
    let header = future_header(l);
    let g = get_future(l);
    match g {
        Err(e) => {
            proof {
                let rs = Seq::<Result<usize, Error>>::empty();
                assert(get_future.ensures((l,), g));
                assert(fold_arguments(future_header_bits(l@), rs, 0) == Some(Ok::<usize, Error>(header)));
            }
            Err(e)
        },
        Ok(args) => {
            let (r, Ghost(rs)) = size_of_arguments(&args, 0, header, plaintext_size, get_future, depth);
            proof {
                assert(get_future.ensures((l,), Ok::<Vec<FinalizeType>, Error>(args)));
                assert forall|i: int| 0 <= i < rs.len() implies size_outcome(*plaintext_size, *get_future, args@[i], depth + 1, #[trigger] rs[i]) by {
                    assert(args@[0 + i] == args@[i]);
                }
                let _ = fold_arguments(future_header_bits(l@), rs, 0);
            }
            r
        },
    }
}

impl Clone for FinalizeType {
    fn clone(&self) -> (r: Self)
        ensures
            r@ == self@,
    {
        match self {
            FinalizeType::Plaintext(p) => FinalizeType::Plaintext(p.clone()),
            FinalizeType::Future(l) => FinalizeType::Future(l.clone()),
            FinalizeType::DynamicFuture => FinalizeType::DynamicFuture,
        }
    }
}

impl FinalizeType {
    /// The number of bits of the future of `locator`, whose argument types `get_future`
    /// looks up and whose plaintext arguments `plaintext_size` sizes.
    pub fn future_size_in_bits<F, G>(locator: &Locator, plaintext_size: &F, get_future: &G) -> (r: Result<usize, Error>) where
        F: Fn(&PlaintextType, usize) -> Result<usize, Error>,
        G: Fn(&Locator) -> Result<Vec<FinalizeType>, Error>,
        requires
            forall|p: &PlaintextType, d: usize| plaintext_size.requires((p, d)),
            forall|l: &Locator| get_future.requires((l,)),
        ensures
            future_outcome(*plaintext_size, *get_future, *locator, 0, r),
    {
        size_of_future(locator, plaintext_size, get_future, 0)
    }

    /// The number of raw bits of the future of `locator`: the same as its number of bits.
    pub fn future_size_in_bits_raw<F, G>(locator: &Locator, plaintext_size: &F, get_future: &G) -> (r: Result<usize, Error>) where
        F: Fn(&PlaintextType, usize) -> Result<usize, Error>,
        G: Fn(&Locator) -> Result<Vec<FinalizeType>, Error>,
        requires
            forall|p: &PlaintextType, d: usize| plaintext_size.requires((p, d)),
            forall|l: &Locator| get_future.requires((l,)),
        ensures
            future_outcome(*plaintext_size, *get_future, *locator, 0, r),
    {
        Self::future_size_in_bits(locator, plaintext_size, get_future)
    }

    /// The number of bits of the finalize type at nesting `depth`: an error past the
    /// depth limit; for a plaintext type, what `plaintext_size` says; for a dynamic future,
    /// four field elements; for a future, its header and arguments.
    pub fn size_in_bits_internal<F, G>(&self, plaintext_size: &F, get_future: &G, depth: usize) -> (r: Result<usize, Error>) where
        F: Fn(&PlaintextType, usize) -> Result<usize, Error>,
        G: Fn(&Locator) -> Result<Vec<FinalizeType>, Error>,
        requires
            forall|p: &PlaintextType, d: usize| plaintext_size.requires((p, d)),
            forall|l: &Locator| get_future.requires((l,)),
        ensures
            size_outcome(*plaintext_size, *get_future, *self, depth as int, r),
        decreases MAX_DATA_DEPTH + 1 - depth, 2int, 0int,
    {
        if depth > MAX_DATA_DEPTH {
            return Err(Error::DepthExceeded);
        }
        match self {
            FinalizeType::Plaintext(p) => plaintext_size(p, depth),
            FinalizeType::Future(l) => size_of_future(l, plaintext_size, get_future, depth),
            FinalizeType::DynamicFuture => DynamicFuture::size_in_bits(),
        }
    }

    /// Appends the byte encoding to `out`.
    pub fn write_le(&self, out: &mut Vec<u8>)
        ensures
            final(out)@ == old(out)@ + ft_bytes(self@),
    {
        let ghost start = out@;
        match self {
            FinalizeType::Plaintext(p) => {
                out.push(0);
                p.write_le(out);
            },
            FinalizeType::Future(l) => {
                out.push(1);
                l.write_le(out);
            },
            FinalizeType::DynamicFuture => {
                out.push(2);
            },
        }
        assert(out@ =~= start + ft_bytes(self@));
    }

    /// The byte encoding.
    pub fn to_bytes_le(&self) -> (r: Vec<u8>)
        ensures
            r@ == ft_bytes(self@),
    {
        let mut out: Vec<u8> = Vec::new();
        self.write_le(&mut out);
        assert(out@ =~= ft_bytes(self@));
        out
    }

    /// Reads a finalize type from the bytes of `s` at `pos`; returns it and the position after it.
    pub fn read_le(s: &[u8], pos: usize) -> (r: Result<(FinalizeType, usize), Error>)
        requires
            pos <= s@.len(),
        ensures
            r matches Ok((t, end)) ==> pos <= end <= s@.len() && spec_ft_read_le(
                s@.subrange(pos as int, s@.len() as int),
            ) == Ok::<(FinalizeTypeView, int), Error>((t@, end - pos)),
            r matches Err(e) ==> spec_ft_read_le(s@.subrange(pos as int, s@.len() as int)) == Err::<
                (FinalizeTypeView, int),
                Error,
            >(e),
    {
        let ghost rest = s@.subrange(pos as int, s@.len() as int);
        if pos >= s.len() {
            return Err(Error::UnexpectedEnd);
        }
        let tag = s[pos];
        assert(rest.subrange(1, rest.len() as int) =~= s@.subrange(pos + 1, s@.len() as int));
        if tag == 0 {
            match PlaintextType::read_le(s, pos + 1) {
                Ok((p, end)) => Ok((FinalizeType::Plaintext(p), end)),
                Err(e) => Err(e),
            }
        } else if tag == 1 {
            match Locator::read_le(s, pos + 1) {
                Ok((l, end)) => Ok((FinalizeType::Future(l), end)),
                Err(e) => Err(e),
            }
        } else if tag == 2 {
            Ok((FinalizeType::DynamicFuture, pos + 1))
        } else {
            Err(Error::InvalidVariant)
        }
    }

    /// Reads a finalize type from the whole of `s`.
    pub fn from_bytes_le(s: &[u8]) -> (r: Result<FinalizeType, Error>)
        ensures
            r matches Ok(t) ==> spec_ft_read_le(s@) == Ok::<(FinalizeTypeView, int), Error>(
                (t@, s@.len() as int),
            ),
            r matches Err(e) ==> match spec_ft_read_le(s@) {
                Ok((_, k)) => k < s@.len() && e == Error::TrailingInput,
                Err(e2) => e == e2,
            },
    {
        assert(s@.subrange(0, s@.len() as int) =~= s@);
        match Self::read_le(s, 0) {
            Ok((t, end)) => if end == s.len() {
                Ok(t)
            } else {
                Err(Error::TrailingInput)
            },
            Err(e) => Err(e),
        }
    }

    /// Appends the text of the type to `out`.
    pub fn push_text(&self, out: &mut Vec<u8>)
        ensures
            final(out)@ == old(out)@ + ft_text(self@),
    {
        let ghost start = out@;
        match self {
            FinalizeType::Plaintext(p) => {
                p.push_text(out);
                push_bytes(out, &[0x2eu8, 0x70, 0x75, 0x62, 0x6c, 0x69, 0x63]);
            },
            FinalizeType::Future(l) => {
                l.push_text(out);
                push_bytes(out, &[0x2eu8, 0x66, 0x75, 0x74, 0x75, 0x72, 0x65]);
            },
            FinalizeType::DynamicFuture => {
                push_bytes(
                    out,
                    &[0x64u8, 0x79, 0x6e, 0x61, 0x6d, 0x69, 0x63, 0x2e, 0x66, 0x75, 0x74, 0x75, 0x72, 0x65],
                );
            },
        }
        assert(out@ =~= start + ft_text(self@));
    }

    /// Parses a finalize type from the bytes of `b` at `pos`; returns it and the position after it.
    pub fn parse_at(b: &[u8], pos: usize) -> (r: Result<(FinalizeType, usize), Error>)
        requires
            pos <= b@.len(),
        ensures
            r matches Ok((t, end)) ==> pos <= end <= b@.len() && spec_ft_parse(
                b@.subrange(pos as int, b@.len() as int),
            ) == Ok::<(FinalizeTypeView, int), Error>((t@, end - pos)),
            r matches Err(e) ==> spec_ft_parse(b@.subrange(pos as int, b@.len() as int)) == Err::<
                (FinalizeTypeView, int),
                Error,
            >(e),
    {
        let ghost rest = b@.subrange(pos as int, b@.len() as int);
        let blen = b.len();
        let future = [0x2eu8, 0x66, 0x75, 0x74, 0x75, 0x72, 0x65];
        let public = [0x2eu8, 0x70, 0x75, 0x62, 0x6c, 0x69, 0x63];
        let dynamic = [0x64u8, 0x79, 0x6e, 0x61, 0x6d, 0x69, 0x63, 0x2e, 0x66, 0x75, 0x74, 0x75, 0x72, 0x65];
        assert(future@ =~= future_suffix());
        assert(public@ =~= public_suffix());
        assert(dynamic@ =~= dynamic_future_text());
        match Locator::parse_at(b, pos) {
            Ok((l, end)) => {
                if has_bytes_at(b, end, &future) {
                    proof {
                        assert(rest.subrange(end - pos, end - pos + 7) =~= b@.subrange(end as int, end + 7));
                    }
                    return Ok((FinalizeType::Future(l), end + 7));
                }
                proof {
                    if has_at(rest, end - pos, future_suffix()) {
                        assert(rest.subrange(end - pos, end - pos + 7) =~= b@.subrange(end as int, end + 7));
                    }
                }
            },
            Err(_) => {},
        }
        if has_bytes_at(b, pos, &dynamic) {
            proof {
                assert(rest.subrange(0, 14) =~= b@.subrange(pos as int, pos + 14));
            }
            return Ok((FinalizeType::DynamicFuture, pos + 14));
        }
        proof {
            if has_at(rest, 0, dynamic_future_text()) {
                assert(rest.subrange(0, 14) =~= b@.subrange(pos as int, pos + 14));
            }
        }
        match PlaintextType::parse_at(b, pos) {
            Err(e) => Err(e),
            Ok((p, end)) => {
                proof {
                    if end + 7 <= b@.len() {
                        assert(rest.subrange(end - pos, end - pos + 7) =~= b@.subrange(end as int, end + 7));
                    }
                }
                if has_bytes_at(b, end, &public) {
                    Ok((FinalizeType::Plaintext(p), end + 7))
                } else {
                    Err(Error::Syntax)
                }
            },
        }
    }

    /// Parses a finalize type from the whole of `s`.
    pub fn from_str(s: &str) -> (r: Result<FinalizeType, Error>)
        ensures
            r matches Ok(t) ==> spec_ft_parse(s.spec_bytes()) == Ok::<(FinalizeTypeView, int), Error>(
                (t@, s.spec_bytes().len() as int),
            ),
            r matches Err(e) ==> match spec_ft_parse(s.spec_bytes()) {
                Ok((_, k)) => k < s.spec_bytes().len() && e == Error::TrailingInput,
                Err(e2) => e == e2,
            },
    {
        let b = s.as_bytes();
        assert(b@.subrange(0, b@.len() as int) =~= b@);
        match Self::parse_at(b, 0) {
            Ok((t, end)) => if end == b.len() {
                Ok(t)
            } else {
                Err(Error::TrailingInput)
            },
            Err(e) => Err(e),
        }
    }
}

/// Whether `b` holds `word` at `i`.
pub fn has_bytes_at(b: &[u8], i: usize, word: &[u8]) -> (r: bool)
    ensures
        r == has_at(b@, i as int, word@),
{
    let n = word.len();
    let len = b.len();
    if i > len || len - i < n {
        return false;
    }
    let mut j: usize = 0;
    while j < n
        invariant
            j <= n,
            n == word@.len(),
            len == b@.len(),
            i + n <= len,
            forall|k: int| 0 <= k < j ==> b@[i + k] == word@[k],
        decreases n - j,
    {
        if b[i + j] != word[j] {
            assert(b@.subrange(i as int, i + n)[j as int] != word@[j as int]);
            return false;
        }
        j = j + 1;
    }
    assert(b@.subrange(i as int, i + n) =~= word@);
    true
}

/// Appends the bytes of `w` to `out`.
pub fn push_bytes(out: &mut Vec<u8>, w: &[u8])
    ensures
        final(out)@ == old(out)@ + w@,
{
    let ghost start = out@;
    let mut i: usize = 0;
    while i < w.len()
        invariant
            i <= w@.len(),
            out@ == start + w@.subrange(0, i as int),
        decreases w@.len() - i,
    {
        out.push(w[i]);
        i = i + 1;
        assert(out@ =~= start + w@.subrange(0, i as int));
    }
    assert(w@.subrange(0, w@.len() as int) =~= w@);
}

} // verus!
