//! Names in Aleo programs: identifiers, program IDs (`name.aleo`) and locators
//! (`name.aleo/resource`), with their byte encodings and text forms.
use vstd::prelude::*;
use vstd::string::*;
use vstd::utf8::*;

use crate::error::Error;
use crate::identifier_literal::{
    identifier_end_from, is_identifier, is_identifier_byte, is_identifier_char, is_letter,
    is_letter_byte, IDENTIFIER_SIZE_IN_BYTES,
};
use crate::literal_type::{is_literal_type_name, LiteralType};
use crate::text::{chars_of_bytes, push_ascii, push_char};

verus! {

/// Whether every byte of `s` may stand inside an identifier.
pub open spec fn all_identifier_chars(s: Seq<u8>) -> bool {
    forall|i: int| 0 <= i < s.len() ==> is_identifier_char(#[trigger] s[i])
}

/// The outcome of making an identifier from its text: a letter, then letters, digits or
/// underscores, at most 31 bytes, and not the name of a literal type.
pub open spec fn spec_name_from_str(s: Seq<u8>) -> Result<Seq<u8>, Error> {
    if s.len() == 0 {
        Err(Error::InvalidLength)
    } else if !is_letter(s[0]) || !all_identifier_chars(s) {
        Err(Error::InvalidCharacter)
    } else if s.len() > IDENTIFIER_SIZE_IN_BYTES {
        Err(Error::InvalidLength)
    } else if is_literal_type_name(s) {
        Err(Error::ReservedName)
    } else {
        Ok(s)
    }
}

/// A valid identifier.
pub open spec fn is_name(s: Seq<u8>) -> bool {
    is_identifier(s) && !is_literal_type_name(s)
}

/// The byte encoding of an identifier: its length as one byte, then its bytes.
pub open spec fn name_bytes_le(s: Seq<u8>) -> Seq<u8> {
    seq![s.len() as u8] + s
}

/// The outcome of reading an identifier from the front of `s`: the identifier and the
/// number of bytes read.
pub open spec fn spec_name_read_le(s: Seq<u8>) -> Result<(Seq<u8>, int), Error> {
    if s.len() < 1 || s.len() < 1 + s[0] {
        Err(Error::UnexpectedEnd)
    } else {
        match spec_name_from_str(s.subrange(1, 1 + s[0])) {
            Ok(c) => Ok((c, 1 + s[0])),
            Err(e) => Err(e),
        }
    }
}

/// The outcome of parsing an identifier from the front of the bytes `b`: the longest run
/// of identifier bytes, which must start with a letter.
pub open spec fn spec_name_parse(b: Seq<u8>) -> Result<(Seq<u8>, int), Error> {
    if b.len() < 1 || !is_letter(b[0]) {
        Err(Error::Syntax)
    } else {
        let e = identifier_end_from(b, 0);
        match spec_name_from_str(b.subrange(0, e)) {
            Ok(c) => Ok((c, e)),
            Err(x) => Err(x),
        }
    }
}

/// The bytes `aleo`, the only network of program IDs.
pub open spec fn aleo_bytes() -> Seq<u8> {
    seq![0x61u8, 0x6c, 0x65, 0x6f]
}

/// A program ID: a name and a network, as their bytes.
pub struct ProgramIdView {
    pub name: Seq<u8>,
    pub network: Seq<u8>,
}

/// A locator: a program ID and a resource name.
pub struct LocatorView {
    pub id: ProgramIdView,
    pub resource: Seq<u8>,
}

/// A valid program ID: two identifiers, the network `aleo`.
pub open spec fn is_program_id(p: ProgramIdView) -> bool {
    is_name(p.name) && is_name(p.network) && p.network == aleo_bytes()
}

/// A valid locator.
pub open spec fn is_locator(l: LocatorView) -> bool {
    is_program_id(l.id) && is_name(l.resource)
}

/// The byte encoding of a program ID: the name, then the network.
pub open spec fn program_id_bytes_le(p: ProgramIdView) -> Seq<u8> {
    name_bytes_le(p.name) + name_bytes_le(p.network)
}

/// The byte encoding of a locator: the program ID, then the resource.
pub open spec fn locator_bytes_le(l: LocatorView) -> Seq<u8> {
    program_id_bytes_le(l.id) + name_bytes_le(l.resource)
}

/// The outcome of reading a program ID from the front of `s`.
pub open spec fn spec_program_id_read_le(s: Seq<u8>) -> Result<(ProgramIdView, int), Error> {
    match spec_name_read_le(s) {
        Err(e) => Err(e),
        Ok((name, k)) => match spec_name_read_le(s.subrange(k, s.len() as int)) {
            Err(e) => Err(e),
            Ok((network, j)) => if network == aleo_bytes() {
                Ok((ProgramIdView { name, network }, k + j))
            } else {
                Err(Error::InvalidNetwork)
            },
        },
    }
}

/// The outcome of reading a locator from the front of `s`.
pub open spec fn spec_locator_read_le(s: Seq<u8>) -> Result<(LocatorView, int), Error> {
    match spec_program_id_read_le(s) {
        Err(e) => Err(e),
        Ok((id, k)) => match spec_name_read_le(s.subrange(k, s.len() as int)) {
            Err(e) => Err(e),
            Ok((resource, j)) => Ok((LocatorView { id, resource }, k + j)),
        },
    }
}

/// The outcome of parsing `name.network` from the front of `b`.
pub open spec fn spec_program_id_parse(b: Seq<u8>) -> Result<(ProgramIdView, int), Error> {
    match spec_name_parse(b) {
        Err(e) => Err(e),
        Ok((name, k)) => if k >= b.len() || b[k] != 0x2e {
            Err(Error::Syntax)
        } else {
            match spec_name_parse(b.subrange(k + 1, b.len() as int)) {
                Err(e) => Err(e),
                Ok((network, j)) => if network == aleo_bytes() {
                    Ok((ProgramIdView { name, network }, k + 1 + j))
                } else {
                    Err(Error::InvalidNetwork)
                },
            }
        },
    }
}

/// The outcome of parsing `name.network/resource` from the front of `b`.
pub open spec fn spec_locator_parse(b: Seq<u8>) -> Result<(LocatorView, int), Error> {
    match spec_program_id_parse(b) {
        Err(e) => Err(e),
        Ok((id, k)) => if k >= b.len() || b[k] != 0x2f {
            Err(Error::Syntax)
        } else {
            match spec_name_parse(b.subrange(k + 1, b.len() as int)) {
                Err(e) => Err(e),
                Ok((resource, j)) => Ok((LocatorView { id, resource }, k + 1 + j)),
            }
        },
    }
}

/// The text of a program ID.
pub open spec fn program_id_text(p: ProgramIdView) -> Seq<u8> {
    p.name + seq![0x2eu8] + p.network
}

/// The text of a locator.
pub open spec fn locator_text(l: LocatorView) -> Seq<u8> {
    program_id_text(l.id) + seq![0x2fu8] + l.resource
}

/// An identifier.
#[derive(Debug, PartialEq, Eq)]
pub struct Identifier {
    content: Vec<u8>,
}

impl View for Identifier {
    type V = Seq<u8>;

    closed spec fn view(&self) -> Seq<u8> {
        self.content@
    }
}

/// A program ID, `name.aleo`.
#[derive(Debug, PartialEq, Eq)]
pub struct ProgramID {
    pub name: Identifier,
    pub network: Identifier,
}

impl View for ProgramID {
    type V = ProgramIdView;

    open spec fn view(&self) -> ProgramIdView {
        ProgramIdView { name: self.name@, network: self.network@ }
    }
}

/// A locator, `name.aleo/resource`.
#[derive(Debug, PartialEq, Eq)]
pub struct Locator {
    pub id: ProgramID,
    pub resource: Identifier,
}

impl View for Locator {
    type V = LocatorView;

    open spec fn view(&self) -> LocatorView {
        LocatorView { id: self.id@, resource: self.resource@ }
    }
}

/// A valid identifier is accepted by `spec_name_from_str` exactly.
pub proof fn lemma_name_from_str(s: Seq<u8>)
    ensures
        spec_name_from_str(s) is Ok <==> is_name(s),
        is_name(s) ==> spec_name_from_str(s) == Ok::<Seq<u8>, Error>(s),
{
}

/// Reading back the bytes of an identifier gives it, whatever follows.
pub proof fn lemma_name_bytes_roundtrip(s: Seq<u8>, rest: Seq<u8>)
    requires
        is_name(s),
    ensures
        spec_name_read_le(name_bytes_le(s) + rest) == Ok::<(Seq<u8>, int), Error>((s, 1 + s.len() as int)),
{
    let t = name_bytes_le(s) + rest;
    assert(t[0] == s.len() as u8);
    assert(t.subrange(1, 1 + s.len() as int) =~= s);
}

/// Reading back the bytes of a program ID gives it, whatever follows.
pub proof fn lemma_program_id_bytes_roundtrip(p: ProgramIdView, rest: Seq<u8>)
    requires
        is_program_id(p),
    ensures
        spec_program_id_read_le(program_id_bytes_le(p) + rest) == Ok::<(ProgramIdView, int), Error>(
            (p, program_id_bytes_le(p).len() as int),
        ),
{
    let t = program_id_bytes_le(p) + rest;
    let k = 1 + p.name.len() as int;
    assert(t =~= name_bytes_le(p.name) + (name_bytes_le(p.network) + rest));
    lemma_name_bytes_roundtrip(p.name, name_bytes_le(p.network) + rest);
    assert(t.subrange(k, t.len() as int) =~= name_bytes_le(p.network) + rest);
    lemma_name_bytes_roundtrip(p.network, rest);
}

/// Reading back the bytes of a locator gives it, whatever follows.
pub proof fn lemma_locator_bytes_roundtrip(l: LocatorView, rest: Seq<u8>)
    requires
        is_locator(l),
    ensures
        spec_locator_read_le(locator_bytes_le(l) + rest) == Ok::<(LocatorView, int), Error>(
            (l, locator_bytes_le(l).len() as int),
        ),
{
    let t = locator_bytes_le(l) + rest;
    let k = program_id_bytes_le(l.id).len() as int;
    assert(t =~= program_id_bytes_le(l.id) + (name_bytes_le(l.resource) + rest));
    lemma_program_id_bytes_roundtrip(l.id, name_bytes_le(l.resource) + rest);
    assert(t.subrange(k, t.len() as int) =~= name_bytes_le(l.resource) + rest);
    lemma_name_bytes_roundtrip(l.resource, rest);
}

/// `identifier_end_from` is `n` when the bytes from `i` to `n` are identifier bytes and `n` ends them.
pub proof fn lemma_end_at(b: Seq<u8>, i: int, n: int)
    requires
        0 <= i <= n <= b.len(),
        forall|j: int| i <= j < n ==> is_identifier_char(b[j]),
        n == b.len() || !is_identifier_char(b[n]),
    ensures
        identifier_end_from(b, i) == n,
    decreases n - i,
{
    if i < n {
        lemma_end_at(b, i + 1, n);
    }
}

/// Parsing an identifier followed by a byte that cannot continue it gives the identifier.
pub proof fn lemma_name_parse_text(s: Seq<u8>, rest: Seq<u8>)
    requires
        is_name(s),
        rest.len() == 0 || !is_identifier_char(rest[0]),
    ensures
        spec_name_parse(s + rest) == Ok::<(Seq<u8>, int), Error>((s, s.len() as int)),
{
    let b = s + rest;
    assert forall|j: int| 0 <= j < s.len() implies is_identifier_char(b[j]) by {
        assert(b[j] == s[j]);
    }
    lemma_end_at(b, 0, s.len() as int);
    assert(b.subrange(0, s.len() as int) =~= s);
}

/// Parsing the text of a program ID gives it, when what follows cannot continue it.
pub proof fn lemma_program_id_parse_text(p: ProgramIdView, rest: Seq<u8>)
    requires
        is_program_id(p),
        rest.len() == 0 || !is_identifier_char(rest[0]),
    ensures
        spec_program_id_parse(program_id_text(p) + rest) == Ok::<(ProgramIdView, int), Error>(
            (p, program_id_text(p).len() as int),
        ),
{
    let b = program_id_text(p) + rest;
    let k = p.name.len() as int;
    assert(b =~= p.name + (seq![0x2eu8] + p.network + rest));
    lemma_name_parse_text(p.name, seq![0x2eu8] + p.network + rest);
    assert(b[k] == 0x2eu8);
    assert(b.subrange(k + 1, b.len() as int) =~= p.network + rest);
    lemma_name_parse_text(p.network, rest);
}

/// Parsing the text of a locator gives it, when what follows cannot continue it.
pub proof fn lemma_locator_parse_text(l: LocatorView, rest: Seq<u8>)
    requires
        is_locator(l),
        rest.len() == 0 || !is_identifier_char(rest[0]),
    ensures
        spec_locator_parse(locator_text(l) + rest) == Ok::<(LocatorView, int), Error>(
            (l, locator_text(l).len() as int),
        ),
{
    let b = locator_text(l) + rest;
    let k = program_id_text(l.id).len() as int;
    assert(b =~= program_id_text(l.id) + (seq![0x2fu8] + l.resource + rest));
    lemma_program_id_parse_text(l.id, seq![0x2fu8] + l.resource + rest);
    assert(b[k] == 0x2fu8);
    assert(b.subrange(k + 1, b.len() as int) =~= l.resource + rest);
    lemma_name_parse_text(l.resource, rest);
}

impl Clone for Identifier {
    fn clone(&self) -> (r: Self)
        ensures
            r@ == self@,
    {
        proof {
            use_type_invariant(self);
        }
        let content = self.content.clone();
        assert(content@ =~= self.content@);
        Identifier { content }
    }
}

impl Identifier {
    #[verifier::type_invariant]
    closed spec fn inv(self) -> bool {
        is_name(self.content@)
    }

    /// The identifier is valid.
    pub fn valid(&self) -> (r: bool)
        ensures
            r,
            is_name(self@),
    {
        proof {
            use_type_invariant(self);
        }
        true
    }

    /// Makes an identifier from its bytes.
    pub fn from_bytes(s: &[u8]) -> (r: Result<Identifier, Error>)
        ensures
            r matches Ok(id) ==> spec_name_from_str(s@) == Ok::<Seq<u8>, Error>(id@),
            r matches Err(e) ==> spec_name_from_str(s@) == Err::<Seq<u8>, Error>(e),
    {
        let n = s.len();
        if n == 0 {
            return Err(Error::InvalidLength);
        }
        if !is_letter_byte(s[0]) {
            return Err(Error::InvalidCharacter);
        }
        let mut i: usize = 0;
        while i < n
            invariant
                i <= n,
                n == s@.len(),
                forall|j: int| 0 <= j < i ==> is_identifier_char(#[trigger] s@[j]),
            decreases n - i,
        {
            if !is_identifier_byte(s[i]) {
                assert(!is_identifier_char(s@[i as int]));
                return Err(Error::InvalidCharacter);
            }
            i = i + 1;
        }
        if n > IDENTIFIER_SIZE_IN_BYTES {
            return Err(Error::InvalidLength);
        }
        if LiteralType::from_name(s).is_some() {
            return Err(Error::ReservedName);
        }
        let mut content: Vec<u8> = Vec::new();
        let mut k: usize = 0;
        while k < n
            invariant
                k <= n,
                n == s@.len(),
                content@ == s@.subrange(0, k as int),
            decreases n - k,
        {
            content.push(s[k]);
            k = k + 1;
            assert(content@ =~= s@.subrange(0, k as int));
        }
        assert(content@ =~= s@);
        Ok(Identifier { content })
    }

    /// Makes an identifier from its text.
    pub fn from_str(s: &str) -> (r: Result<Identifier, Error>)
        ensures
            r matches Ok(id) ==> spec_name_from_str(s.spec_bytes()) == Ok::<Seq<u8>, Error>(id@),
            r matches Err(e) ==> spec_name_from_str(s.spec_bytes()) == Err::<Seq<u8>, Error>(e),
    {
        Self::from_bytes(s.as_bytes())
    }

    /// The number of bytes of the identifier.
    pub fn len(&self) -> (r: u8)
        ensures
            r == self@.len(),
            1 <= r <= IDENTIFIER_SIZE_IN_BYTES,
    {
        proof {
            use_type_invariant(self);
        }
        self.content.len() as u8
    }

    /// The number of bits of the identifier's text: eight per byte.
    pub fn size_in_bits(&self) -> (r: u16)
        ensures
            r == 8 * self@.len(),
            1 <= self@.len() <= IDENTIFIER_SIZE_IN_BYTES,
    {
        let n = self.len();
        8 * (n as u16)
    }

    /// Whether two identifiers are equal.
    pub fn is_equal(&self, other: &Identifier) -> (r: bool)
        ensures
            r == (self@ == other@),
    {
        crate::literal_type::bytes_equal(self.content.as_slice(), other.content.as_slice())
    }

    /// Appends the identifier's bytes to `out`.
    pub fn push_text(&self, out: &mut Vec<u8>)
        ensures
            final(out)@ == old(out)@ + self@,
    {
        let ghost start = out@;
        let n = self.content.len();
        let mut i: usize = 0;
        while i < n
            invariant
                i <= n,
                n == self@.len(),
                out@ == start + self@.subrange(0, i as int),
            decreases n - i,
        {
            out.push(self.content[i]);
            i = i + 1;
            assert(out@ =~= start + self@.subrange(0, i as int));
        }
        assert(self@.subrange(0, n as int) =~= self@);
    }

    /// Appends the byte encoding to `out`: the length as one byte, then the bytes.
    pub fn write_le(&self, out: &mut Vec<u8>)
        ensures
            final(out)@ == old(out)@ + name_bytes_le(self@),
    {
        let ghost start = out@;
        out.push(self.len());
        self.push_text(out);
        assert(out@ =~= start + name_bytes_le(self@));
    }

    /// Reads an identifier from the bytes of `s` at `pos`; returns it and the position after it.
    pub fn read_le(s: &[u8], pos: usize) -> (r: Result<(Identifier, usize), Error>)
        requires
            pos <= s@.len(),
        ensures
            r matches Ok((id, end)) ==> pos <= end <= s@.len() && spec_name_read_le(
                s@.subrange(pos as int, s@.len() as int),
            ) == Ok::<(Seq<u8>, int), Error>((id@, end - pos)),
            r matches Err(e) ==> spec_name_read_le(s@.subrange(pos as int, s@.len() as int)) == Err::<
                (Seq<u8>, int),
                Error,
            >(e),
    {
        let ghost rest = s@.subrange(pos as int, s@.len() as int);
        if s.len() - pos < 1 {
            return Err(Error::UnexpectedEnd);
        }
        let n = s[pos] as usize;
        if s.len() - pos - 1 < n {
            return Err(Error::UnexpectedEnd);
        }
        let (head, _) = s.split_at(pos + 1 + n);
        let (_, content) = head.split_at(pos + 1);
        assert(content@ =~= rest.subrange(1, 1 + n));
        match Self::from_bytes(content) {
            Ok(id) => Ok((id, pos + 1 + n)),
            Err(e) => Err(e),
        }
    }

    /// Parses an identifier from the bytes of `b` at `pos`: the longest run of identifier
    /// bytes, which must start with a letter. Returns it and the position after it.
    pub fn parse_at(b: &[u8], pos: usize) -> (r: Result<(Identifier, usize), Error>)
        requires
            pos <= b@.len(),
        ensures
            r matches Ok((id, end)) ==> pos <= end <= b@.len() && spec_name_parse(
                b@.subrange(pos as int, b@.len() as int),
            ) == Ok::<(Seq<u8>, int), Error>((id@, end - pos)),
            r matches Err(e) ==> spec_name_parse(b@.subrange(pos as int, b@.len() as int)) == Err::<
                (Seq<u8>, int),
                Error,
            >(e),
    {
        let ghost rest = b@.subrange(pos as int, b@.len() as int);
        let n = b.len();
        if pos >= n || !is_letter_byte(b[pos]) {
            return Err(Error::Syntax);
        }
        let mut e: usize = pos;
        while e < n && is_identifier_byte(b[e])
            invariant
                pos <= e <= n,
                n == b@.len(),
                forall|j: int| pos <= j < e ==> is_identifier_char(#[trigger] b@[j]),
            decreases n - e,
        {
            e = e + 1;
        }
        proof {
            assert forall|j: int| 0 <= j < e - pos implies is_identifier_char(rest[j]) by {
                assert(rest[j] == b@[pos + j]);
            }
            if e < n {
                assert(rest[e - pos] == b@[e as int]);
            }
            lemma_end_at(rest, 0, e - pos);
        }
        let (head, _) = b.split_at(e);
        let (_, content) = head.split_at(pos);
        assert(content@ =~= rest.subrange(0, e - pos));
        match Self::from_bytes(content) {
            Ok(id) => Ok((id, e)),
            Err(x) => Err(x),
        }
    }
}

impl Clone for ProgramID {
    fn clone(&self) -> (r: Self)
        ensures
            r@ == self@,
    {
        ProgramID { name: self.name.clone(), network: self.network.clone() }
    }
}

impl ProgramID {
    /// A program ID from a name and a network, which must be `aleo`.
    pub fn try_from(name: Identifier, network: Identifier) -> (r: Result<ProgramID, Error>)
        ensures
            r matches Ok(p) ==> p@ == (ProgramIdView { name: name@, network: network@ }) && network@
                == aleo_bytes(),
            r matches Err(e) ==> e == Error::InvalidNetwork && network@ != aleo_bytes(),
    {
        let aleo = vec![0x61u8, 0x6c, 0x65, 0x6f];
        assert(aleo@ =~= aleo_bytes());
        if crate::literal_type::bytes_equal(network.content.as_slice(), aleo.as_slice()) {
            Ok(ProgramID { name, network })
        } else {
            Err(Error::InvalidNetwork)
        }
    }

    /// The program ID is valid.
    pub fn valid(&self) -> (r: bool)
        ensures
            r == is_program_id(self@),
    {
        self.name.valid();
        self.network.valid();
        let aleo = vec![0x61u8, 0x6c, 0x65, 0x6f];
        assert(aleo@ =~= aleo_bytes());
        crate::literal_type::bytes_equal(self.network.content.as_slice(), aleo.as_slice())
    }

    /// Whether two program IDs are equal.
    pub fn is_equal(&self, other: &ProgramID) -> (r: bool)
        ensures
            r == (self@ == other@),
    {
        self.name.is_equal(&other.name) && self.network.is_equal(&other.network)
    }

    /// Appends the byte encoding to `out`.
    pub fn write_le(&self, out: &mut Vec<u8>)
        ensures
            final(out)@ == old(out)@ + program_id_bytes_le(self@),
    {
        let ghost start = out@;
        self.name.write_le(out);
        self.network.write_le(out);
        assert(out@ =~= start + program_id_bytes_le(self@));
    }

    /// Reads a program ID from the bytes of `s` at `pos`; returns it and the position after it.
    pub fn read_le(s: &[u8], pos: usize) -> (r: Result<(ProgramID, usize), Error>)
        requires
            pos <= s@.len(),
        ensures
            r matches Ok((p, end)) ==> pos <= end <= s@.len() && spec_program_id_read_le(
                s@.subrange(pos as int, s@.len() as int),
            ) == Ok::<(ProgramIdView, int), Error>((p@, end - pos)),
            r matches Err(e) ==> spec_program_id_read_le(s@.subrange(pos as int, s@.len() as int))
                == Err::<(ProgramIdView, int), Error>(e),
    {
        let ghost rest = s@.subrange(pos as int, s@.len() as int);
        let (name, p1) = match Identifier::read_le(s, pos) {
            Ok(x) => x,
            Err(e) => {
                return Err(e);
            },
        };
        assert(rest.subrange(p1 - pos, rest.len() as int) =~= s@.subrange(p1 as int, s@.len() as int));
        let (network, p2) = match Identifier::read_le(s, p1) {
            Ok(x) => x,
            Err(e) => {
                return Err(e);
            },
        };
        match Self::try_from(name, network) {
            Ok(p) => Ok((p, p2)),
            Err(e) => Err(e),
        }
    }

    /// Parses `name.network` from the bytes of `b` at `pos`; returns it and the position after it.
    pub fn parse_at(b: &[u8], pos: usize) -> (r: Result<(ProgramID, usize), Error>)
        requires
            pos <= b@.len(),
        ensures
            r matches Ok((p, end)) ==> pos <= end <= b@.len() && spec_program_id_parse(
                b@.subrange(pos as int, b@.len() as int),
            ) == Ok::<(ProgramIdView, int), Error>((p@, end - pos)),
            r matches Err(e) ==> spec_program_id_parse(b@.subrange(pos as int, b@.len() as int))
                == Err::<(ProgramIdView, int), Error>(e),
    {
        let ghost rest = b@.subrange(pos as int, b@.len() as int);
        let (name, p1) = match Identifier::parse_at(b, pos) {
            Ok(x) => x,
            Err(e) => {
                return Err(e);
            },
        };
        if p1 >= b.len() || b[p1] != 0x2e {
            assert(p1 - pos >= rest.len() || rest[p1 - pos] != 0x2e);
            return Err(Error::Syntax);
        }
        assert(rest[p1 - pos] == 0x2e);
        assert(rest.subrange(p1 - pos + 1, rest.len() as int) =~= b@.subrange(
            p1 + 1,
            b@.len() as int,
        ));
        let (network, p2) = match Identifier::parse_at(b, p1 + 1) {
            Ok(x) => x,
            Err(e) => {
                return Err(e);
            },
        };
        match Self::try_from(name, network) {
            Ok(p) => Ok((p, p2)),
            Err(e) => Err(e),
        }
    }

    /// Appends the text `name.network` to `out`.
    pub fn push_text(&self, out: &mut Vec<u8>)
        ensures
            final(out)@ == old(out)@ + program_id_text(self@),
    {
        let ghost start = out@;
        self.name.push_text(out);
        out.push(0x2e);
        self.network.push_text(out);
        assert(out@ =~= start + program_id_text(self@));
    }
}

impl Clone for Locator {
    fn clone(&self) -> (r: Self)
        ensures
            r@ == self@,
    {
        Locator { id: self.id.clone(), resource: self.resource.clone() }
    }
}

impl Locator {
    /// A locator from a program ID and a resource.
    pub fn new(id: ProgramID, resource: Identifier) -> (r: Locator)
        ensures
            r@ == (LocatorView { id: id@, resource: resource@ }),
    {
        Locator { id, resource }
    }

    /// The program name.
    pub fn name(&self) -> (r: &Identifier)
        ensures
            r@ == self@.id.name,
    {
        &self.id.name
    }

    /// The program network.
    pub fn network(&self) -> (r: &Identifier)
        ensures
            r@ == self@.id.network,
    {
        &self.id.network
    }

    /// The resource name.
    pub fn resource(&self) -> (r: &Identifier)
        ensures
            r@ == self@.resource,
    {
        &self.resource
    }

    /// Whether two locators are equal.
    pub fn is_equal(&self, other: &Locator) -> (r: bool)
        ensures
            r == (self@ == other@),
    {
        self.id.is_equal(&other.id) && self.resource.is_equal(&other.resource)
    }

    /// Appends the byte encoding to `out`.
    pub fn write_le(&self, out: &mut Vec<u8>)
        ensures
            final(out)@ == old(out)@ + locator_bytes_le(self@),
    {
        let ghost start = out@;
        self.id.write_le(out);
        self.resource.write_le(out);
        assert(out@ =~= start + locator_bytes_le(self@));
    }

    /// Reads a locator from the bytes of `s` at `pos`; returns it and the position after it.
    pub fn read_le(s: &[u8], pos: usize) -> (r: Result<(Locator, usize), Error>)
        requires
            pos <= s@.len(),
        ensures
            r matches Ok((l, end)) ==> pos <= end <= s@.len() && spec_locator_read_le(
                s@.subrange(pos as int, s@.len() as int),
            ) == Ok::<(LocatorView, int), Error>((l@, end - pos)),
            r matches Err(e) ==> spec_locator_read_le(s@.subrange(pos as int, s@.len() as int))
                == Err::<(LocatorView, int), Error>(e),
    {
        let ghost rest = s@.subrange(pos as int, s@.len() as int);
        let (id, p1) = match ProgramID::read_le(s, pos) {
            Ok(x) => x,
            Err(e) => {
                return Err(e);
            },
        };
        assert(rest.subrange(p1 - pos, rest.len() as int) =~= s@.subrange(p1 as int, s@.len() as int));
        let (resource, p2) = match Identifier::read_le(s, p1) {
            Ok(x) => x,
            Err(e) => {
                return Err(e);
            },
        };
        Ok((Locator { id, resource }, p2))
    }

    /// Parses `name.network/resource` from the bytes of `b` at `pos`; returns it and the
    /// position after it.
    pub fn parse_at(b: &[u8], pos: usize) -> (r: Result<(Locator, usize), Error>)
        requires
            pos <= b@.len(),
        ensures
            r matches Ok((l, end)) ==> pos <= end <= b@.len() && spec_locator_parse(
                b@.subrange(pos as int, b@.len() as int),
            ) == Ok::<(LocatorView, int), Error>((l@, end - pos)),
            r matches Err(e) ==> spec_locator_parse(b@.subrange(pos as int, b@.len() as int)) == Err::<
                (LocatorView, int),
                Error,
            >(e),
    {
        let ghost rest = b@.subrange(pos as int, b@.len() as int);
        let (id, p1) = match ProgramID::parse_at(b, pos) {
            Ok(x) => x,
            Err(e) => {
                return Err(e);
            },
        };
        if p1 >= b.len() || b[p1] != 0x2f {
            assert(p1 - pos >= rest.len() || rest[p1 - pos] != 0x2f);
            return Err(Error::Syntax);
        }
        assert(rest[p1 - pos] == 0x2f);
        assert(rest.subrange(p1 - pos + 1, rest.len() as int) =~= b@.subrange(
            p1 + 1,
            b@.len() as int,
        ));
        let (resource, p2) = match Identifier::parse_at(b, p1 + 1) {
            Ok(x) => x,
            Err(e) => {
                return Err(e);
            },
        };
        Ok((Locator { id, resource }, p2))
    }

    /// Appends the text `name.network/resource` to `out`.
    pub fn push_text(&self, out: &mut Vec<u8>)
        ensures
            final(out)@ == old(out)@ + locator_text(self@),
    {
        let ghost start = out@;
        self.id.push_text(out);
        out.push(0x2f);
        self.resource.push_text(out);
        assert(out@ =~= start + locator_text(self@));
    }
}

} // verus!
