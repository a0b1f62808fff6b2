//! The byte format of a deployment: its version, edition, program, the verifying key and
//! certificate of each function, and (by version) the program checksum and owner.
//!
//! The encodings of a program, a verifying key, a certificate and an address are the
//! caller's: each is given as a function that finds where the encoding that starts at a
//! position ends. The deployment holds each by its bytes.
use vstd::prelude::*;

use crate::error::Error;
use crate::program_names::{is_name, lemma_name_bytes_roundtrip, name_bytes_le, spec_name_read_le, Identifier};

verus! {

/// The size of a program checksum in bytes.
pub const CHECKSUM_SIZE: usize = 32;

/// The version of a deployment's byte format.
#[derive(Clone, Copy, Debug, PartialEq, Eq, Structural)]
pub enum DeploymentVersion {
    /// No program checksum and no owner.
    V1,
    /// A program checksum and an owner.
    V2,
    /// A program checksum and no owner (an amendment).
    V3,
}

/// The verifying key and certificate of a function, by their bytes.
pub struct VerifyingKeyEntry {
    pub name: Identifier,
    pub verifying_key: Vec<u8>,
    pub certificate: Vec<u8>,
}

/// A deployment; the program, the keys, the certificates and the owner by their bytes.
pub struct Deployment {
    pub edition: u16,
    pub program: Vec<u8>,
    pub verifying_keys: Vec<VerifyingKeyEntry>,
    pub program_checksum: Option<Vec<u8>>,
    pub program_owner: Option<Vec<u8>>,
}

/// The version byte.
pub open spec fn version_byte(v: DeploymentVersion) -> u8 {
    match v {
        DeploymentVersion::V1 => 1,
        DeploymentVersion::V2 => 2,
        DeploymentVersion::V3 => 3,
    }
}

/// The version a deployment is written in, by which of the checksum and the owner it has;
/// none for an owner without a checksum.
pub open spec fn version_of(d: Deployment) -> Option<DeploymentVersion> {
    match (d.program_checksum, d.program_owner) {
        (None, None) => Some(DeploymentVersion::V1),
        (Some(_), Some(_)) => Some(DeploymentVersion::V2),
        (Some(_), None) => Some(DeploymentVersion::V3),
        (None, Some(_)) => None,
    }
}

/// The two little-endian bytes of `v`.
pub open spec fn u16_le(v: u16) -> Seq<u8> {
    seq![(v % 256) as u8, (v / 256) as u8]
}

/// The bytes of an entry: its name, verifying key and certificate.
pub open spec fn entry_bytes(e: VerifyingKeyEntry) -> Seq<u8> {
    name_bytes_le(e.name@) + e.verifying_key@ + e.certificate@
}

/// The bytes of the entries, in order.
pub open spec fn entries_bytes(es: Seq<VerifyingKeyEntry>) -> Seq<u8>
    decreases es.len(),
{
    if es.len() == 0 {
        Seq::empty()
    } else {
        entries_bytes(es.drop_last()) + entry_bytes(es.last())
    }
}

/// The bytes of an optional part.
pub open spec fn optional_bytes(o: Option<Vec<u8>>) -> Seq<u8> {
    match o {
        Some(b) => b@,
        None => Seq::empty(),
    }
}

/// The bytes of a deployment written in version `v`: the version byte, the edition, the
/// program, the number of entries and the entries, then the checksum and the owner where
/// it has them.
pub open spec fn deployment_bytes(d: Deployment, v: DeploymentVersion) -> Seq<u8> {
    seq![version_byte(v)] + u16_le(d.edition) + d.program@ + u16_le(d.verifying_keys@.len() as u16) + entries_bytes(
        d.verifying_keys@,
    ) + optional_bytes(d.program_checksum) + optional_bytes(d.program_owner)
}

/// Whether the bytes of `s` at `pos` start with the version byte of `v`, the edition, the
/// program and the number of entries `n`, and `read_program` can only answer where the
/// program ends.
pub open spec fn header_written_at<RP>(
    read_program: RP,
    s: &[u8],
    pos: int,
    v: DeploymentVersion,
    edition: u16,
    program: Seq<u8>,
    n: u16,
) -> bool where RP: Fn(&[u8], usize) -> Result<usize, Error> {
    let p1 = pos + 3 + program.len();
    &&& 0 <= pos
    &&& p1 + 2 <= s@.len()
    &&& s@[pos] == version_byte(v)
    &&& s@.subrange(pos + 1, pos + 3) == u16_le(edition)
    &&& s@.subrange(pos + 3, p1) == program
    &&& s@.subrange(p1, p1 + 2) == u16_le(n)
    &&& answers_only(read_program, s, pos + 3, program.len() as int)
}

/// Whether the bytes of `s` at `pl` are the checksum and owner that version `v` has, the
/// checksum of `CHECKSUM_SIZE` bytes, and `checksum_of` and `read_owner` can only answer
/// as they have them.
pub open spec fn trailer_written_at<K, RO>(
    checksum_of: K,
    read_owner: RO,
    s: &[u8],
    pl: int,
    v: DeploymentVersion,
    program: Seq<u8>,
    checksum: Option<Seq<u8>>,
    owner: Option<Seq<u8>>,
) -> bool where K: Fn(&[u8]) -> Vec<u8>, RO: Fn(&[u8], usize) -> Result<usize, Error> {
    &&& 0 <= pl
    &&& match v {
        DeploymentVersion::V1 => checksum is None && owner is None && pl <= s@.len(),
        _ => checksum matches Some(c) && {
            &&& c.len() == CHECKSUM_SIZE
            &&& pl + CHECKSUM_SIZE <= s@.len()
            &&& s@.subrange(pl, pl + CHECKSUM_SIZE) == c
            &&& checksum_only(checksum_of, program, c)
            &&& match v {
                DeploymentVersion::V2 => owner matches Some(o) && {
                    &&& pl + CHECKSUM_SIZE + o.len() <= s@.len()
                    &&& s@.subrange(pl + CHECKSUM_SIZE, pl + CHECKSUM_SIZE + o.len()) == o
                    &&& answers_only(read_owner, s, pl + CHECKSUM_SIZE, o.len() as int)
                },
                _ => owner is None,
            }
        },
    }
}

/// The bytes of an optional part, by its view.
pub open spec fn optional_seq(o: Option<Seq<u8>>) -> Seq<u8> {
    match o {
        Some(b) => b,
        None => Seq::empty(),
    }
}

/// Whether `reader`, asked where the encoding at `p` of `s` ends, may answer `p + n`.
pub open spec fn delimits<R>(reader: R, s: &[u8], p: int, n: int) -> bool where
    R: Fn(&[u8], usize) -> Result<usize, Error>,
 {
    reader.ensures((s, p as usize), Ok::<usize, Error>((p + n) as usize))
}

/// Whether a reader only answers positions between its start and the end of the bytes.
pub open spec fn stays_within<R>(reader: R) -> bool where R: Fn(&[u8], usize) -> Result<usize, Error> {
    forall|s: &[u8], p: usize, e: usize| #[trigger]
        reader.ensures((s, p), Ok::<usize, Error>(e)) ==> p <= e <= s@.len()
}

/// The position where entry `k` of `es` starts, when the entries start at `p`.
pub open spec fn entry_start(es: Seq<VerifyingKeyEntry>, p: int, k: int) -> int {
    p + entries_bytes(es.subrange(0, k)).len()
}

/// Whether the readers delimit each part of entry `k`, the entries starting at `p` of `s`.
pub open spec fn entry_delimited<RK, RC>(
    read_verifying_key: RK,
    read_certificate: RC,
    s: &[u8],
    es: Seq<VerifyingKeyEntry>,
    p: int,
    k: int,
) -> bool where
    RK: Fn(&[u8], usize) -> Result<usize, Error>,
    RC: Fn(&[u8], usize) -> Result<usize, Error>,
 {
    let q = entry_start(es, p, k) + 1 + es[k].name@.len();
    delimits(read_verifying_key, s, q, es[k].verifying_key@.len() as int) && delimits(
        read_certificate,
        s,
        q + es[k].verifying_key@.len(),
        es[k].certificate@.len() as int,
    )
}

/// Whether `c` is a checksum that `checksum_of` may give for the program.
pub open spec fn checksum_matches<K>(checksum_of: K, program: Seq<u8>, c: Seq<u8>) -> bool where
    K: Fn(&[u8]) -> Vec<u8>,
 {
    exists|p: &[u8], r: Vec<u8>| #![trigger checksum_of.ensures((p,), r)]
        p@ == program && checksum_of.ensures((p,), r) && r@ == c
}

/// Whether the entries have valid names, and the readers, asked where the verifying key
/// and the certificate of each entry end (the entries starting at `pe` of `s`), can only
/// answer as the entry has them.
pub open spec fn entries_answer_only<RK, RC>(
    read_verifying_key: RK,
    read_certificate: RC,
    s: &[u8],
    pe: int,
    es: Seq<VerifyingKeyEntry>,
) -> bool where
    RK: Fn(&[u8], usize) -> Result<usize, Error>,
    RC: Fn(&[u8], usize) -> Result<usize, Error>,
 {
    &&& forall|k: int| 0 <= k < es.len() ==> is_name(#[trigger] es[k].name@)
    &&& forall|k: int|
        0 <= k < es.len() ==> #[trigger] answers_only(
            read_verifying_key,
            s,
            entry_start(es, pe, k) + 1 + es[k].name@.len(),
            es[k].verifying_key@.len() as int,
        ) && answers_only(
            read_certificate,
            s,
            entry_start(es, pe, k) + 1 + es[k].name@.len() + es[k].verifying_key@.len(),
            es[k].certificate@.len() as int,
        )
}

/// Whether the bytes of `s` at `pe` are those of the entries, and the readers can only
/// answer as the entries have them.
pub open spec fn entries_written_at<RK, RC>(
    read_verifying_key: RK,
    read_certificate: RC,
    s: &[u8],
    pe: int,
    es: Seq<VerifyingKeyEntry>,
) -> bool where
    RK: Fn(&[u8], usize) -> Result<usize, Error>,
    RC: Fn(&[u8], usize) -> Result<usize, Error>,
 {
    &&& 0 <= pe
    &&& pe + entries_bytes(es).len() <= s@.len()
    &&& s@.subrange(pe, pe + entries_bytes(es).len()) == entries_bytes(es)
    &&& entries_answer_only(read_verifying_key, read_certificate, s, pe, es)
}

/// Whether `reader`, asked where the encoding at `p` of `s` ends, can only answer `p + n`.
pub open spec fn answers_only<R>(reader: R, s: &[u8], p: int, n: int) -> bool where
    R: Fn(&[u8], usize) -> Result<usize, Error>,
 {
    forall|r: Result<usize, Error>| #[trigger] reader.ensures((s, p as usize), r) ==> r == Ok::<usize, Error>((p + n) as usize)
}

/// Whether `checksum_of` can only give `c` for the program.
pub open spec fn checksum_only<K>(checksum_of: K, program: Seq<u8>, c: Seq<u8>) -> bool where K: Fn(&[u8]) -> Vec<u8> {
    forall|p: &[u8], r: Vec<u8>| #[trigger] checksum_of.ensures((p,), r) && p@ == program ==> r@ == c
}

/// Whether two entries hold the same name, verifying key and certificate.
pub open spec fn same_entry(a: VerifyingKeyEntry, b: VerifyingKeyEntry) -> bool {
    a.name@ == b.name@ && a.verifying_key@ == b.verifying_key@ && a.certificate@ == b.certificate@
}

/// The bytes of an optional part, as a sequence where there is one.
pub open spec fn optional_view(o: Option<Vec<u8>>) -> Option<Seq<u8>> {
    match o {
        Some(b) => Some(b@),
        None => None,
    }
}

/// Whether two deployments hold the same edition, program, entries, checksum and owner.
pub open spec fn same_deployment(a: Deployment, b: Deployment) -> bool {
    &&& a.edition == b.edition
    &&& a.program@ == b.program@
    &&& a.verifying_keys@.len() == b.verifying_keys@.len()
    &&& forall|k: int| 0 <= k < a.verifying_keys@.len() ==> #[trigger] same_entry(a.verifying_keys@[k], b.verifying_keys@[k])
    &&& optional_view(a.program_checksum) == optional_view(b.program_checksum)
    &&& optional_view(a.program_owner) == optional_view(b.program_owner)
}

/// Whether the bytes of `s` at `pos` are those `write_le` gives for `d`, with at most
/// `max_entries` entries, valid names and a checksum of `CHECKSUM_SIZE` bytes; and whether
/// the readers, asked where each part of `d` ends, and `checksum_of`, asked for the
/// program's checksum, can only answer as `d` has it.
pub open spec fn written_at<RP, RK, RC, RO, K>(
    read_program: RP,
    read_verifying_key: RK,
    read_certificate: RC,
    read_owner: RO,
    checksum_of: K,
    s: &[u8],
    pos: int,
    max_entries: int,
    d: Deployment,
) -> bool where
    RP: Fn(&[u8], usize) -> Result<usize, Error>,
    RK: Fn(&[u8], usize) -> Result<usize, Error>,
    RC: Fn(&[u8], usize) -> Result<usize, Error>,
    RO: Fn(&[u8], usize) -> Result<usize, Error>,
    K: Fn(&[u8]) -> Vec<u8>,
 {
    let bytes = deployment_bytes(d, version_of(d)->0);
    let es = d.verifying_keys@;
    let pe = pos + 5 + d.program@.len();
    &&& version_of(d) is Some
    &&& es.len() <= max_entries
    &&& es.len() <= u16::MAX
    &&& 0 <= pos
    &&& pos + bytes.len() <= s@.len()
    &&& s@.subrange(pos, pos + bytes.len()) == bytes
    &&& answers_only(read_program, s, pos + 3, d.program@.len() as int)
    &&& entries_answer_only(read_verifying_key, read_certificate, s, pe, es)
    &&& d.program_checksum matches Some(c) ==> c@.len() == CHECKSUM_SIZE && checksum_only(
        checksum_of,
        d.program@,
        c@,
    )
    &&& d.program_owner matches Some(o) ==> answers_only(
        read_owner,
        s,
        pos + bytes.len() - o@.len(),
        o@.len() as int,
    )
}

/// The bytes of concatenated entries.
proof fn lemma_entries_bytes_concat(a: Seq<VerifyingKeyEntry>, b: Seq<VerifyingKeyEntry>)
    ensures
        entries_bytes(a + b) == entries_bytes(a) + entries_bytes(b),
    decreases b.len(),
{
    if b.len() == 0 {
        assert(a + b =~= a);
        assert(entries_bytes(a) + entries_bytes(b) =~= entries_bytes(a));
    } else {
        lemma_entries_bytes_concat(a, b.drop_last());
        assert((a + b).drop_last() =~= a + b.drop_last());
        assert((a + b).last() == b.last());
        assert(entries_bytes(a + b) =~= entries_bytes(a) + entries_bytes(b));
    }
}

/// Where entry `k` lies in the bytes of the entries.
proof fn lemma_entry_at(es: Seq<VerifyingKeyEntry>, k: int)
    requires
        0 <= k < es.len(),
    ensures
        entries_bytes(es) == entries_bytes(es.subrange(0, k)) + entry_bytes(es[k]) + entries_bytes(
            es.subrange(k + 1, es.len() as int),
        ),
        entries_bytes(es.subrange(0, k + 1)) == entries_bytes(es.subrange(0, k)) + entry_bytes(es[k]),
{
    lemma_entries_bytes_concat(es.subrange(0, k + 1), es.subrange(k + 1, es.len() as int));
    assert(es.subrange(0, k + 1) + es.subrange(k + 1, es.len() as int) =~= es);
    lemma_entries_bytes_push(es.subrange(0, k), es[k]);
    assert(es.subrange(0, k).push(es[k]) =~= es.subrange(0, k + 1));
}

/// Two values with the same two little-endian bytes are equal.
proof fn lemma_u16_le_injective(a: u16, b: u16)
    requires
        u16_le(a) == u16_le(b),
    ensures
        a == b,
{
    assert(u16_le(a)[0] == u16_le(b)[0]);
    assert(u16_le(a)[1] == u16_le(b)[1]);
    assert(a == 256 * (a / 256) + a % 256);
    assert(b == 256 * (b / 256) + b % 256);
}

/// The bytes of a deployment at the positions of its parts.
proof fn lemma_written_parts(s: Seq<u8>, pos: int, d: Deployment)
    requires
        version_of(d) is Some,
        0 <= pos,
        pos + deployment_bytes(d, version_of(d)->0).len() <= s.len(),
        s.subrange(pos, pos + deployment_bytes(d, version_of(d)->0).len()) == deployment_bytes(d, version_of(d)->0),
    ensures
        ({
            let v = version_of(d)->0;
            let p1 = pos + 3 + d.program@.len();
            let pe = p1 + 2;
            let pl = pe + entries_bytes(d.verifying_keys@).len();
            let pc = pl + optional_bytes(d.program_checksum).len();
            let end = pos + deployment_bytes(d, v).len();
            &&& s[pos] == version_byte(v)
            &&& s.subrange(pos + 1, pos + 3) == u16_le(d.edition)
            &&& s.subrange(pos + 3, p1) == d.program@
            &&& s.subrange(p1, pe) == u16_le(d.verifying_keys@.len() as u16)
            &&& s.subrange(pe, pl) == entries_bytes(d.verifying_keys@)
            &&& s.subrange(pl, pc) == optional_bytes(d.program_checksum)
            &&& s.subrange(pc, end) == optional_bytes(d.program_owner)
            &&& end == pc + optional_bytes(d.program_owner).len()
        }),
{
    let v = version_of(d)->0;
    let b = deployment_bytes(d, v);
    let p1 = pos + 3 + d.program@.len();
    let pe = p1 + 2;
    let pl = pe + entries_bytes(d.verifying_keys@).len();
    let pc = pl + optional_bytes(d.program_checksum).len();
    let end = pos + b.len();
    let t = s.subrange(pos, end);
    assert(t[0] == s[pos]);
    assert(s.subrange(pos + 1, pos + 3) =~= t.subrange(1, 3));
    assert(s.subrange(pos + 3, p1) =~= t.subrange(3, p1 - pos));
    assert(s.subrange(p1, pe) =~= t.subrange(p1 - pos, pe - pos));
    assert(s.subrange(pe, pl) =~= t.subrange(pe - pos, pl - pos));
    assert(s.subrange(pl, pc) =~= t.subrange(pl - pos, pc - pos));
    assert(s.subrange(pc, end) =~= t.subrange(pc - pos, end - pos));
    assert(b.subrange(1, 3) =~= u16_le(d.edition));
    assert(b.subrange(3, p1 - pos) =~= d.program@);
    assert(b.subrange(p1 - pos, pe - pos) =~= u16_le(d.verifying_keys@.len() as u16));
    assert(b.subrange(pe - pos, pl - pos) =~= entries_bytes(d.verifying_keys@));
    assert(b.subrange(pl - pos, pc - pos) =~= optional_bytes(d.program_checksum));
    assert(b.subrange(pc - pos, end - pos) =~= optional_bytes(d.program_owner));
}

/// The bytes of entry `k` at its position, the entries starting at `pe`.
#[verifier::rlimit(40)]
proof fn lemma_written_entry(s: Seq<u8>, pe: int, es: Seq<VerifyingKeyEntry>, k: int)
    requires
        0 <= pe,
        0 <= k < es.len(),
        pe + entries_bytes(es).len() <= s.len(),
        s.subrange(pe, pe + entries_bytes(es).len()) == entries_bytes(es),
        is_name(es[k].name@),
    ensures
        ({
            let q = entry_start(es, pe, k);
            let q1 = q + 1 + es[k].name@.len();
            let q2 = q1 + es[k].verifying_key@.len();
            let q3 = q2 + es[k].certificate@.len();
            &&& q3 == entry_start(es, pe, k + 1)
            &&& q3 <= pe + entries_bytes(es).len()
            &&& spec_name_read_le(s.subrange(q, s.len() as int)) == Ok::<(Seq<u8>, int), Error>(
                (es[k].name@, 1 + es[k].name@.len() as int),
            )
            &&& s.subrange(q1, q2) == es[k].verifying_key@
            &&& s.subrange(q2, q3) == es[k].certificate@
        }),
{
    lemma_entry_at(es, k);
    let pre = entries_bytes(es.subrange(0, k));
    let e = entry_bytes(es[k]);
    let nl: int = es[k].name@.len() as int;
    let vl: int = es[k].verifying_key@.len() as int;
    let cl: int = es[k].certificate@.len() as int;
    let prl: int = pre.len() as int;
    let el: int = e.len() as int;
    let q = pe + prl;
    let q1 = q + 1 + nl;
    let q2 = q1 + vl;
    let q3 = q2 + cl;
    let all = entries_bytes(es);
    assert(s.subrange(q, q3) =~= all.subrange(prl, prl + el));
    assert(all.subrange(prl, prl + el) =~= e);
    assert(s.subrange(q1, q2) =~= e.subrange(1 + nl, 1 + nl + vl));
    assert(s.subrange(q2, q3) =~= e.subrange(1 + nl + vl, el));
    let rest = s.subrange(q + 1 + nl, s.len() as int);
    assert(s.subrange(q, s.len() as int) =~= name_bytes_le(es[k].name@) + rest);
    lemma_name_bytes_roundtrip(es[k].name@, rest);
}

/// A reader that can only answer `p + n` answers it.
proof fn lemma_answer<R>(reader: R, s: &[u8], p: int, n: int, e: usize) where
    R: Fn(&[u8], usize) -> Result<usize, Error>,

    requires
        answers_only(reader, s, p, n),
        reader.ensures((s, p as usize), Ok::<usize, Error>(e)),
        0 <= p,
        0 <= n,
        p + n <= usize::MAX,
    ensures
        e == p + n,
{
    assert(Ok::<usize, Error>(e) == Ok::<usize, Error>((p + n) as usize));
}

/// The bytes of entries with one more entry.
proof fn lemma_entries_bytes_push(es: Seq<VerifyingKeyEntry>, e: VerifyingKeyEntry)
    ensures
        entries_bytes(es.push(e)) == entries_bytes(es) + entry_bytes(e),
{
    assert(es.push(e).drop_last() =~= es);
}

/// Reads the two little-endian bytes at `p` of `s`.
fn read_u16_le(s: &[u8], p: usize) -> (r: u16)
    requires
        p + 2 <= s@.len(),
    ensures
        u16_le(r) == s@.subrange(p as int, p + 2),
{
    let lo = s[p];
    let hi = s[p + 1];
    let r: u16 = (lo as u16) + (hi as u16) * 256;
    assert(r % 256 == lo && r / 256 == hi) by (nonlinear_arith)
        requires
            r == lo as int + hi as int * 256,
            lo < 256,
            hi < 256,
    ;
    assert(u16_le(r) =~= s@.subrange(p as int, p + 2));
    r
}

/// Appends the two little-endian bytes of `v` to `out`.
fn write_u16_le(v: u16, out: &mut Vec<u8>)
    ensures
        final(out)@ == old(out)@ + u16_le(v),
{
    out.push((v % 256) as u8);
    out.push((v / 256) as u8);
    assert(final(out)@ =~= old(out)@ + u16_le(v));
}

/// The bytes of `s` from `a` to `b`.
fn copy_range(s: &[u8], a: usize, b: usize) -> (r: Vec<u8>)
    requires
        a <= b <= s@.len(),
    ensures
        r@ == s@.subrange(a as int, b as int),
{
    let mut v: Vec<u8> = Vec::new();
    let mut i: usize = a;
    while i < b
        invariant
            a <= i <= b,
            b <= s@.len(),
            v@ == s@.subrange(a as int, i as int),
        decreases b - i,
    {
        v.push(s[i]);
        i = i + 1;
        assert(v@ =~= s@.subrange(a as int, i as int));
    }
    v
}

/// Appends the bytes of `extra` to `out`.
fn append_bytes(out: &mut Vec<u8>, extra: &[u8])
    ensures
        final(out)@ == old(out)@ + extra@,
{
    let n = extra.len();
    let mut i: usize = 0;
    while i < n
        invariant
            i <= n,
            n == extra@.len(),
            out@ == old(out)@ + extra@.subrange(0, i as int),
        decreases n - i,
    {
        out.push(extra[i]);
        i = i + 1;
        assert(out@ =~= old(out)@ + extra@.subrange(0, i as int));
    }
    assert(extra@.subrange(0, n as int) =~= extra@);
}

/// Whether two byte strings are equal.
fn bytes_equal(a: &[u8], b: &[u8]) -> (r: bool)
    ensures
        r == (a@ == b@),
{
    if a.len() != b.len() {
        return false;
    }
    let mut i: usize = 0;
    while i < a.len()
        invariant
            i <= a@.len(),
            a@.len() == b@.len(),
            forall|j: int| 0 <= j < i ==> a@[j] == b@[j],
        decreases a@.len() - i,
    {
        if a[i] != b[i] {
            return false;
        }
        i = i + 1;
    }
    assert(a@ =~= b@);
    true
}

/// Reads `n` entries from the bytes of `s` at `pe`; returns them and the position after
/// them. Each is a name, then a verifying key and a certificate that end where their
/// readers say. Entries written at `pe`, whose readers can only answer as they have them,
/// are read back as they are.
fn read_entries<RK, RC>(s: &[u8], pe: usize, n: u16, read_verifying_key: &RK, read_certificate: &RC) -> (r: Result<
    (Vec<VerifyingKeyEntry>, usize),
    Error,
>) where
    RK: Fn(&[u8], usize) -> Result<usize, Error>,
    RC: Fn(&[u8], usize) -> Result<usize, Error>,

    requires
        pe <= s@.len(),
        forall|t: &[u8], p: usize| p <= t@.len() ==> read_verifying_key.requires((t, p)),
        forall|t: &[u8], p: usize| p <= t@.len() ==> read_certificate.requires((t, p)),
        stays_within(*read_verifying_key),
        stays_within(*read_certificate),
    ensures
        r matches Ok((es, end)) ==> {
            &&& pe <= end <= s@.len()
            &&& es@.len() == n
            &&& s@.subrange(pe as int, end as int) == entries_bytes(es@)
            &&& forall|k: int|
                0 <= k < es@.len() ==> #[trigger] entry_delimited(
                    *read_verifying_key,
                    *read_certificate,
                    s,
                    es@,
                    pe as int,
                    k,
                )
        },
        forall|es: Seq<VerifyingKeyEntry>|
            #[trigger] entries_written_at(*read_verifying_key, *read_certificate, s, pe as int, es) && es.len()
                == n ==> (r matches Ok((es2, end)) && end == pe + entries_bytes(es).len() && forall|k: int|
                0 <= k < n ==> #[trigger] same_entry(es2@[k], es[k])),
{
    let mut p = pe;
    let mut entries: Vec<VerifyingKeyEntry> = Vec::new();
    let mut i: u16 = 0;
    proof {
        assert forall|es: Seq<VerifyingKeyEntry>|
            entries_written_at(*read_verifying_key, *read_certificate, s, pe as int, es) implies p == entry_start(
            es,
            pe as int,
            0,
        ) by {
            assert(es.subrange(0, 0) =~= Seq::<VerifyingKeyEntry>::empty());
        }
    }
    let total = s.len();
    while i < n
        invariant
            total == s@.len(),
            pe <= p <= s@.len(),
            i <= n,
            entries@.len() == i,
            s@.subrange(pe as int, p as int) == entries_bytes(entries@),
            forall|t: &[u8], q: usize| q <= t@.len() ==> read_verifying_key.requires((t, q)),
            forall|t: &[u8], q: usize| q <= t@.len() ==> read_certificate.requires((t, q)),
            stays_within(*read_verifying_key),
            stays_within(*read_certificate),
            forall|k: int|
                0 <= k < entries@.len() ==> #[trigger] entry_delimited(
                    *read_verifying_key,
                    *read_certificate,
                    s,
                    entries@,
                    pe as int,
                    k,
                ),
            forall|es: Seq<VerifyingKeyEntry>|
                #[trigger] entries_written_at(*read_verifying_key, *read_certificate, s, pe as int, es) && es.len()
                    == n ==> {
                    &&& p == entry_start(es, pe as int, i as int)
                    &&& forall|k: int| 0 <= k < i ==> #[trigger] same_entry(entries@[k], es[k])
                },
        decreases n - i,
    {
        proof {
            assert forall|es: Seq<VerifyingKeyEntry>|
                #[trigger] entries_written_at(*read_verifying_key, *read_certificate, s, pe as int, es) && es.len()
                    == n implies spec_name_read_le(s@.subrange(p as int, s@.len() as int)) == Ok::<
                (Seq<u8>, int),
                Error,
            >((es[i as int].name@, 1 + es[i as int].name@.len() as int)) by {
                lemma_written_entry(s@, pe as int, es, i as int);
            }
        }
        let (name, q) = match Identifier::read_le(s, p) {
            Ok(x) => x,
            Err(e) => return Err(e),
        };
        assert(s@.subrange(p as int, q as int) =~= name_bytes_le(name@));
        let q2 = match read_verifying_key(s, q) {
            Ok(e) => e,
            Err(e) => {
                proof {
                    assert forall|es: Seq<VerifyingKeyEntry>|
                        #[trigger] entries_written_at(*read_verifying_key, *read_certificate, s, pe as int, es)
                            && es.len() == n implies false by {
                        let k = i as int;
                        assert(answers_only(
                            *read_verifying_key,
                            s,
                            entry_start(es, pe as int, k) + 1 + es[k].name@.len(),
                            es[k].verifying_key@.len() as int,
                        ));
                        assert(read_verifying_key.ensures((s, q), Err::<usize, Error>(e)));
                    }
                }
                return Err(e);
            },
        };
        let q3 = match read_certificate(s, q2) {
            Ok(e) => e,
            Err(e) => {
                proof {
                    assert forall|es: Seq<VerifyingKeyEntry>|
                        #[trigger] entries_written_at(*read_verifying_key, *read_certificate, s, pe as int, es)
                            && es.len() == n implies false by {
                        let k = i as int;
                        assert(answers_only(
                            *read_verifying_key,
                            s,
                            entry_start(es, pe as int, k) + 1 + es[k].name@.len(),
                            es[k].verifying_key@.len() as int,
                        ));
                        assert(read_verifying_key.ensures((s, q), Ok::<usize, Error>(q2)));
                        assert(answers_only(
                            *read_certificate,
                            s,
                            entry_start(es, pe as int, k) + 1 + es[k].name@.len() + es[k].verifying_key@.len(),
                            es[k].certificate@.len() as int,
                        ));
                        assert(read_certificate.ensures((s, q2), Err::<usize, Error>(e)));
                    }
                }
                return Err(e);
            },
        };
        let entry = VerifyingKeyEntry { name, verifying_key: copy_range(s, q, q2), certificate: copy_range(s, q2, q3) };
        let ghost old_entries = entries@;
        proof {
            lemma_entries_bytes_push(old_entries, entry);
            assert(s@.subrange(p as int, q3 as int) =~= entry_bytes(entry));
            assert(s@.subrange(pe as int, q3 as int) =~= s@.subrange(pe as int, p as int) + s@.subrange(
                p as int,
                q3 as int,
            ));
            assert(old_entries.push(entry).subrange(0, old_entries.len() as int) =~= old_entries);
            assert forall|es: Seq<VerifyingKeyEntry>|
                #[trigger] entries_written_at(*read_verifying_key, *read_certificate, s, pe as int, es) && es.len()
                    == n implies same_entry(entry, es[i as int]) && q3 == entry_start(es, pe as int, i + 1) by {
                let k = i as int;
                lemma_written_entry(s@, pe as int, es, k);
                assert(p == entry_start(es, pe as int, k));
                assert(spec_name_read_le(s@.subrange(p as int, s@.len() as int)) == Ok::<(Seq<u8>, int), Error>(
                    (es[k].name@, 1 + es[k].name@.len() as int),
                ));
                assert(name@ == es[k].name@);
                assert(q == p + 1 + es[k].name@.len());
                assert((entry_start(es, pe as int, k) + 1 + es[k].name@.len()) as usize == q);
                assert(read_verifying_key.ensures((s, q), Ok::<usize, Error>(q2)));
                lemma_answer(
                    *read_verifying_key,
                    s,
                    entry_start(es, pe as int, k) + 1 + es[k].name@.len(),
                    es[k].verifying_key@.len() as int,
                    q2,
                );
                assert(read_certificate.ensures((s, q2), Ok::<usize, Error>(q3)));
                lemma_answer(
                    *read_certificate,
                    s,
                    entry_start(es, pe as int, k) + 1 + es[k].name@.len() + es[k].verifying_key@.len(),
                    es[k].certificate@.len() as int,
                    q3,
                );
            }
        }
        entries.push(entry);
        proof {
            assert forall|k: int| 0 <= k < entries@.len() implies #[trigger] entry_delimited(
                *read_verifying_key,
                *read_certificate,
                s,
                entries@,
                pe as int,
                k,
            ) by {
                if k < old_entries.len() {
                    assert(entries@.subrange(0, k) =~= old_entries.subrange(0, k));
                    assert(entry_delimited(*read_verifying_key, *read_certificate, s, old_entries, pe as int, k));
                } else {
                    assert(entries@.subrange(0, k) =~= old_entries);
                }
            }
            assert forall|es: Seq<VerifyingKeyEntry>|
                #[trigger] entries_written_at(*read_verifying_key, *read_certificate, s, pe as int, es) && es.len()
                    == n implies forall|k: int| 0 <= k < i + 1 ==> #[trigger] same_entry(entries@[k], es[k]) by {
                assert forall|k: int| 0 <= k < i + 1 implies #[trigger] same_entry(entries@[k], es[k]) by {
                    if k < i {
                        assert(entries@[k] == old_entries[k]);
                    }
                }
            }
        }
        p = q3;
        i = i + 1;
    }
    proof {
        assert forall|es: Seq<VerifyingKeyEntry>|
            #[trigger] entries_written_at(*read_verifying_key, *read_certificate, s, pe as int, es) && es.len()
                == n implies p == pe + entries_bytes(es).len() by {
            assert(es.subrange(0, n as int) =~= es);
        }
    }
    Ok((entries, p))
}

/// The parts of a deployment written at `pos`: its header, its entries and its trailer.
proof fn lemma_written_split<RP, RK, RC, RO, K>(
    read_program: RP,
    read_verifying_key: RK,
    read_certificate: RC,
    read_owner: RO,
    checksum_of: K,
    s: &[u8],
    pos: int,
    max_entries: int,
    d: Deployment,
) where
    RP: Fn(&[u8], usize) -> Result<usize, Error>,
    RK: Fn(&[u8], usize) -> Result<usize, Error>,
    RC: Fn(&[u8], usize) -> Result<usize, Error>,
    RO: Fn(&[u8], usize) -> Result<usize, Error>,
    K: Fn(&[u8]) -> Vec<u8>,

    requires
        written_at(read_program, read_verifying_key, read_certificate, read_owner, checksum_of, s, pos, max_entries, d),
    ensures
        ({
            let v = version_of(d)->0;
            let pe = pos + 5 + d.program@.len();
            let pl = pe + entries_bytes(d.verifying_keys@).len();
            &&& header_written_at(read_program, s, pos, v, d.edition, d.program@, d.verifying_keys@.len() as u16)
            &&& entries_written_at(read_verifying_key, read_certificate, s, pe, d.verifying_keys@)
            &&& trailer_written_at(
                checksum_of,
                read_owner,
                s,
                pl,
                v,
                d.program@,
                optional_view(d.program_checksum),
                optional_view(d.program_owner),
            )
            &&& pos + deployment_bytes(d, v).len() == pl + optional_seq(optional_view(d.program_checksum)).len()
                + optional_seq(optional_view(d.program_owner)).len()
        }),
{
    lemma_written_parts(s@, pos, d);
    let v = version_of(d)->0;
    let pe = pos + 5 + d.program@.len();
    let pl = pe + entries_bytes(d.verifying_keys@).len();
    assert(optional_seq(optional_view(d.program_checksum)) == optional_bytes(d.program_checksum));
    assert(optional_seq(optional_view(d.program_owner)) == optional_bytes(d.program_owner));
    if d.program_checksum is Some {
        let c = d.program_checksum->0@;
        assert(s@.subrange(pl, pl + CHECKSUM_SIZE) =~= c);
        if d.program_owner is Some {
            let o = d.program_owner->0@;
            assert(s@.subrange(pl + CHECKSUM_SIZE, pl + CHECKSUM_SIZE + o.len()) =~= o);
        }
    }
}

/// Reads the version byte, the edition, the program and the number of entries from the
/// bytes of `s` at `pos`; returns them and the position after them. What was written at
/// `pos`, where `read_program` can only answer as it has it, is read back as it is.
fn read_header<RP>(s: &[u8], pos: usize, read_program: &RP) -> (r: Result<
    (DeploymentVersion, u16, Vec<u8>, u16, usize),
    Error,
>) where RP: Fn(&[u8], usize) -> Result<usize, Error>
    requires
        pos <= s@.len(),
        forall|t: &[u8], p: usize| p <= t@.len() ==> read_program.requires((t, p)),
        stays_within(*read_program),
    ensures
        pos == s@.len() ==> r == Err::<(DeploymentVersion, u16, Vec<u8>, u16, usize), Error>(Error::UnexpectedEnd),
        pos < s@.len() && !(1 <= s@[pos as int] <= 3) ==> r == Err::<
            (DeploymentVersion, u16, Vec<u8>, u16, usize),
            Error,
        >(Error::InvalidVersion),
        r matches Ok((v, edition, program, n, pe)) ==> {
            &&& pe == pos + 5 + program@.len()
            &&& header_written_at_bytes(s, pos as int, v, edition, program@, n)
            &&& delimits(*read_program, s, pos + 3, program@.len() as int)
        },
        forall|v: DeploymentVersion, edition: u16, program: Seq<u8>, n: u16|
            #[trigger] header_written_at(*read_program, s, pos as int, v, edition, program, n) ==> (r matches Ok(
                (v2, e2, p2, n2, pe),
            ) && v2 == v && e2 == edition && p2@ == program && n2 == n && pe == pos + 5 + program.len()),
{
    if pos >= s.len() {
        return Err(Error::UnexpectedEnd);
    }
    let vb = s[pos];
    let version = if vb == 1 {
        DeploymentVersion::V1
    } else if vb == 2 {
        DeploymentVersion::V2
    } else if vb == 3 {
        DeploymentVersion::V3
    } else {
        return Err(Error::InvalidVersion);
    };
    if s.len() - pos < 3 {
        return Err(Error::UnexpectedEnd);
    }
    let edition = read_u16_le(s, pos + 1);
    let p0 = pos + 3;
    let p1 = match read_program(s, p0) {
        Ok(e) => e,
        Err(e) => {
            proof {
                assert forall|v: DeploymentVersion, edition: u16, program: Seq<u8>, n: u16|
                    #[trigger] header_written_at(*read_program, s, pos as int, v, edition, program, n) implies false by {
                    assert(read_program.ensures((s, p0), Err::<usize, Error>(e)));
                }
            }
            return Err(e);
        },
    };
    let program = copy_range(s, p0, p1);
    proof {
        assert forall|v: DeploymentVersion, ed: u16, prog: Seq<u8>, n: u16|
            #[trigger] header_written_at(*read_program, s, pos as int, v, ed, prog, n) implies p1 == p0 + prog.len()
            && program@ == prog && ed == edition && v == version by {
            assert(read_program.ensures((s, p0), Ok::<usize, Error>(p1)));
            lemma_u16_le_injective(edition, ed);
        }
    }
    if s.len() - p1 < 2 {
        return Err(Error::UnexpectedEnd);
    }
    let n = read_u16_le(s, p1);
    proof {
        assert forall|v: DeploymentVersion, ed: u16, prog: Seq<u8>, n0: u16|
            #[trigger] header_written_at(*read_program, s, pos as int, v, ed, prog, n0) implies n == n0 by {
            lemma_u16_le_injective(n, n0);
        }
    }
    Ok((version, edition, program, n, p1 + 2))
}

/// Whether the bytes of `s` at `pos` start with the version byte of `v`, the edition, the
/// program and the number of entries `n`.
pub open spec fn header_written_at_bytes(s: &[u8], pos: int, v: DeploymentVersion, edition: u16, program: Seq<u8>, n: u16) -> bool {
    let p1 = pos + 3 + program.len();
    &&& 0 <= pos
    &&& p1 + 2 <= s@.len()
    &&& s@[pos] == version_byte(v)
    &&& s@.subrange(pos + 1, pos + 3) == u16_le(edition)
    &&& s@.subrange(pos + 3, p1) == program
    &&& s@.subrange(p1, p1 + 2) == u16_le(n)
}

/// Reads the checksum (versions 2 and 3) and the owner (version 2) from the bytes of `s`
/// at `pl`; returns them and the position after them. A checksum must be the one
/// `checksum_of` gives for the program. What was written at `pl`, where `checksum_of` and
/// `read_owner` can only answer as it has it, is read back as it is.
fn read_trailer<K, RO>(s: &[u8], pl: usize, v: DeploymentVersion, program: &Vec<u8>, checksum_of: &K, read_owner: &RO) -> (r:
    Result<(Option<Vec<u8>>, Option<Vec<u8>>, usize), Error>) where
    K: Fn(&[u8]) -> Vec<u8>,
    RO: Fn(&[u8], usize) -> Result<usize, Error>,

    requires
        pl <= s@.len(),
        forall|t: &[u8]| checksum_of.requires((t,)),
        forall|t: &[u8], p: usize| p <= t@.len() ==> read_owner.requires((t, p)),
        stays_within(*read_owner),
    ensures
        r matches Ok((c, o, end)) ==> {
            &&& pl <= end <= s@.len()
            &&& s@.subrange(pl as int, end as int) == optional_bytes(c) + optional_bytes(o)
            &&& match v {
                DeploymentVersion::V1 => c is None && o is None,
                DeploymentVersion::V2 => c is Some && o is Some,
                DeploymentVersion::V3 => c is Some && o is None,
            }
            &&& c matches Some(cv) ==> cv@.len() == CHECKSUM_SIZE && checksum_matches(*checksum_of, program@, cv@)
            &&& o matches Some(ov) ==> delimits(*read_owner, s, end - ov@.len(), ov@.len() as int)
        },
        forall|c: Option<Seq<u8>>, o: Option<Seq<u8>>|
            #[trigger] trailer_written_at(*checksum_of, *read_owner, s, pl as int, v, program@, c, o) ==> (r matches Ok(
                (c2, o2, end),
            ) && optional_view(c2) == c && optional_view(o2) == o && end == pl + optional_seq(c).len()
                + optional_seq(o).len()),
{
    if let DeploymentVersion::V1 = v {
        assert(s@.subrange(pl as int, pl as int) =~= Seq::<u8>::empty());
        return Ok((None, None, pl));
    }
    if s.len() - pl < CHECKSUM_SIZE {
        return Err(Error::UnexpectedEnd);
    }
    let c = copy_range(s, pl, pl + CHECKSUM_SIZE);
    let ps = program.as_slice();
    let expected = checksum_of(ps);
    assert(checksum_of.ensures((ps,), expected));
    if !bytes_equal(c.as_slice(), expected.as_slice()) {
        return Err(Error::Mismatch);
    }
    let p = pl + CHECKSUM_SIZE;
    if let DeploymentVersion::V3 = v {
        assert(s@.subrange(pl as int, p as int) =~= optional_bytes(Some(c)) + optional_bytes(None));
        return Ok((Some(c), None, p));
    }
    let q = match read_owner(s, p) {
        Ok(e) => e,
        Err(e) => {
            proof {
                assert forall|c0: Option<Seq<u8>>, o0: Option<Seq<u8>>|
                    #[trigger] trailer_written_at(*checksum_of, *read_owner, s, pl as int, v, program@, c0, o0) implies false by {
                    assert(read_owner.ensures((s, p), Err::<usize, Error>(e)));
                }
            }
            return Err(e);
        },
    };
    let o = copy_range(s, p, q);
    proof {
        assert(s@.subrange(pl as int, q as int) =~= optional_bytes(Some(c)) + optional_bytes(Some(o)));
        assert forall|c0: Option<Seq<u8>>, o0: Option<Seq<u8>>|
            #[trigger] trailer_written_at(*checksum_of, *read_owner, s, pl as int, v, program@, c0, o0) implies q == p
            + o0->0.len() && o@ == o0->0 by {
            assert(read_owner.ensures((s, p), Ok::<usize, Error>(q)));
            lemma_answer(*read_owner, s, p as int, o0->0.len() as int, q);
        }
    }
    Ok((Some(c), Some(o), q))
}

impl Deployment {
    /// The version the deployment is written in, by which of the checksum and the owner it
    /// has; an owner without a checksum is refused.
    pub fn version(&self) -> (r: Result<DeploymentVersion, Error>)
        ensures
            r == match version_of(*self) {
                Some(v) => Ok(v),
                None => Err::<DeploymentVersion, Error>(Error::InvalidVersion),
            },
    {
        match (&self.program_checksum, &self.program_owner) {
            (None, None) => Ok(DeploymentVersion::V1),
            (Some(_), Some(_)) => Ok(DeploymentVersion::V2),
            (Some(_), None) => Ok(DeploymentVersion::V3),
            (None, Some(_)) => Err(Error::InvalidVersion),
        }
    }

    /// Appends the bytes of the deployment to `out`. Refused, with `out` unchanged, for an
    /// owner without a checksum and for more entries than a `u16` counts.
    pub fn write_le(&self, out: &mut Vec<u8>) -> (r: Result<(), Error>)
        ensures
            version_of(*self) is None ==> r == Err::<(), Error>(Error::InvalidVersion) && final(out)@ == old(out)@,
            version_of(*self) is Some && self.verifying_keys@.len() > u16::MAX ==> r == Err::<(), Error>(
                Error::InvalidLength,
            ) && final(out)@ == old(out)@,
            version_of(*self) is Some && self.verifying_keys@.len() <= u16::MAX ==> r == Ok::<(), Error>(())
                && final(out)@ == old(out)@ + deployment_bytes(*self, version_of(*self)->0),
    {
        let version = match self.version() {
            Ok(v) => v,
            Err(e) => return Err(e),
        };
        if self.verifying_keys.len() > 65535 {
            return Err(Error::InvalidLength);
        }
        let ghost start = out@;
        out.push(match version {
            DeploymentVersion::V1 => 1u8,
            DeploymentVersion::V2 => 2u8,
            DeploymentVersion::V3 => 3u8,
        });
        write_u16_le(self.edition, out);
        append_bytes(out, self.program.as_slice());
        let n = self.verifying_keys.len();
        write_u16_le(n as u16, out);
        let ghost head = out@;
        let mut i: usize = 0;
        while i < n
            invariant
                i <= n,
                n == self.verifying_keys@.len(),
                out@ == head + entries_bytes(self.verifying_keys@.subrange(0, i as int)),
            decreases n - i,
        {
            let e = &self.verifying_keys[i];
            let ghost before = out@;
            e.name.write_le(out);
            append_bytes(out, e.verifying_key.as_slice());
            append_bytes(out, e.certificate.as_slice());
            proof {
                lemma_entries_bytes_push(self.verifying_keys@.subrange(0, i as int), *e);
                assert(self.verifying_keys@.subrange(0, i as int).push(*e) =~= self.verifying_keys@.subrange(
                    0,
                    i + 1,
                ));
                assert(out@ =~= before + entry_bytes(*e));
            }
            i = i + 1;
        }
        assert(self.verifying_keys@.subrange(0, n as int) =~= self.verifying_keys@);
        if let Some(c) = &self.program_checksum {
            append_bytes(out, c.as_slice());
        }
        if let Some(o) = &self.program_owner {
            append_bytes(out, o.as_slice());
        }
        assert(out@ =~= start + deployment_bytes(*self, version));
        Ok(())
    }
    /// Reads a deployment from the bytes of `s` at `pos`; returns it and the position after
    /// it. The version byte must be 1, 2 or 3; the number of entries at most `max_entries`;
    /// a checksum (versions 2 and 3) must be the one `checksum_of` gives for the program.
    /// The program, each verifying key and certificate, and the owner (version 2) end where
    /// their readers say. What `write_le` wrote for a deployment is read back as it, where
    /// the readers and `checksum_of` can only answer as that deployment has it.
    pub fn read_le<RP, RK, RC, RO, K>(
        s: &[u8],
        pos: usize,
        max_entries: usize,
        read_program: &RP,
        read_verifying_key: &RK,
        read_certificate: &RC,
        read_owner: &RO,
        checksum_of: &K,
    ) -> (r: Result<(Deployment, usize), Error>) where
        RP: Fn(&[u8], usize) -> Result<usize, Error>,
        RK: Fn(&[u8], usize) -> Result<usize, Error>,
        RC: Fn(&[u8], usize) -> Result<usize, Error>,
        RO: Fn(&[u8], usize) -> Result<usize, Error>,
        K: Fn(&[u8]) -> Vec<u8>,
        requires
            pos <= s@.len(),
            forall|t: &[u8], p: usize| p <= t@.len() ==> read_program.requires((t, p)),
            forall|t: &[u8], p: usize| p <= t@.len() ==> read_verifying_key.requires((t, p)),
            forall|t: &[u8], p: usize| p <= t@.len() ==> read_certificate.requires((t, p)),
            forall|t: &[u8], p: usize| p <= t@.len() ==> read_owner.requires((t, p)),
            forall|t: &[u8]| checksum_of.requires((t,)),
            stays_within(*read_program),
            stays_within(*read_verifying_key),
            stays_within(*read_certificate),
            stays_within(*read_owner),
        ensures
            pos == s@.len() ==> r == Err::<(Deployment, usize), Error>(Error::UnexpectedEnd),
            pos < s@.len() && !(1 <= s@[pos as int] <= 3) ==> r == Err::<(Deployment, usize), Error>(
                Error::InvalidVersion,
            ),
            r matches Ok((d, end)) ==> {
                &&& version_of(d) is Some
                &&& s@[pos as int] == version_byte(version_of(d)->0)
                &&& pos <= end <= s@.len()
                &&& s@.subrange(pos as int, end as int) == deployment_bytes(d, version_of(d)->0)
                &&& d.verifying_keys@.len() <= max_entries
                &&& delimits(*read_program, s, pos + 3, d.program@.len() as int)
                &&& forall|k: int|
                    0 <= k < d.verifying_keys@.len() ==> #[trigger] entry_delimited(
                        *read_verifying_key,
                        *read_certificate,
                        s,
                        d.verifying_keys@,
                        pos + 5 + d.program@.len(),
                        k,
                    )
                &&& d.program_checksum matches Some(c) ==> c@.len() == CHECKSUM_SIZE && checksum_matches(
                    *checksum_of,
                    d.program@,
                    c@,
                )
                &&& d.program_owner matches Some(o) ==> delimits(
                    *read_owner,
                    s,
                    end - o@.len(),
                    o@.len() as int,
                )
            },
            forall|d: Deployment|
                #[trigger] written_at(
                    *read_program,
                    *read_verifying_key,
                    *read_certificate,
                    *read_owner,
                    *checksum_of,
                    s,
                    pos as int,
                    max_entries as int,
                    d,
                ) ==> (r matches Ok((d2, end)) && end == pos + deployment_bytes(d, version_of(d)->0).len()
                    && same_deployment(d2, d)),
    {
        proof {
            assert forall|d: Deployment| #[trigger] written_at(
                *read_program,
                *read_verifying_key,
                *read_certificate,
                *read_owner,
                *checksum_of,
                s,
                pos as int,
                max_entries as int,
                d,
            ) implies ({
                let v = version_of(d)->0;
                let pe = pos + 5 + d.program@.len();
                let pl = pe + entries_bytes(d.verifying_keys@).len();
                &&& header_written_at(
                    *read_program,
                    s,
                    pos as int,
                    v,
                    d.edition,
                    d.program@,
                    d.verifying_keys@.len() as u16,
                )
                &&& entries_written_at(*read_verifying_key, *read_certificate, s, pe, d.verifying_keys@)
                &&& trailer_written_at(
                    *checksum_of,
                    *read_owner,
                    s,
                    pl,
                    v,
                    d.program@,
                    optional_view(d.program_checksum),
                    optional_view(d.program_owner),
                )
                &&& pos + deployment_bytes(d, v).len() == pl + optional_seq(optional_view(d.program_checksum)).len()
                    + optional_seq(optional_view(d.program_owner)).len()
                &&& d.verifying_keys@.len() <= max_entries
                &&& d.verifying_keys@.len() <= u16::MAX
            }) by {
                lemma_written_split(
                    *read_program,
                    *read_verifying_key,
                    *read_certificate,
                    *read_owner,
                    *checksum_of,
                    s,
                    pos as int,
                    max_entries as int,
                    d,
                );
            }
        }
        let (version, edition, program, n, pe) = match read_header(s, pos, read_program) {
            Ok(x) => x,
            Err(e) => return Err(e),
        };
        if n as usize > max_entries {
            return Err(Error::InvalidLength);
        }
        let (entries, pl) = match read_entries(s, pe, n, read_verifying_key, read_certificate) {
            Ok(x) => x,
            Err(e) => return Err(e),
        };
        let (program_checksum, program_owner, end) = match read_trailer(
            s,
            pl,
            version,
            &program,
            checksum_of,
            read_owner,
        ) {
            Ok(x) => x,
            Err(e) => return Err(e),
        };
        let d = Deployment { edition, program, verifying_keys: entries, program_checksum, program_owner };
        proof {
            assert(version_of(d) == Some(version));
            let p1 = pos + 3 + d.program@.len();
            let all = s@.subrange(pos as int, end as int);
            assert(all =~= seq![s@[pos as int]] + s@.subrange(pos + 1, pos + 3) + s@.subrange(pos + 3, p1)
                + s@.subrange(p1, pe as int) + s@.subrange(pe as int, pl as int) + s@.subrange(pl as int, end as int));
            assert(all =~= deployment_bytes(d, version));
            assert forall|d0: Deployment| #[trigger] written_at(
                *read_program,
                *read_verifying_key,
                *read_certificate,
                *read_owner,
                *checksum_of,
                s,
                pos as int,
                max_entries as int,
                d0,
            ) implies end == pos + deployment_bytes(
                d0,
                version_of(d0)->0,
            ).len() && same_deployment(d, d0) by {
                assert(optional_view(d.program_checksum) == optional_view(d0.program_checksum));
            }
        }
        Ok((d, end))
    }
}

} // verus!
