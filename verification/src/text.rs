//! Text helpers: ASCII characters, UTF-8 boundaries and string building.
use vstd::prelude::*;
use vstd::utf8::*;

verus! {

/// The characters whose code points are the given bytes.
pub open spec fn chars_of_bytes(b: Seq<u8>) -> Seq<char> {
    Seq::new(b.len(), |i: int| b[i] as char)
}

/// Appends `c` to `s`; std's `String::push`, documented to append the character to the end.
#[verifier::external_body]
pub(crate) fn push_char(s: &mut String, c: char)
    ensures
        final(s)@ == old(s)@.push(c),
{
    s.push(c);
}

/// Appends the characters of the ASCII bytes `b` to `s`.
pub fn push_ascii(s: &mut String, b: &[u8])
    requires
        forall|i: int| 0 <= i < b@.len() ==> b@[i] < 0x80,
    ensures
        final(s)@ == old(s)@ + chars_of_bytes(b@),
{
    let ghost start = s@;
    let n = b.len();
    let mut i: usize = 0;
    while i < n
        invariant
            i <= n,
            n == b@.len(),
            s@ == start + chars_of_bytes(b@.subrange(0, i as int)),
        decreases n - i,
    {
        let c = b[i] as char;
        push_char(s, c);
        i = i + 1;
        assert(chars_of_bytes(b@.subrange(0, i as int)) == chars_of_bytes(b@.subrange(0, i - 1)).push(c));
    }
    assert(b@.subrange(0, n as int) == b@);
}

/// The UTF-8 bytes of ASCII characters are their code points.
pub proof fn lemma_ascii_chars_bytes(b: Seq<u8>)
    requires
        forall|i: int| 0 <= i < b.len() ==> b[i] < 0x80,
    ensures
        is_ascii_chars(chars_of_bytes(b)),
        encode_utf8(chars_of_bytes(b)) == b,
{
    let c = chars_of_bytes(b);
    assert forall|i: int| 0 <= i < c.len() implies '\0' <= #[trigger] c[i] <= '\u{7f}' by {
        assert(b[i] < 0x80);
    }
    is_ascii_chars_encode_utf8(c);
    assert forall|i: int| 0 <= i < b.len() implies #[trigger] encode_utf8(c)[i] == b[i] by {
        assert(c[i] as u8 == encode_utf8(c)[i]);
        assert(c[i] == b[i] as char);
    }
    assert(encode_utf8(c) =~= b);
}

/// In valid UTF-8, the index after an ASCII byte that starts a character also starts one.
pub proof fn lemma_ascii_boundary_step(bytes: Seq<u8>, i: int)
    requires
        valid_utf8(bytes),
        0 <= i < bytes.len(),
        is_char_boundary(bytes, i),
        bytes[i] < 0x80,
    ensures
        is_char_boundary(bytes, i + 1),
    decreases bytes.len(),
{
    let l = length_of_first_scalar(bytes);
    let tail = pop_first_scalar(bytes);
    assert(valid_first_scalar(bytes) && valid_utf8(tail));
    assert(1 <= l <= bytes.len());
    assert(tail.len() == bytes.len() - l);
    if i == 0 {
        assert(l == 1);
        assert(is_char_boundary(tail, 0));
        assert(is_char_boundary(bytes, 1) == is_char_boundary(tail, 1 - l));
    } else {
        assert(is_char_boundary(bytes, i) == is_char_boundary(tail, i - l));
        if i - l < 0 {
            assert(!is_char_boundary(tail, i - l));
        } else {
            assert(tail[i - l] == bytes[i]);
            lemma_ascii_boundary_step(tail, i - l);
            assert(is_char_boundary(bytes, i + 1) == is_char_boundary(tail, i + 1 - l));
        }
    }
}

/// Every index up to `n` is a character boundary when the first `n` bytes are ASCII.
pub proof fn lemma_ascii_prefix_boundary(bytes: Seq<u8>, n: int)
    requires
        valid_utf8(bytes),
        0 <= n <= bytes.len(),
        forall|i: int| 0 <= i < n ==> bytes[i] < 0x80,
    ensures
        is_char_boundary(bytes, n),
    decreases n,
{
    if n > 0 {
        lemma_ascii_prefix_boundary(bytes, n - 1);
        lemma_ascii_boundary_step(bytes, n - 1);
    }
}

} // verus!
