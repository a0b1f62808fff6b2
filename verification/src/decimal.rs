//! Decimal text of unsigned numbers.
use vstd::prelude::*;

use crate::error::Error;

verus! {

/// An ASCII decimal digit.
pub open spec fn is_decimal_digit(b: u8) -> bool {
    0x30 <= b && b <= 0x39
}

/// The shortest decimal text of `n`.
pub open spec fn decimal_digits(n: nat) -> Seq<u8>
    decreases n,
{
    if n < 10 {
        seq![(0x30 + n) as u8]
    } else {
        decimal_digits(n / 10).push((0x30 + n % 10) as u8)
    }
}

/// The number written by the decimal digits `s`.
pub open spec fn digits_value(s: Seq<u8>) -> nat
    decreases s.len(),
{
    if s.len() == 0 {
        0
    } else {
        (10 * digits_value(s.drop_last()) + (s.last() - 0x30)) as nat
    }
}

/// The index of the first non-digit byte of `b` at or after `i`, or the length of `b`.
pub open spec fn digits_end_from(b: Seq<u8>, i: int) -> int
    decreases b.len() - i,
{
    if i >= b.len() {
        b.len() as int
    } else if !is_decimal_digit(b[i]) {
        i
    } else {
        digits_end_from(b, i + 1)
    }
}

/// The outcome of reading a decimal `u32` from the front of `b`: the longest run of
/// digits, at least one, whose value must fit in 32 bits.
pub open spec fn spec_parse_u32(b: Seq<u8>) -> Result<(u32, int), Error> {
    let e = digits_end_from(b, 0);
    if e == 0 {
        Err(Error::Syntax)
    } else if digits_value(b.subrange(0, e)) > u32::MAX {
        Err(Error::Overflow)
    } else {
        Ok((digits_value(b.subrange(0, e)) as u32, e))
    }
}

/// Ten to the power `k`.
pub open spec fn pow10(k: nat) -> nat
    decreases k,
{
    if k == 0 {
        1
    } else {
        10 * pow10((k - 1) as nat)
    }
}

/// The decimal text of a number is made of digits, and reads back as the number.
pub proof fn lemma_decimal_digits(n: nat)
    ensures
        decimal_digits(n).len() >= 1,
        forall|i: int| 0 <= i < decimal_digits(n).len() ==> is_decimal_digit(#[trigger] decimal_digits(n)[i]),
        digits_value(decimal_digits(n)) == n,
    decreases n,
{
    if n >= 10 {
        lemma_decimal_digits(n / 10);
        let c = (0x30 + n % 10) as u8;
        assert(c == 0x30 + n % 10);
        let d = decimal_digits(n / 10).push(c);
        assert(decimal_digits(n) == d);
        assert(d.drop_last() =~= decimal_digits(n / 10));
        assert(d.last() == c);
        assert(digits_value(d) == 10 * digits_value(d.drop_last()) + (c - 0x30));
        assert(10 * (n / 10) + n % 10 == n);
    } else {
        let c = (0x30 + n) as u8;
        let d = decimal_digits(n);
        assert(d =~= seq![c]);
        assert(d.drop_last() =~= Seq::<u8>::empty());
        assert(digits_value(d) == 10 * digits_value(d.drop_last()) + (c - 0x30));
    }
}

/// A number below ten to the power `k` has at most `k` decimal digits.
pub proof fn lemma_decimal_len(n: nat, k: nat)
    requires
        k >= 1,
        n < pow10(k),
    ensures
        decimal_digits(n).len() <= k,
    decreases n,
{
    if n >= 10 {
        assert(k >= 2) by {
            if k == 1 {
                assert(pow10(1) == 10 * pow10(0));
            }
        }
        assert(pow10(k) == 10 * pow10((k - 1) as nat));
        lemma_decimal_len(n / 10, (k - 1) as nat);
    }
}

/// A `u32` has at most ten decimal digits.
pub proof fn lemma_u32_decimal_len(n: u32)
    ensures
        decimal_digits(n as nat).len() <= 10,
{
    reveal_with_fuel(pow10, 11);
    assert(pow10(10) == 10_000_000_000);
    lemma_decimal_len(n as nat, 10);
}

/// `digits_end_from` is `n` when the bytes from `i` to `n` are digits and `n` ends them.
pub proof fn lemma_digits_end_at(b: Seq<u8>, i: int, n: int)
    requires
        0 <= i <= n <= b.len(),
        forall|j: int| i <= j < n ==> is_decimal_digit(b[j]),
        n == b.len() || !is_decimal_digit(b[n]),
    ensures
        digits_end_from(b, i) == n,
    decreases n - i,
{
    if i < n {
        lemma_digits_end_at(b, i + 1, n);
    }
}

/// Reading back the decimal text of a `u32`, followed by a non-digit, gives the number.
pub proof fn lemma_parse_u32_roundtrip(n: u32, rest: Seq<u8>)
    requires
        rest.len() == 0 || !is_decimal_digit(rest[0]),
    ensures
        spec_parse_u32(decimal_digits(n as nat) + rest) == Ok::<(u32, int), Error>(
            (n, decimal_digits(n as nat).len() as int),
        ),
{
    let d = decimal_digits(n as nat);
    let b = d + rest;
    lemma_decimal_digits(n as nat);
    assert forall|j: int| 0 <= j < d.len() implies is_decimal_digit(b[j]) by {
        assert(b[j] == d[j]);
    }
    lemma_digits_end_at(b, 0, d.len() as int);
    assert(b.subrange(0, d.len() as int) =~= d);
}

/// Appends the decimal text of `n` to `out`.
pub fn write_decimal(n: u64, out: &mut Vec<u8>)
    ensures
        final(out)@ == old(out)@ + decimal_digits(n as nat),
    decreases n,
{
    if n < 10 {
        out.push((0x30 + n) as u8);
        assert(decimal_digits(n as nat) =~= seq![(0x30 + n) as u8]);
    } else {
        write_decimal(n / 10, out);
        out.push((0x30 + n % 10) as u8);
    }
}

/// Reads a decimal `u32` from the bytes of `b` at `pos`: the longest run of digits, at
/// least one, whose value must fit in 32 bits. Returns it and the position after it.
pub fn parse_u32_at(b: &[u8], pos: usize) -> (r: Result<(u32, usize), Error>)
    requires
        pos <= b@.len(),
    ensures
        r matches Ok((v, end)) ==> pos <= end <= b@.len() && spec_parse_u32(
            b@.subrange(pos as int, b@.len() as int),
        ) == Ok::<(u32, int), Error>((v, end - pos)),
        r matches Err(e) ==> spec_parse_u32(b@.subrange(pos as int, b@.len() as int)) == Err::<
            (u32, int),
            Error,
        >(e),
{
    let ghost rest = b@.subrange(pos as int, b@.len() as int);
    let n = b.len();
    let mut e: usize = pos;
    let mut value: u64 = 0;
    let mut overflow = false;
    while e < n && 0x30 <= b[e] && b[e] <= 0x39
        invariant
            pos <= e <= n,
            n == b@.len(),
            rest == b@.subrange(pos as int, b@.len() as int),
            forall|j: int| pos <= j < e ==> is_decimal_digit(#[trigger] b@[j]),
            !overflow ==> value == digits_value(rest.subrange(0, e - pos)) && value <= u32::MAX,
            overflow ==> digits_value(rest.subrange(0, e - pos)) > u32::MAX,
        decreases n - e,
    {
        let ghost prev = rest.subrange(0, e - pos);
        let d = (b[e] - 0x30) as u64;
        proof {
            let next = rest.subrange(0, e + 1 - pos);
            assert(next.drop_last() =~= prev);
            assert(next.last() == b@[e as int]);
            assert(digits_value(next) == 10 * digits_value(prev) + d);
        }
        if !overflow {
            let v = 10 * value + d;
            if v > 0xffff_ffffu64 {
                overflow = true;
            } else {
                value = v;
            }
        }
        e = e + 1;
    }
    proof {
        assert forall|j: int| 0 <= j < e - pos implies is_decimal_digit(rest[j]) by {
            assert(rest[j] == b@[pos + j]);
        }
        if e < n {
            assert(rest[e - pos] == b@[e as int]);
        }
        lemma_digits_end_at(rest, 0, e - pos);
    }
    if e == pos {
        return Err(Error::Syntax);
    }
    if overflow {
        return Err(Error::Overflow);
    }
    Ok((value as u32, e))
}

} // verus!
