//! Automatic ledger checkpoints: their directory names, when to make one, and which old
//! ones to delete.
use vstd::prelude::*;

use crate::decimal::{decimal_digits, is_decimal_digit, digits_value, write_decimal};

verus! {

/// The number of blocks between automatic checkpoints.
pub const CHECKPOINT_BLOCK_FREQUENCY: u32 = 1000;

/// The number of automatic checkpoints kept.
pub const MAX_AUTO_CHECKPOINTS: usize = 5;

/// The bytes `checkpoint`.
pub open spec fn checkpoint_word() -> Seq<u8> {
    seq![0x63u8, 0x68, 0x65, 0x63, 0x6b, 0x70, 0x6f, 0x69, 0x6e, 0x74]
}

/// The directory name of the checkpoint at `height`: `checkpoint_<height>`.
pub open spec fn checkpoint_name_bytes(height: u32) -> Seq<u8> {
    checkpoint_word() + seq![0x5fu8] + decimal_digits(height as nat)
}

/// The directory name of the checkpoint at `height`.
pub fn checkpoint_name(height: u32) -> (r: Vec<u8>)
    ensures
        r@ == checkpoint_name_bytes(height),
{
    let mut r = vec![0x63u8, 0x68, 0x65, 0x63, 0x6b, 0x70, 0x6f, 0x69, 0x6e, 0x74, 0x5f];
    let ghost start = r@;
    assert(start =~= checkpoint_word() + seq![0x5fu8]);
    write_decimal(height as u64, &mut r);
    r
}

/// The height to record as the last checkpoint at start-up: the start-up height, when its
/// checkpoint directory already exists.
pub fn existing_startup_checkpoint_height(startup_height: u32, checkpoint_dir_exists: bool) -> (r: Option<u32>)
    ensures
        r == if checkpoint_dir_exists {
            Some(startup_height)
        } else {
            None::<u32>
        },
{
    if checkpoint_dir_exists {
        Some(startup_height)
    } else {
        None
    }
}

/// Whether to make a checkpoint at `current_height`: always when none was made in this
/// run, else when at least a thousand blocks came since the last one.
pub fn should_create_checkpoint(last_checkpoint_height: Option<u32>, current_height: u32) -> (r: bool)
    ensures
        r == match last_checkpoint_height {
            Some(h) => !(current_height - h < CHECKPOINT_BLOCK_FREQUENCY),
            None => true,
        },
{
    match last_checkpoint_height {
        Some(h) => !(current_height.saturating_sub(h) < CHECKPOINT_BLOCK_FREQUENCY),
        None => true,
    }
}

/// The index of the first `_` of `b` at or after `i`, or the length of `b`.
pub open spec fn underscore_from(b: Seq<u8>, i: int) -> int
    decreases b.len() - i,
{
    if i >= b.len() {
        b.len() as int
    } else if b[i] == 0x5f {
        i
    } else {
        underscore_from(b, i + 1)
    }
}

/// The `u32` that a decimal text denotes, as `u32::from_str` reads it: an optional `+`,
/// then one or more digits, whose value fits.
pub open spec fn spec_u32_from_str(s: Seq<u8>) -> Option<u32> {
    let d = unsigned_digits(s);
    if d.len() == 0 || !(forall|i: int| 0 <= i < d.len() ==> is_decimal_digit(#[trigger] d[i])) {
        None
    } else if digits_value(d) > u32::MAX {
        None
    } else {
        Some(digits_value(d) as u32)
    }
}

/// The digits of an unsigned decimal text: the text without a leading `+`.
pub open spec fn unsigned_digits(s: Seq<u8>) -> Seq<u8> {
    if s.len() > 0 && s[0] == 0x2b {
        s.subrange(1, s.len() as int)
    } else {
        s
    }
}

/// The height of a checkpoint directory named `name`: its parts split at `_` must be
/// `checkpoint` and a `u32` (any further parts are ignored).
pub open spec fn spec_checkpoint_height(name: Seq<u8>) -> Option<u32> {
    let e = underscore_from(name, 0);
    if name.subrange(0, e) != checkpoint_word() || e >= name.len() {
        None
    } else {
        spec_u32_from_str(name.subrange(e + 1, underscore_from(name, e + 1)))
    }
}

/// `underscore_from` is `n` when the bytes from `i` to `n` are not `_` and `n` ends them.
proof fn lemma_underscore_at(b: Seq<u8>, i: int, n: int)
    requires
        0 <= i <= n <= b.len(),
        forall|j: int| i <= j < n ==> b[j] != 0x5f,
        n == b.len() || b[n] == 0x5f,
    ensures
        underscore_from(b, i) == n,
    decreases n - i,
{
    if i < n {
        lemma_underscore_at(b, i + 1, n);
    }
}

/// Reads a `u32` from its decimal text, as `u32::from_str` does.
pub fn u32_from_str(s: &[u8]) -> (r: Option<u32>)
    ensures
        r == spec_u32_from_str(s@),
{
    let n = s.len();
    let start: usize = if n > 0 && s[0] == 0x2b {
        1
    } else {
        0
    };
    let ghost d = s@.subrange(start as int, n as int);
    assert(d =~= unsigned_digits(s@));
    if start == n {
        return None;
    }
    let mut i: usize = start;
    let mut value: u64 = 0;
    while i < n
        invariant
            start <= i <= n,
            n == s@.len(),
            d == s@.subrange(start as int, n as int),
            d == unsigned_digits(s@),
            forall|j: int| 0 <= j < i - start ==> is_decimal_digit(#[trigger] d[j]),
            value == digits_value(d.subrange(0, i - start)),
            value <= u32::MAX,
        decreases n - i,
    {
        let c = s[i];
        if !(0x30 <= c && c <= 0x39) {
            assert(d[i - start] == c);
            assert(!is_decimal_digit(d[i - start]));
            assert(!(forall|j: int| 0 <= j < d.len() ==> is_decimal_digit(#[trigger] d[j])));
            return None;
        }
        proof {
            let next = d.subrange(0, i + 1 - start);
            assert(next.drop_last() =~= d.subrange(0, i - start));
            assert(next.last() == c);
            assert(d[i - start] == c);
        }
        let v = 10 * value + (c - 0x30) as u64;
        if v > 0xffff_ffffu64 {
            proof {
                let next = d.subrange(0, i + 1 - start);
                assert(next.drop_last() =~= d.subrange(0, i - start));
                assert(digits_value(next) == v);
                if forall|j: int| 0 <= j < d.len() ==> is_decimal_digit(#[trigger] d[j]) {
                    lemma_digits_value_monotone(d, i + 1 - start);
                }
            }
            return None;
        }
        value = v;
        i = i + 1;
    }
    assert(d.subrange(0, n - start) =~= d);
    Some(value as u32)
}

/// The value of a prefix of digits is at most the value of all of them.
proof fn lemma_digits_value_monotone(d: Seq<u8>, k: int)
    requires
        0 <= k <= d.len(),
        forall|i: int| 0 <= i < d.len() ==> is_decimal_digit(#[trigger] d[i]),
    ensures
        digits_value(d.subrange(0, k)) <= digits_value(d),
    decreases d.len() - k,
{
    if k < d.len() {
        lemma_digits_value_monotone(d, k + 1);
        let next = d.subrange(0, k + 1);
        assert(next.drop_last() =~= d.subrange(0, k));
        assert(is_decimal_digit(next.last()));
    } else {
        assert(d.subrange(0, k) =~= d);
    }
}

/// The height of a checkpoint directory named `name`, if it is one.
pub fn checkpoint_height(name: &[u8]) -> (r: Option<u32>)
    ensures
        r == spec_checkpoint_height(name@),
{
    let n = name.len();
    let mut e: usize = 0;
    while e < n && name[e] != 0x5f
        invariant
            e <= n,
            n == name@.len(),
            forall|j: int| 0 <= j < e ==> name@[j] != 0x5f,
        decreases n - e,
    {
        e = e + 1;
    }
    proof {
        lemma_underscore_at(name@, 0, e as int);
    }
    let word = [0x63u8, 0x68, 0x65, 0x63, 0x6b, 0x70, 0x6f, 0x69, 0x6e, 0x74];
    assert(word@ =~= checkpoint_word());
    let (head, _) = name.split_at(e);
    if !crate::literal_type::bytes_equal(head, &word) || e >= n {
        return None;
    }
    let mut f: usize = e + 1;
    while f < n && name[f] != 0x5f
        invariant
            e + 1 <= f <= n,
            n == name@.len(),
            forall|j: int| e + 1 <= j < f ==> name@[j] != 0x5f,
        decreases n - f,
    {
        f = f + 1;
    }
    proof {
        lemma_underscore_at(name@, e + 1, f as int);
    }
    let (upto, _) = name.split_at(f);
    let (_, part) = upto.split_at(e + 1);
    assert(part@ =~= name@.subrange(e + 1, f as int));
    u32_from_str(part)
}

/// Reading back the name of a checkpoint directory gives its height.
pub proof fn lemma_checkpoint_name_roundtrip(height: u32)
    ensures
        spec_checkpoint_height(checkpoint_name_bytes(height)) == Some(height),
{
    let name = checkpoint_name_bytes(height);
    let d = decimal_digits(height as nat);
    crate::decimal::lemma_decimal_digits(height as nat);
    assert forall|j: int| 0 <= j < 10 implies name[j] != 0x5f by {
        assert(name[j] == checkpoint_word()[j]);
    }
    lemma_underscore_at(name, 0, 10);
    assert(name.subrange(0, 10) =~= checkpoint_word());
    assert forall|j: int| 11 <= j < name.len() implies name[j] != 0x5f by {
        assert(name[j] == d[j - 11]);
        assert(is_decimal_digit(d[j - 11]));
    }
    lemma_underscore_at(name, 11, name.len() as int);
    assert(name.subrange(11, name.len() as int) =~= d);
    assert(d[0] != 0x2b) by {
        assert(is_decimal_digit(d[0]));
    }
}

/// Whether `r` lists the indices of the checkpoints to delete when `heights` are the
/// heights of the existing ones: all but the newest five, each once, and none newer than
/// a kept one.
pub open spec fn is_surplus_selection(heights: Seq<u32>, r: Seq<usize>) -> bool {
    &&& r.len() == if heights.len() > MAX_AUTO_CHECKPOINTS {
        heights.len() - MAX_AUTO_CHECKPOINTS
    } else {
        0
    }
    &&& r.no_duplicates()
    &&& forall|j: int| 0 <= j < r.len() ==> #[trigger] r[j] < heights.len()
    &&& forall|j: int, k: int|
        #![trigger r[j], heights[k]]
        0 <= j < r.len() && 0 <= k < heights.len() && !r.contains(k as usize) ==> heights[r[j] as int]
            <= heights[k]
}

/// The indices of the checkpoints to delete: all but the five with the greatest heights.
pub fn checkpoints_to_remove(heights: &[u32]) -> (r: Vec<usize>)
    ensures
        is_surplus_selection(heights@, r@),
{
    let n = heights.len();
    let surplus = n.saturating_sub(MAX_AUTO_CHECKPOINTS);
    let mut r: Vec<usize> = Vec::new();
    let mut chosen: Vec<bool> = Vec::new();
    let mut i: usize = 0;
    while i < n
        invariant
            i <= n,
            n == heights@.len(),
            chosen@.len() == i,
            forall|j: int| 0 <= j < i ==> !chosen@[j],
        decreases n - i,
    {
        chosen.push(false);
        i = i + 1;
    }
    let mut round: usize = 0;
    while round < surplus
        invariant
            round <= surplus,
            surplus <= n,
            n == heights@.len(),
            chosen@.len() == n,
            r@.len() == round,
            r@.no_duplicates(),
            forall|j: int| 0 <= j < r@.len() ==> #[trigger] r@[j] < n,
            forall|k: int| 0 <= k < n ==> (chosen@[k] <==> r@.contains(k as usize)),
            forall|j: int, k: int|
                #![trigger r@[j], heights@[k]]
                0 <= j < r@.len() && 0 <= k < n && !chosen@[k] ==> heights@[r@[j] as int] <= heights@[k],
        decreases surplus - round,
    {
        proof {
            lemma_unchosen_exists(chosen@, r@, n as int);
        }
        let mut best: usize = 0;
        let mut found = false;
        let mut k: usize = 0;
        while k < n
            invariant
                k <= n,
                n == heights@.len(),
                chosen@.len() == n,
                found ==> best < n && !chosen@[best as int],
                found ==> forall|m: int| 0 <= m < k && !chosen@[m] ==> heights@[best as int] <= #[trigger] heights@[m],
                !found ==> forall|m: int| 0 <= m < k ==> #[trigger] chosen@[m],
            decreases n - k,
        {
            if !chosen[k] && (!found || heights[k] < heights[best]) {
                best = k;
                found = true;
            }
            k = k + 1;
        }
        if !found {
            proof {
                let m = choose|m: int| 0 <= m < n && !chosen@[m];
                assert(chosen@[m]);
            }
        }
        let ghost old_r = r@;
        let ghost old_chosen = chosen@;
        r.push(best);
        chosen.set(best, true);
        proof {
            assert(!old_r.contains(best));
            assert forall|a: int, b: int| 0 <= a < b < r@.len() implies r@[a] != r@[b] by {
                if b == r@.len() - 1 {
                    assert(old_r.contains(r@[a]));
                }
            }
            assert forall|k: int| 0 <= k < n implies (chosen@[k] <==> r@.contains(k as usize)) by {
                if k == best {
                    assert(r@[r@.len() - 1] == best);
                } else {
                    assert(chosen@[k] == old_chosen[k]);
                    if r@.contains(k as usize) {
                        let j = choose|j: int| 0 <= j < r@.len() && r@[j] == k as usize;
                        assert(j < old_r.len());
                        assert(old_r[j] == k as usize);
                    }
                    if old_r.contains(k as usize) {
                        let j = choose|j: int| 0 <= j < old_r.len() && old_r[j] == k as usize;
                        assert(r@[j] == k as usize);
                    }
                }
            }
            assert forall|j: int, k: int|
                #![trigger r@[j], heights@[k]]
                0 <= j < r@.len() && 0 <= k < n && !chosen@[k] implies heights@[r@[j] as int] <= heights@[k] by {
                assert(!old_chosen[k]);
                if j < old_r.len() {
                    assert(r@[j] == old_r[j]);
                }
            }
        }
        round = round + 1;
    }
    proof {
        assert forall|j: int, k: int|
            #![trigger r@[j], heights@[k]]
            0 <= j < r@.len() && 0 <= k < heights@.len() && !r@.contains(k as usize) implies heights@[r@[j] as int]
                <= heights@[k] by {
            assert(!chosen@[k]);
        }
    }
    r
}

/// While fewer indices than there are are chosen, some index is not chosen.
proof fn lemma_unchosen_exists(chosen: Seq<bool>, r: Seq<usize>, n: int)
    requires
        0 <= n <= usize::MAX,
        chosen.len() == n,
        r.len() < n,
        r.no_duplicates(),
        forall|j: int| 0 <= j < r.len() ==> #[trigger] r[j] < n,
        forall|k: int| 0 <= k < n ==> (chosen[k] <==> r.contains(k as usize)),
    ensures
        exists|m: int| 0 <= m < n && !chosen[m],
{
    if forall|m: int| 0 <= m < n ==> chosen[m] {
        let full = Set::new(|i: usize| (i as int) < n);
        let rs = r.to_set();
        assert forall|i: usize| full.contains(i) implies rs.contains(i) by {
            assert(chosen[i as int]);
        }
        r.unique_seq_to_set();
        lemma_usize_range_len(n);
        vstd::set_lib::lemma_len_subset(full, rs);
        assert(false);
    }
}

/// The set of `usize` values below `n` has `n` elements.
proof fn lemma_usize_range_len(n: int)
    requires
        0 <= n <= usize::MAX + 1,
    ensures
        Set::new(|i: usize| (i as int) < n).finite(),
        Set::new(|i: usize| (i as int) < n).len() == n,
    decreases n,
{
    let s = Set::new(|i: usize| (i as int) < n);
    if n == 0 {
        assert(s =~= Set::<usize>::empty());
    } else {
        lemma_usize_range_len(n - 1);
        let t = Set::new(|i: usize| (i as int) < n - 1);
        assert(s =~= t.insert((n - 1) as usize));
    }
}

} // verus!
