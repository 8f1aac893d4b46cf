//! Byte-level text helpers shared by the detection, search and session
//! modules.
//!
//! All matching in this library is done on UTF-8 bytes.  Case folding is
//! ASCII-only: the reference grammar and the stop-word list are ASCII, and
//! multi-byte UTF-8 sequences never collide with ASCII bytes, so byte-level
//! scanning is sound on arbitrary UTF-8 input.

use vstd::prelude::*;
use vstd::slice::slice_to_vec;

verus! {

/// ASCII lower-casing of one byte; bytes outside 'A'..='Z' are unchanged.
pub open spec fn spec_lower_byte(b: u8) -> u8 {
    if 'A' as u8 <= b <= 'Z' as u8 {
        (b + 32) as u8
    } else {
        b
    }
}

/// ASCII lower-casing of a byte sequence.
pub open spec fn spec_lower(s: Seq<u8>) -> Seq<u8> {
    s.map_values(|b: u8| spec_lower_byte(b))
}

/// ASCII whitespace, the separator class of the reference grammar and of
/// keyword-query tokenisation.
pub open spec fn spec_is_space(b: u8) -> bool {
    b == ' ' as u8 || b == '\t' as u8 || b == '\n' as u8 || b == '\r' as u8 || b == 11u8 || b
        == 12u8
}

/// ASCII decimal digit.
pub open spec fn spec_is_digit(b: u8) -> bool {
    '0' as u8 <= b <= '9' as u8
}

/// ASCII letter, either case.
pub open spec fn spec_is_letter(b: u8) -> bool {
    ('a' as u8 <= b <= 'z' as u8) || ('A' as u8 <= b <= 'Z' as u8)
}

pub fn lower_byte(b: u8) -> (r: u8)
    ensures
        r == spec_lower_byte(b),
{
    if 'A' as u8 <= b && b <= 'Z' as u8 {
        b + 32
    } else {
        b
    }
}

pub fn is_space(b: u8) -> (r: bool)
    ensures
        r == spec_is_space(b),
{
    b == ' ' as u8 || b == '\t' as u8 || b == '\n' as u8 || b == '\r' as u8 || b == 11u8 || b
        == 12u8
}

pub fn is_digit(b: u8) -> (r: bool)
    ensures
        r == spec_is_digit(b),
{
    '0' as u8 <= b && b <= '9' as u8
}

pub fn is_letter(b: u8) -> (r: bool)
    ensures
        r == spec_is_letter(b),
{
    ('a' as u8 <= b && b <= 'z' as u8) || ('A' as u8 <= b && b <= 'Z' as u8)
}

/// ASCII-lower-cases a whole byte slice into a fresh vector.
pub fn lower_bytes(s: &[u8]) -> (r: Vec<u8>)
    ensures
        r@ == spec_lower(s@),
{
    let mut out: Vec<u8> = Vec::new();
    let mut i: usize = 0;
    while i < s.len()
        invariant
            i <= s.len(),
            out@ == spec_lower(s@.subrange(0, i as int)),
        decreases s@.len() - i,
    {
        out.push(lower_byte(s[i]));
        i = i + 1;
        proof {
            assert(s@.subrange(0, i as int).drop_last() =~= s@.subrange(0, i - 1));
            assert(out@ =~= spec_lower(s@.subrange(0, i as int)));
        }
    }
    proof {
        assert(s@.subrange(0, s@.len() as int) =~= s@);
    }
    out
}

/// Equality of two byte slices.
pub fn bytes_eq(a: &[u8], b: &[u8]) -> (r: bool)
    ensures
        r == (a@ == b@),
{
    if a.len() != b.len() {
        return false;
    }
    let mut i: usize = 0;
    while i < a.len()
        invariant
            i <= a.len(),
            a@.len() == b@.len(),
            forall|j: int| 0 <= j < i ==> a@[j] == b@[j],
        decreases a@.len() - i,
    {
        if a[i] != b[i] {
            return false;
        }
        i = i + 1;
    }
    proof {
        assert(a@ =~= b@);
    }
    true
}

/// Equality of two byte sequences up to ASCII case.
pub open spec fn spec_eq_ci(a: Seq<u8>, b: Seq<u8>) -> bool {
    spec_lower(a) == spec_lower(b)
}

/// ASCII-case-insensitive equality of two byte slices.
pub fn bytes_eq_ci(a: &[u8], b: &[u8]) -> (r: bool)
    ensures
        r == spec_eq_ci(a@, b@),
{
    if a.len() != b.len() {
        proof {
            assert(spec_lower(a@).len() != spec_lower(b@).len());
        }
        return false;
    }
    let mut i: usize = 0;
    while i < a.len()
        invariant
            i <= a.len(),
            a@.len() == b@.len(),
            forall|j: int| 0 <= j < i ==> spec_lower(a@)[j] == spec_lower(b@)[j],
        decreases a@.len() - i,
    {
        if lower_byte(a[i]) != lower_byte(b[i]) {
            proof {
                assert(spec_lower(a@)[i as int] != spec_lower(b@)[i as int]);
            }
            return false;
        }
        proof {
            assert(spec_lower(a@)[i as int] == spec_lower(b@)[i as int]);
        }
        i = i + 1;
    }
    proof {
        assert(spec_lower(a@) =~= spec_lower(b@));
    }
    true
}

/// The needle occurs as a contiguous subsequence of the haystack starting at
/// position `i`.
pub open spec fn spec_occurs_at(hay: Seq<u8>, needle: Seq<u8>, i: int) -> bool {
    &&& 0 <= i
    &&& i + needle.len() <= hay.len()
    &&& hay.subrange(i, i + needle.len() as int) == needle
}

/// The needle occurs somewhere in the haystack.
pub open spec fn spec_contains(hay: Seq<u8>, needle: Seq<u8>) -> bool {
    exists|i: int| spec_occurs_at(hay, needle, i)
}

/// Naive substring search.
pub fn contains_bytes(hay: &[u8], needle: &[u8]) -> (r: bool)
    ensures
        r == spec_contains(hay@, needle@),
{
    if needle.len() == 0 {
        proof {
            assert(spec_occurs_at(hay@, needle@, 0)) by {
                assert(hay@.subrange(0, 0) =~= needle@);
            }
        }
        return true;
    }
    if needle.len() > hay.len() {
        proof {
            assert(forall|i: int| !spec_occurs_at(hay@, needle@, i));
        }
        return false;
    }
    let end: usize = hay.len() - needle.len();
    let mut i: usize = 0;
    while i <= end
        invariant
            1 <= needle.len() <= hay.len(),
            end == hay.len() - needle.len(),
            i <= end + 1,
            forall|k: int| 0 <= k < i ==> !spec_occurs_at(hay@, needle@, k),
        decreases end + 1 - i,
    {
        let mut j: usize = 0;
        let mut same: bool = true;
        while j < needle.len()
            invariant
                i + needle.len() <= hay.len(),
                j <= needle.len(),
                same ==> forall|m: int| 0 <= m < j ==> hay@[i + m] == needle@[m],
                !same ==> !spec_occurs_at(hay@, needle@, i as int),
            decreases needle@.len() - j,
        {
            if hay[i + j] != needle[j] {
                proof {
                    let sub = hay@.subrange(i as int, i + needle@.len() as int);
                    assert(sub[j as int] == hay@[i + j]);
                    assert(sub != needle@);
                }
                same = false;
                j = needle.len();
            } else {
                j = j + 1;
            }
        }
        if same {
            proof {
                assert(hay@.subrange(i as int, i + needle@.len() as int) =~= needle@);
                assert(spec_occurs_at(hay@, needle@, i as int));
            }
            return true;
        }
        i = i + 1;
    }
    proof {
        assert forall|k: int| !spec_occurs_at(hay@, needle@, k) by {
            if 0 <= k <= end {
                assert(!spec_occurs_at(hay@, needle@, k));
            }
        }
    }
    false
}

/// The views of a vector of byte vectors.
pub open spec fn spec_views(v: Seq<Vec<u8>>) -> Seq<Seq<u8>> {
    v.map_values(|w: Vec<u8>| w@)
}

/// Index of the first whitespace byte at or after `i` (the end of a token).
pub open spec fn spec_token_end(s: Seq<u8>, i: int) -> int
    decreases s.len() - i,
    when 0 <= i <= s.len()
{
    if i >= s.len() {
        i
    } else if !spec_is_space(s[i]) {
        spec_token_end(s, i + 1)
    } else {
        i
    }
}

pub proof fn lemma_trim_from_bounds(s: Seq<u8>, i: int)
    requires
        0 <= i <= s.len(),
    ensures
        i <= spec_trim_from(s, i) <= s.len(),
        spec_trim_from(s, i) < s.len() ==> !spec_is_space(s[spec_trim_from(s, i)]),
    decreases s.len() - i,
{
    if i < s.len() && spec_is_space(s[i]) {
        lemma_trim_from_bounds(s, i + 1);
    }
}

pub proof fn lemma_token_end_bounds(s: Seq<u8>, i: int)
    requires
        0 <= i <= s.len(),
    ensures
        i <= spec_token_end(s, i) <= s.len(),
    decreases s.len() - i,
{
    if i < s.len() && !spec_is_space(s[i]) {
        lemma_token_end_bounds(s, i + 1);
    }
}

/// The whitespace-separated tokens of `s[i..]`, in order.
pub open spec fn spec_tokens_from(s: Seq<u8>, i: int) -> Seq<Seq<u8>>
    decreases s.len() - i,
    when 0 <= i <= s.len()
    via spec_tokens_from_dec
{
    let start = spec_trim_from(s, i);
    if start >= s.len() {
        Seq::empty()
    } else {
        let end = spec_token_end(s, start);
        seq![s.subrange(start, end)] + spec_tokens_from(s, end)
    }
}

#[via_fn]
proof fn spec_tokens_from_dec(s: Seq<u8>, i: int) {
    lemma_trim_from_bounds(s, i);
    let start = spec_trim_from(s, i);
    if start < s.len() {
        lemma_token_end_bounds(s, start + 1);
        assert(spec_token_end(s, start) == spec_token_end(s, start + 1));
    }
}

/// The whitespace-separated tokens of a byte string.
pub open spec fn spec_tokens(s: Seq<u8>) -> Seq<Seq<u8>> {
    spec_tokens_from(s, 0)
}

/// Skipping leading whitespace does not change the token list.
pub proof fn lemma_tokens_from_skip(s: Seq<u8>, i: int)
    requires
        0 <= i <= s.len(),
    ensures
        spec_tokens_from(s, i) == spec_tokens_from(s, spec_trim_from(s, i)),
{
    lemma_trim_from_bounds(s, i);
    let start = spec_trim_from(s, i);
    if start < s.len() {
        assert(spec_trim_from(s, start) == start);
    }
}

/// First non-whitespace position at or after `from`.
pub fn skip_ws(s: &[u8], from: usize) -> (r: usize)
    requires
        from <= s@.len(),
    ensures
        r == spec_trim_from(s@, from as int),
        from <= r <= s@.len(),
{
    let mut i = from;
    while i < s.len() && is_space(s[i])
        invariant
            from <= i <= s.len(),
            spec_trim_from(s@, from as int) == spec_trim_from(s@, i as int),
        decreases s@.len() - i,
    {
        i = i + 1;
    }
    proof {
        assert(spec_trim_from(s@, i as int) == i);
    }
    i
}

/// End of the token starting at `from`.
pub fn token_end(s: &[u8], from: usize) -> (r: usize)
    requires
        from <= s@.len(),
    ensures
        r == spec_token_end(s@, from as int),
        from <= r <= s@.len(),
{
    let mut i = from;
    while i < s.len() && !is_space(s[i])
        invariant
            from <= i <= s.len(),
            spec_token_end(s@, from as int) == spec_token_end(s@, i as int),
        decreases s@.len() - i,
    {
        i = i + 1;
    }
    proof {
        assert(spec_token_end(s@, i as int) == i);
    }
    i
}

/// Splits a byte string into its whitespace-separated tokens.
pub fn tokenize(s: &[u8]) -> (r: Vec<Vec<u8>>)
    ensures
        spec_views(r@) == spec_tokens(s@),
{
    let mut out: Vec<Vec<u8>> = Vec::new();
    let mut start = skip_ws(s, 0);
    proof {
        lemma_tokens_from_skip(s@, 0);
        assert(spec_views(out@) =~= Seq::<Seq<u8>>::empty());
        assert(spec_views(out@) + spec_tokens_from(s@, start as int) =~= spec_tokens(s@));
    }
    while start < s.len()
        invariant
            start <= s.len(),
            spec_trim_from(s@, start as int) == start,
            spec_views(out@) + spec_tokens_from(s@, start as int) == spec_tokens(s@),
        decreases s@.len() - start,
    {
        let end = token_end(s, start);
        proof {
            assert(spec_token_end(s@, start as int) == spec_token_end(s@, start + 1));
            lemma_token_end_bounds(s@, start + 1);
        }
        let token = slice_to_vec(vstd::slice::slice_subrange(s, start, end));
        let ghost old_views = spec_views(out@);
        out.push(token);
        proof {
            assert(spec_views(out@) =~= old_views.push(s@.subrange(start as int, end as int)));
            lemma_tokens_from_skip(s@, end as int);
            assert(spec_tokens_from(s@, start as int) =~= seq![
                s@.subrange(start as int, end as int),
            ] + spec_tokens_from(s@, end as int));
        }
        let next = skip_ws(s, end);
        proof {
            lemma_trim_from_bounds(s@, end as int);
            assert(spec_trim_from(s@, next as int) == next);
            assert(spec_tokens_from(s@, end as int) == spec_tokens_from(s@, next as int));
            assert(spec_views(out@) + spec_tokens_from(s@, next as int) =~= spec_tokens(s@));
        }
        start = next;
    }
    proof {
        assert(spec_tokens_from(s@, start as int) =~= Seq::<Seq<u8>>::empty());
        assert(spec_views(out@) =~= spec_tokens(s@));
    }
    out
}

/// Index of the first non-whitespace byte at or after `i`.
pub open spec fn spec_trim_from(s: Seq<u8>, i: int) -> int
    decreases s.len() - i,
    when 0 <= i <= s.len()
{
    if i >= s.len() {
        i
    } else if spec_is_space(s[i]) {
        spec_trim_from(s, i + 1)
    } else {
        i
    }
}

/// Index just past the last non-whitespace byte at or before `i`.
pub open spec fn spec_trim_to(s: Seq<u8>, i: int) -> int
    decreases i,
    when 0 <= i <= s.len()
{
    if i <= 0 {
        i
    } else if spec_is_space(s[i - 1]) {
        spec_trim_to(s, i - 1)
    } else {
        i
    }
}

/// The byte sequence with leading and trailing ASCII whitespace removed.
pub open spec fn spec_trim(s: Seq<u8>) -> Seq<u8> {
    let from = spec_trim_from(s, 0);
    let to = spec_trim_to(s, s.len() as int);
    if from <= to {
        s.subrange(from, to)
    } else {
        Seq::empty()
    }
}

/// First non-whitespace position of a byte slice.
pub fn trim_from_index(s: &[u8]) -> (r: usize)
    ensures
        r == spec_trim_from(s@, 0),
        r <= s@.len(),
{
    let mut i: usize = 0;
    while i < s.len() && is_space(s[i])
        invariant
            i <= s.len(),
            spec_trim_from(s@, 0) == spec_trim_from(s@, i as int),
        decreases s@.len() - i,
    {
        i = i + 1;
    }
    proof {
        assert(spec_trim_from(s@, i as int) == i);
    }
    i
}

/// Position just past the last non-whitespace byte of a byte slice.
pub fn trim_to_index(s: &[u8]) -> (r: usize)
    ensures
        r == spec_trim_to(s@, s@.len() as int),
        r <= s@.len(),
{
    let mut i: usize = s.len();
    while i > 0 && is_space(s[i - 1])
        invariant
            i <= s.len(),
            spec_trim_to(s@, s@.len() as int) == spec_trim_to(s@, i as int),
        decreases i,
    {
        i = i - 1;
    }
    proof {
        assert(spec_trim_to(s@, i as int) == i);
    }
    i
}

} // verus!
