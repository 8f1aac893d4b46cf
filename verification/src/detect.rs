//! Explicit-reference grammar: recognises spoken or typed scripture
//! references of the form "Book Chapter:Verse" inside free text.
//!
//! The grammar, scanned over UTF-8 bytes, is the leftmost occurrence of
//!
//! > optional book number `1`..`3`, optional whitespace, one or more ASCII
//! > letters (the book token includes the number when present), whitespace,
//! > digits (chapter), one or more colons or whitespace characters, digits
//! > (verse)
//!
//! matched greedily at each position, earliest position first.  "John 3:16",
//! "1 john 5 7" and "1jn 3: 16" all match; the book token is later
//! normalised against the alias table of the corpus index.

use vstd::prelude::*;
use crate::text::{spec_is_space, spec_is_digit, spec_is_letter, is_space, is_digit, is_letter};

verus! {

/// Byte positions of one recognised reference inside the scanned text:
/// half-open ranges for the book token, the chapter digits and the verse
/// digits.
#[derive(Clone, Copy, Debug, PartialEq, Eq, Structural)]
pub struct RefSpan {
    pub book_start: usize,
    pub book_end: usize,
    pub chapter_start: usize,
    pub chapter_end: usize,
    pub verse_start: usize,
    pub verse_end: usize,
}

/// The same positions as mathematical integers, for specifications.
pub struct SpecRefSpan {
    pub book_start: int,
    pub book_end: int,
    pub chapter_start: int,
    pub chapter_end: int,
    pub verse_start: int,
    pub verse_end: int,
}

/// A leading `1`, `2` or `3` that may begin a numbered book name.
pub open spec fn spec_is_book_number(b: u8) -> bool {
    '1' as u8 <= b <= '3' as u8
}

/// A chapter/verse separator byte: colon or whitespace.
pub open spec fn spec_is_sep(b: u8) -> bool {
    b == ':' as u8 || spec_is_space(b)
}

pub open spec fn spec_skip_spaces(s: Seq<u8>, i: int) -> int
    decreases s.len() - i,
    when 0 <= i <= s.len()
{
    if i >= s.len() {
        i
    } else if spec_is_space(s[i]) {
        spec_skip_spaces(s, i + 1)
    } else {
        i
    }
}

pub open spec fn spec_skip_digits(s: Seq<u8>, i: int) -> int
    decreases s.len() - i,
    when 0 <= i <= s.len()
{
    if i >= s.len() {
        i
    } else if spec_is_digit(s[i]) {
        spec_skip_digits(s, i + 1)
    } else {
        i
    }
}

pub open spec fn spec_skip_letters(s: Seq<u8>, i: int) -> int
    decreases s.len() - i,
    when 0 <= i <= s.len()
{
    if i >= s.len() {
        i
    } else if spec_is_letter(s[i]) {
        spec_skip_letters(s, i + 1)
    } else {
        i
    }
}

pub open spec fn spec_skip_sep(s: Seq<u8>, i: int) -> int
    decreases s.len() - i,
    when 0 <= i <= s.len()
{
    if i >= s.len() {
        i
    } else if spec_is_sep(s[i]) {
        spec_skip_sep(s, i + 1)
    } else {
        i
    }
}

/// End of the book token of a match attempt starting at `i`, if the token
/// part of the grammar matches there.  A leading book number commits the
/// attempt to the numbered form: the letters must follow its optional
/// whitespace.
pub open spec fn spec_book_end(s: Seq<u8>, i: int) -> Option<int>
    recommends
        0 <= i <= s.len(),
{
    if i < s.len() && spec_is_book_number(s[i]) {
        let after_spaces = spec_skip_spaces(s, i + 1);
        let after_letters = spec_skip_letters(s, after_spaces);
        if after_letters > after_spaces {
            Some(after_letters)
        } else {
            None
        }
    } else {
        let after_letters = spec_skip_letters(s, i);
        if after_letters > i {
            Some(after_letters)
        } else {
            None
        }
    }
}

/// The match attempt at position `i`: book token, mandatory whitespace,
/// chapter digits, separator run, verse digits, each run taken greedily.
pub open spec fn spec_match_at(s: Seq<u8>, i: int) -> Option<SpecRefSpan>
    recommends
        0 <= i <= s.len(),
{
    match spec_book_end(s, i) {
        None => None,
        Some(book_end) => {
            let ch_start = spec_skip_spaces(s, book_end);
            if ch_start == book_end {
                None
            } else {
                let ch_end = spec_skip_digits(s, ch_start);
                if ch_end == ch_start {
                    None
                } else {
                    let vs_start = spec_skip_sep(s, ch_end);
                    if vs_start == ch_end {
                        None
                    } else {
                        let vs_end = spec_skip_digits(s, vs_start);
                        if vs_end == vs_start {
                            None
                        } else {
                            Some(
                                SpecRefSpan {
                                    book_start: i,
                                    book_end: book_end,
                                    chapter_start: ch_start,
                                    chapter_end: ch_end,
                                    verse_start: vs_start,
                                    verse_end: vs_end,
                                },
                            )
                        }
                    }
                }
            }
        },
    }
}

/// The match at the earliest position at or after `i`.
pub open spec fn spec_find_from(s: Seq<u8>, i: int) -> Option<SpecRefSpan>
    decreases s.len() - i,
    when 0 <= i <= s.len()
{
    if i >= s.len() {
        None
    } else if spec_match_at(s, i) is Some {
        spec_match_at(s, i)
    } else {
        spec_find_from(s, i + 1)
    }
}

/// The leftmost explicit reference in the text, if any.
pub open spec fn spec_find_ref(s: Seq<u8>) -> Option<SpecRefSpan> {
    spec_find_from(s, 0)
}

/// An executable span and a specification span describe the same positions.
pub open spec fn span_matches(r: RefSpan, m: SpecRefSpan) -> bool {
    &&& r.book_start == m.book_start
    &&& r.book_end == m.book_end
    &&& r.chapter_start == m.chapter_start
    &&& r.chapter_end == m.chapter_end
    &&& r.verse_start == m.verse_start
    &&& r.verse_end == m.verse_end
}

fn skip_spaces(s: &[u8], from: usize) -> (r: usize)
    requires
        from <= s@.len(),
    ensures
        r == spec_skip_spaces(s@, from as int),
        from <= r <= s@.len(),
{
    let mut i = from;
    while i < s.len() && is_space(s[i])
        invariant
            from <= i <= s.len(),
            spec_skip_spaces(s@, from as int) == spec_skip_spaces(s@, i as int),
        decreases s@.len() - i,
    {
        i = i + 1;
    }
    proof {
        assert(spec_skip_spaces(s@, i as int) == i);
    }
    i
}

fn skip_digits(s: &[u8], from: usize) -> (r: usize)
    requires
        from <= s@.len(),
    ensures
        r == spec_skip_digits(s@, from as int),
        from <= r <= s@.len(),
{
    let mut i = from;
    while i < s.len() && is_digit(s[i])
        invariant
            from <= i <= s.len(),
            spec_skip_digits(s@, from as int) == spec_skip_digits(s@, i as int),
        decreases s@.len() - i,
    {
        i = i + 1;
    }
    proof {
        assert(spec_skip_digits(s@, i as int) == i);
    }
    i
}

fn skip_letters(s: &[u8], from: usize) -> (r: usize)
    requires
        from <= s@.len(),
    ensures
        r == spec_skip_letters(s@, from as int),
        from <= r <= s@.len(),
{
    let mut i = from;
    while i < s.len() && is_letter(s[i])
        invariant
            from <= i <= s.len(),
            spec_skip_letters(s@, from as int) == spec_skip_letters(s@, i as int),
        decreases s@.len() - i,
    {
        i = i + 1;
    }
    proof {
        assert(spec_skip_letters(s@, i as int) == i);
    }
    i
}

fn skip_sep(s: &[u8], from: usize) -> (r: usize)
    requires
        from <= s@.len(),
    ensures
        r == spec_skip_sep(s@, from as int),
        from <= r <= s@.len(),
{
    let mut i = from;
    while i < s.len() && (s[i] == ':' as u8 || is_space(s[i]))
        invariant
            from <= i <= s.len(),
            spec_skip_sep(s@, from as int) == spec_skip_sep(s@, i as int),
        decreases s@.len() - i,
    {
        i = i + 1;
    }
    proof {
        assert(spec_skip_sep(s@, i as int) == i);
    }
    i
}

/// Runs one match attempt at position `i`.
fn match_at(s: &[u8], i: usize) -> (r: Option<RefSpan>)
    requires
        i <= s@.len(),
    ensures
        match spec_match_at(s@, i as int) {
            Some(m) => (r matches Some(x) && span_matches(x, m)),
            None => r is None,
        },
        r matches Some(x) ==> x.book_start <= x.book_end <= x.chapter_start <= x.chapter_end
            <= x.verse_start <= x.verse_end <= s@.len(),
{
    let book_end_opt: Option<usize> = if i < s.len() && '1' as u8 <= s[i] && s[i] <= '3' as u8 {
        let after_spaces = skip_spaces(s, i + 1);
        let after_letters = skip_letters(s, after_spaces);
        if after_letters > after_spaces {
            Some(after_letters)
        } else {
            None
        }
    } else {
        let after_letters = skip_letters(s, i);
        if after_letters > i {
            Some(after_letters)
        } else {
            None
        }
    };
    match book_end_opt {
        None => None,
        Some(book_end) => {
            let ch_start = skip_spaces(s, book_end);
            if ch_start == book_end {
                return None;
            }
            let ch_end = skip_digits(s, ch_start);
            if ch_end == ch_start {
                return None;
            }
            let vs_start = skip_sep(s, ch_end);
            if vs_start == ch_end {
                return None;
            }
            let vs_end = skip_digits(s, vs_start);
            if vs_end == vs_start {
                return None;
            }
            Some(
                RefSpan {
                    book_start: i,
                    book_end,
                    chapter_start: ch_start,
                    chapter_end: ch_end,
                    verse_start: vs_start,
                    verse_end: vs_end,
                },
            )
        },
    }
}

/// Finds the leftmost explicit reference in the text.
pub fn find_ref(s: &[u8]) -> (r: Option<RefSpan>)
    ensures
        match spec_find_ref(s@) {
            Some(m) => (r matches Some(x) && span_matches(x, m)),
            None => r is None,
        },
        r matches Some(x) ==> x.book_start <= x.book_end <= x.chapter_start <= x.chapter_end
            <= x.verse_start <= x.verse_end <= s@.len(),
{
    let mut i: usize = 0;
    while i < s.len()
        invariant
            i <= s.len(),
            spec_find_from(s@, 0) == spec_find_from(s@, i as int),
        decreases s@.len() - i,
    {
        let attempt = match_at(s, i);
        match attempt {
            Some(span) => {
                proof {
                    assert(spec_find_from(s@, i as int) == spec_match_at(s@, i as int));
                }
                return Some(span);
            },
            None => {
                proof {
                    assert(spec_find_from(s@, i as int) == spec_find_from(s@, i + 1));
                }
                i = i + 1;
            },
        }
    }
    proof {
        assert(spec_find_from(s@, i as int) is None);
    }
    None
}

/// Decimal value of the digit run `s[from..to]`.
pub open spec fn spec_digits_val(s: Seq<u8>, from: int, to: int) -> nat
    decreases to - from,
    when 0 <= from <= to <= s.len()
{
    if from >= to {
        0
    } else {
        spec_digits_val(s, from, to - 1) * 10 + (if spec_is_digit(s[to - 1]) {
            (s[to - 1] - '0' as u8) as nat
        } else {
            0
        })
    }
}

proof fn lemma_digits_val_grows(s: Seq<u8>, from: int, mid: int, to: int)
    requires
        0 <= from <= mid <= to <= s.len(),
    ensures
        spec_digits_val(s, from, mid) <= spec_digits_val(s, from, to),
    decreases to - mid,
{
    if mid < to {
        lemma_digits_val_grows(s, from, mid, to - 1);
        assert(spec_digits_val(s, from, to - 1) * 10 >= spec_digits_val(s, from, to - 1))
            by (nonlinear_arith);
    }
}

/// Parses the digit run `s[from..to]` as a chapter or verse number.
/// Mirrors a 32-bit signed parse: values beyond `LOCATOR_MAX` fail, and a
/// failed parse makes the whole detection fail rather than fall through to a
/// later match.
pub fn parse_locator(s: &[u8], from: usize, to: usize) -> (r: Option<i32>)
    requires
        from <= to <= s@.len(),
    ensures
        spec_digits_val(s@, from as int, to as int) <= i32::MAX ==> (r matches Some(v) && v
            == spec_digits_val(s@, from as int, to as int)),
        spec_digits_val(s@, from as int, to as int) > i32::MAX ==> r is None,
{
    let mut acc: u64 = 0;
    let mut j = from;
    while j < to
        invariant
            from <= j <= to <= s@.len(),
            acc == spec_digits_val(s@, from as int, j as int),
            acc <= i32::MAX,
        decreases to - j,
    {
        let d: u64 = if '0' as u8 <= s[j] && s[j] <= '9' as u8 {
            (s[j] - '0' as u8) as u64
        } else {
            0
        };
        acc = acc * 10 + d;
        j = j + 1;
        proof {
            assert(acc == spec_digits_val(s@, from as int, j as int));
        }
        if acc > i32::MAX as u64 {
            proof {
                lemma_digits_val_grows(s@, from as int, j as int, to as int);
            }
            return None;
        }
    }
    Some(acc as i32)
}

} // verus!
