use vstd::prelude::*;
use vstd::string::StrSliceExecFns;

use crate::checklist::{is_space, is_space_char};

verus! {

/// Index of the first non-whitespace character at or after `i`.
pub open spec fn skip_spaces(s: Seq<char>, i: int) -> int
    decreases s.len() - i,
{
    if i < 0 || i >= s.len() {
        s.len() as int
    } else if is_space(s[i]) {
        skip_spaces(s, i + 1)
    } else {
        i
    }
}

/// Index just past the word starting at `i`.
pub open spec fn word_end(s: Seq<char>, i: int) -> int
    decreases s.len() - i,
{
    if i < 0 || i >= s.len() {
        s.len() as int
    } else if is_space(s[i]) {
        i
    } else {
        word_end(s, i + 1)
    }
}

pub proof fn lemma_skip_spaces_bounds(s: Seq<char>, i: int)
    requires
        0 <= i <= s.len(),
    ensures
        i <= skip_spaces(s, i) <= s.len(),
        skip_spaces(s, i) < s.len() ==> !is_space(s[skip_spaces(s, i)]),
    decreases s.len() - i,
{
    if i < s.len() && is_space(s[i]) {
        lemma_skip_spaces_bounds(s, i + 1);
    }
}

pub proof fn lemma_word_end_bounds(s: Seq<char>, i: int)
    requires
        0 <= i <= s.len(),
    ensures
        i <= word_end(s, i) <= s.len(),
        word_end(s, i) < s.len() ==> is_space(s[word_end(s, i)]),
    decreases s.len() - i,
{
    if i < s.len() && !is_space(s[i]) {
        lemma_word_end_bounds(s, i + 1);
    }
}

/// Greedy word filling: starting at `i` with `acc` already laid out, append
/// each following word while the line stays within `limit` characters; stop
/// at the first word that does not fit.  An overlong first word yields an
/// empty result.
pub open spec fn fill_words(s: Seq<char>, i: int, acc: Seq<char>, limit: int) -> Seq<char>
    decreases s.len() - i,
    via fill_words_decreases
{
    let w = skip_spaces(s, i);
    if w >= s.len() {
        acc
    } else {
        let e = word_end(s, w);
        let word = s.subrange(w, e);
        if acc.len() == 0 {
            if word.len() > limit {
                acc
            } else {
                fill_words(s, e, word, limit)
            }
        } else if acc.len() + 1 + word.len() <= limit {
            fill_words(s, e, acc + seq![' '] + word, limit)
        } else {
            acc
        }
    }
}

#[via_fn]
proof fn fill_words_decreases(s: Seq<char>, i: int, acc: Seq<char>, limit: int) {
    if 0 <= i && i <= s.len() {
        lemma_skip_spaces_bounds(s, i);
        let w = skip_spaces(s, i);
        if w < s.len() {
            lemma_word_end_bounds(s, w + 1);
        }
    }
}

/// Lines that greedy word wrapping needs from position `i` on, with `col`
/// characters already on the current line and `lines` lines begun.
pub open spec fn wrap_from(s: Seq<char>, i: int, col: int, lines: int, width: int) -> int
    decreases s.len() - i,
    via wrap_from_decreases
{
    let w = skip_spaces(s, i);
    if w >= s.len() {
        lines
    } else {
        let e = word_end(s, w);
        let wlen = e - w;
        if col == 0 {
            wrap_from(s, e, wlen, lines, width)
        } else if col + 1 + wlen <= width {
            wrap_from(s, e, col + 1 + wlen, lines, width)
        } else {
            wrap_from(s, e, wlen, lines + 1, width)
        }
    }
}

#[via_fn]
proof fn wrap_from_decreases(s: Seq<char>, i: int, col: int, lines: int, width: int) {
    if 0 <= i && i <= s.len() {
        lemma_skip_spaces_bounds(s, i);
        let w = skip_spaces(s, i);
        if w < s.len() {
            lemma_word_end_bounds(s, w + 1);
        }
    }
}

/// How many lines a text wraps to at the given width.
pub open spec fn spec_wrap_line_count(s: Seq<char>, width: int) -> int {
    if s.len() == 0 || width == 0 {
        1
    } else {
        wrap_from(s, 0, 0, 1, width)
    }
}

pub(crate) fn find_nonspace(text: &str, i: usize) -> (r: usize)
    requires
        i <= text@.len(),
    ensures
        i <= r <= text@.len(),
        r == skip_spaces(text@, i as int),
        r < text@.len() ==> !is_space(text@[r as int]),
    decreases text@.len() - i,
{
    let n = text.unicode_len();
    let mut k: usize = i;
    while k < n && is_space_char(text.get_char(k))
        invariant
            i <= k <= n,
            n == text@.len(),
            skip_spaces(text@, i as int) == skip_spaces(text@, k as int),
        decreases n - k,
    {
        k = k + 1;
    }
    k
}

pub(crate) fn find_word_end(text: &str, i: usize) -> (r: usize)
    requires
        i <= text@.len(),
    ensures
        i <= r <= text@.len(),
        r == word_end(text@, i as int),
        r < text@.len() ==> is_space(text@[r as int]),
        i < text@.len() && !is_space(text@[i as int]) ==> r > i,
    decreases text@.len() - i,
{
    let n = text.unicode_len();
    let mut k: usize = i;
    while k < n && !is_space_char(text.get_char(k))
        invariant
            i <= k <= n,
            n == text@.len(),
            word_end(text@, i as int) == word_end(text@, k as int),
            k > i ==> word_end(text@, i as int) >= k,
        decreases n - k,
    {
        proof {
            lemma_word_end_bounds(text@, k + 1);
        }
        k = k + 1;
    }
    k
}

} // verus!
