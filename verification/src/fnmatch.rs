//! Shell-style wildcard matching.
//!
//! A pattern is matched against a whole text, never against a part of it.
//! Both are read as the bytes of their UTF-8 encoding: `?` stands for exactly
//! one byte, `*` for any run of bytes (the empty run included), and every
//! other byte for itself. Nothing is escaped and there are no character
//! classes; upper and lower case differ.

use vstd::prelude::*;
use vstd::utf8::{encode_utf8, is_ascii_chars, is_ascii_chars_encode_utf8};

verus! {

/// The byte `*`.
pub const STAR: u8 = 42u8;

/// The byte `?`.
pub const QUESTION: u8 = 63u8;

/// Whether the whole of `text` matches the whole of `pattern`.
///
/// A `*` at the head of the pattern either stands for nothing, and the rest of
/// the pattern has to match the text, or it takes one byte of the text and
/// stays where it is.
pub open spec fn glob_match(pattern: Seq<u8>, text: Seq<u8>) -> bool
    decreases pattern.len(), text.len(),
{
    if pattern.len() == 0 {
        text.len() == 0
    } else if pattern[0] == STAR {
        glob_match(pattern.drop_first(), text) || (text.len() > 0 && glob_match(
            pattern,
            text.drop_first(),
        ))
    } else if pattern[0] == QUESTION {
        text.len() > 0 && glob_match(pattern.drop_first(), text.drop_first())
    } else {
        text.len() > 0 && pattern[0] == text[0] && glob_match(
            pattern.drop_first(),
            text.drop_first(),
        )
    }
}

/// Matching of two texts given by their characters: the match is made on the
/// bytes of their UTF-8 encodings.
pub open spec fn text_match(pattern: Seq<char>, text: Seq<char>) -> bool {
    glob_match(encode_utf8(pattern), encode_utf8(text))
}

/// Whether what is left of `text` from `j` on matches what is left of
/// `pattern` from `i` on.
pub open spec fn glob_match_from(pattern: Seq<u8>, text: Seq<u8>, i: int, j: int) -> bool {
    glob_match(pattern.skip(i), text.skip(j))
}

/// `glob_match_from` at `(i, j)` in terms of its values at `(i + 1, j)`,
/// `(i, j + 1)` and `(i + 1, j + 1)`.
proof fn lemma_glob_match_from_step(pattern: Seq<u8>, text: Seq<u8>, i: int, j: int)
    requires
        0 <= i <= pattern.len(),
        0 <= j <= text.len(),
    ensures
        i == pattern.len() ==> glob_match_from(pattern, text, i, j) == (j == text.len()),
        i < pattern.len() && pattern[i] == STAR ==> glob_match_from(pattern, text, i, j) == (
        glob_match_from(pattern, text, i + 1, j) || (j < text.len() && glob_match_from(
            pattern,
            text,
            i,
            j + 1,
        ))),
        i < pattern.len() && pattern[i] == QUESTION ==> glob_match_from(pattern, text, i, j) == (j
            < text.len() && glob_match_from(pattern, text, i + 1, j + 1)),
        i < pattern.len() && pattern[i] != STAR && pattern[i] != QUESTION ==> glob_match_from(
            pattern,
            text,
            i,
            j,
        ) == (j < text.len() && pattern[i] == text[j] && glob_match_from(
            pattern,
            text,
            i + 1,
            j + 1,
        )),
{
    let p = pattern.skip(i);
    let t = text.skip(j);
    if i < pattern.len() {
        assert(p[0] == pattern[i]);
        assert(p.drop_first() =~= pattern.skip(i + 1));
    }
    if j < text.len() {
        assert(t[0] == text[j]);
        assert(t.drop_first() =~= text.skip(j + 1));
    }
}

/// Matches the bytes of `text` against the bytes of `pattern`.
///
/// The work is bounded by the product of the two lengths: one row of answers
/// is kept for each position of the pattern, and filled from the answers for
/// the position after it.
pub fn fnmatch_bytes(pattern: &[u8], text: &[u8]) -> (matched: bool)
    ensures
        matched == glob_match(pattern@, text@),
{
    let m = pattern.len();
    let n = text.len();
    // `below[j]` answers for the pattern from `i` on and the text from `j` on,
    // for every `j < n`; `below_end` answers for the text from `n` on.
    let mut below: Vec<bool> = Vec::new();
    let mut k: usize = 0;
    while k < n
        invariant
            k <= n,
            n == text@.len(),
            m == pattern@.len(),
            below@.len() == k,
            forall|j: int|
                0 <= j < k ==> below@[j] == glob_match_from(pattern@, text@, m as int, j),
        decreases n - k,
    {
        proof {
            lemma_glob_match_from_step(pattern@, text@, m as int, k as int);
        }
        below.push(false);
        k += 1;
    }
    let mut below_end = true;
    proof {
        lemma_glob_match_from_step(pattern@, text@, m as int, n as int);
    }
    let mut i: usize = m;
    while i > 0
        invariant
            i <= m,
            n == text@.len(),
            m == pattern@.len(),
            below@.len() == n,
            forall|j: int|
                0 <= j < n ==> below@[j] == glob_match_from(pattern@, text@, i as int, j),
            below_end == glob_match_from(pattern@, text@, i as int, n as int),
        decreases i,
    {
        i -= 1;
        let p = pattern[i];
        proof {
            lemma_glob_match_from_step(pattern@, text@, i as int, n as int);
        }
        let row_end = p == STAR && below_end;
        let mut row: Vec<bool> = below.clone();
        let mut right = row_end;
        let mut j: usize = n;
        while j > 0
            invariant
                j <= n,
                i < m,
                n == text@.len(),
                m == pattern@.len(),
                p == pattern@[i as int],
                below@.len() == n,
                row@.len() == n,
                forall|x: int|
                    0 <= x < n ==> below@[x] == glob_match_from(pattern@, text@, i + 1, x),
                below_end == glob_match_from(pattern@, text@, i + 1, n as int),
                forall|x: int|
                    j <= x < n ==> row@[x] == glob_match_from(pattern@, text@, i as int, x),
                right == glob_match_from(pattern@, text@, i as int, j as int),
            decreases j,
        {
            j -= 1;
            proof {
                lemma_glob_match_from_step(pattern@, text@, i as int, j as int);
            }
            let diagonal = if j + 1 < n {
                below[j + 1]
            } else {
                below_end
            };
            let here = if p == STAR {
                below[j] || right
            } else if p == QUESTION {
                diagonal
            } else {
                p == text[j] && diagonal
            };
            row.set(j, here);
            right = here;
        }
        below = row;
        below_end = row_end;
    }
    proof {
        assert(pattern@.skip(0) =~= pattern@);
        assert(text@.skip(0) =~= text@);
        if n == 0 {
            assert(below_end == glob_match(pattern@, text@));
        } else {
            assert(below@[0] == glob_match(pattern@, text@));
        }
    }
    if n == 0 {
        below_end
    } else {
        below[0]
    }
}

/// Whether `text` as a whole matches the wildcard `pattern`.
pub fn fnmatch(pattern: &str, text: &str) -> (matched: bool)
    ensures
        matched == text_match(pattern@, text@),
{
    fnmatch_bytes(pattern.as_bytes(), text.as_bytes())
}

/// A pattern that is a single `*` matches every text.
pub proof fn lemma_star_matches_every_text(text: Seq<u8>)
    ensures
        glob_match(seq![STAR], text),
    decreases text.len(),
{
    let pattern = seq![STAR];
    assert(pattern.drop_first().len() == 0);
    if text.len() == 0 {
        assert(glob_match(pattern.drop_first(), text));
    } else {
        lemma_star_matches_every_text(text.drop_first());
    }
}

/// A pattern that is a single `?` matches the texts of exactly one byte, and
/// no others.
pub proof fn lemma_question_matches_one_byte(text: Seq<u8>)
    ensures
        glob_match(seq![QUESTION], text) <==> text.len() == 1,
{
    let pattern = seq![QUESTION];
    assert(pattern.drop_first().len() == 0);
    if text.len() > 0 {
        assert(glob_match(pattern.drop_first(), text.drop_first()) == (text.drop_first().len()
            == 0));
    }
}

/// The empty pattern matches the empty text and nothing else.
pub proof fn lemma_empty_pattern(text: Seq<u8>)
    ensures
        glob_match(Seq::<u8>::empty(), text) <==> text.len() == 0,
{
}

/// The pattern `*` matches every text.
pub proof fn lemma_star_matches_every_str(text: Seq<char>)
    ensures
        text_match(seq!['*'], text),
{
    let pattern = seq!['*'];
    is_ascii_chars_encode_utf8(pattern);
    assert(encode_utf8(pattern) =~= seq![STAR]);
    lemma_star_matches_every_text(encode_utf8(text));
}

/// The pattern `?` matches the texts whose encoding is one byte long, and no
/// others.
pub proof fn lemma_question_matches_one_byte_str(text: Seq<char>)
    ensures
        text_match(seq!['?'], text) <==> encode_utf8(text).len() == 1,
{
    let pattern = seq!['?'];
    is_ascii_chars_encode_utf8(pattern);
    assert(encode_utf8(pattern) =~= seq![QUESTION]);
    lemma_question_matches_one_byte(encode_utf8(text));
}

/// Of the texts that hold ASCII characters only, the pattern `?` matches
/// those of exactly one character, and no others.
pub proof fn lemma_question_matches_one_ascii_char(text: Seq<char>)
    requires
        is_ascii_chars(text),
    ensures
        text_match(seq!['?'], text) <==> text.len() == 1,
{
    is_ascii_chars_encode_utf8(text);
    lemma_question_matches_one_byte_str(text);
}

/// Whether `pattern` holds neither `*` nor `?`.
pub open spec fn is_literal(pattern: Seq<u8>) -> bool {
    forall|k: int|
        0 <= k < pattern.len() ==> (#[trigger] pattern[k]) != STAR && pattern[k] != QUESTION
}

/// A pattern without `*` and `?` matches itself and nothing else.
pub proof fn lemma_literal_matches_itself(pattern: Seq<u8>, text: Seq<u8>)
    requires
        is_literal(pattern),
    ensures
        glob_match(pattern, text) <==> pattern == text,
    decreases pattern.len(),
{
    if pattern.len() > 0 {
        assert(pattern[0] != STAR && pattern[0] != QUESTION);
        if text.len() > 0 {
            let rest = pattern.drop_first();
            assert forall|k: int| 0 <= k < rest.len() implies (#[trigger] rest[k]) != STAR
                && rest[k] != QUESTION by {
                assert(rest[k] == pattern[k + 1]);
            }
            lemma_literal_matches_itself(pattern.drop_first(), text.drop_first());
            if pattern[0] == text[0] && pattern.drop_first() == text.drop_first() {
                assert(pattern =~= seq![pattern[0]] + pattern.drop_first());
                assert(text =~= seq![text[0]] + text.drop_first());
            }
        }
    } else {
        assert(text.len() == 0 ==> pattern =~= text);
    }
}

/// A `*` followed by a pattern without `*` and `?` matches the texts that end
/// with what follows the `*`, and no others.
pub proof fn lemma_star_then_literal(suffix: Seq<u8>, text: Seq<u8>)
    requires
        is_literal(suffix),
    ensures
        glob_match(seq![STAR] + suffix, text) <==> suffix.is_suffix_of(text),
    decreases text.len(),
{
    let pattern = seq![STAR] + suffix;
    assert(pattern[0] == STAR);
    assert(pattern.drop_first() =~= suffix);
    lemma_literal_matches_itself(suffix, text);
    if suffix == text {
        assert(text.subrange(text.len() - suffix.len(), text.len() as int) =~= suffix);
    }
    if text.len() > 0 {
        let rest = text.drop_first();
        lemma_star_then_literal(suffix, rest);
        if suffix.is_suffix_of(rest) {
            assert(text.subrange(text.len() - suffix.len(), text.len() as int) =~= rest.subrange(
                rest.len() - suffix.len(),
                rest.len() as int,
            ));
        }
        if suffix.is_suffix_of(text) && suffix != text {
            assert(suffix.len() <= text.len());
            if suffix.len() == text.len() {
                assert(text.subrange(0, text.len() as int) =~= text);
            }
            assert(rest.subrange(rest.len() - suffix.len(), rest.len() as int) =~= text.subrange(
                text.len() - suffix.len(),
                text.len() as int,
            ));
        }
    } else {
        if suffix.is_suffix_of(text) {
            assert(suffix =~= text);
        }
    }
}

} // verus!
