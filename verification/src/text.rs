//! Text as a sequence of characters, and its division into tokens.
//!
//! A token is a maximal run of characters that are not white space. White
//! space is what Unicode gives the property `White_Space`, so a line splits
//! the same way whether its fields are parted by blanks, tabs or any other
//! such character.

use vstd::prelude::*;
use vstd::utf8::{decode_utf8, encode_utf8, encode_utf8_decode_utf8, valid_utf8};

verus! {

/// `c` has the Unicode property `White_Space`.
pub open spec fn is_whitespace(c: char) -> bool {
    let u = c as u32;
    ||| 0x09 <= u <= 0x0D
    ||| u == 0x20
    ||| u == 0x85
    ||| u == 0xA0
    ||| u == 0x1680
    ||| 0x2000 <= u <= 0x200A
    ||| u == 0x2028
    ||| u == 0x2029
    ||| u == 0x202F
    ||| u == 0x205F
    ||| u == 0x3000
}

/// The length of the longest prefix of `s` that holds no white space.
pub open spec fn word_len(s: Seq<char>) -> nat
    decreases s.len(),
{
    if s.len() == 0 || is_whitespace(s[0]) {
        0
    } else {
        1 + word_len(s.skip(1))
    }
}

/// The tokens of `s`: its maximal runs of characters that are not white
/// space, from left to right.
pub open spec fn tokens(s: Seq<char>) -> Seq<Seq<char>>
    decreases s.len(),
    via tokens_decreases
{
    if s.len() == 0 {
        Seq::empty()
    } else if is_whitespace(s[0]) {
        tokens(s.skip(1))
    } else {
        seq![s.take(word_len(s) as int)] + tokens(s.skip(word_len(s) as int))
    }
}

#[via_fn]
proof fn tokens_decreases(s: Seq<char>) {
    if s.len() > 0 && !is_whitespace(s[0]) {
        lemma_word_len_bounds(s, 1);
    }
}

/// Where the first `n` characters are no white space, the leading word has
/// at least length `n`, and never more than the whole text.
pub proof fn lemma_word_len_bounds(s: Seq<char>, n: int)
    requires
        0 <= n <= s.len(),
        forall|j: int| 0 <= j < n ==> !is_whitespace(#[trigger] s[j]),
    ensures
        n <= word_len(s) <= s.len(),
    decreases s.len(),
{
    if s.len() > 0 && !is_whitespace(s[0]) {
        if n > 0 {
            lemma_word_len_bounds(s.skip(1), n - 1);
        } else {
            lemma_word_len_bounds(s.skip(1), 0);
        }
    }
}

/// Where the first `n` characters are no white space and the next one, if
/// there is one, is, the leading word has length `n`.
pub proof fn lemma_word_len_is(s: Seq<char>, n: int)
    requires
        0 <= n <= s.len(),
        forall|j: int| 0 <= j < n ==> !is_whitespace(#[trigger] s[j]),
        n == s.len() || is_whitespace(s[n]),
    ensures
        word_len(s) == n,
    decreases n,
{
    if n > 0 {
        lemma_word_len_is(s.skip(1), n - 1);
    }
}

/// `t` holds at least one character and no white space.
pub open spec fn is_word(t: Seq<char>) -> bool {
    t.len() > 0 && forall|j: int| 0 <= j < t.len() ==> !is_whitespace(#[trigger] t[j])
}

/// `t` holds white space only.
pub open spec fn is_blank(t: Seq<char>) -> bool {
    forall|j: int| 0 <= j < t.len() ==> is_whitespace(#[trigger] t[j])
}

/// No character of the leading word is white space.
proof fn lemma_leading_word_is_clean(s: Seq<char>)
    ensures
        word_len(s) <= s.len(),
        forall|j: int| 0 <= j < word_len(s) ==> !is_whitespace(#[trigger] s[j]),
    decreases s.len(),
{
    if s.len() > 0 && !is_whitespace(s[0]) {
        lemma_leading_word_is_clean(s.skip(1));
        assert forall|j: int| 0 <= j < word_len(s) implies !is_whitespace(#[trigger] s[j]) by {
            if j > 0 {
                assert(s[j] == s.skip(1)[j - 1]);
            }
        }
    }
}

/// Every token holds at least one character and no white space.
pub proof fn lemma_tokens_are_words(s: Seq<char>)
    ensures
        forall|i: int| 0 <= i < tokens(s).len() ==> is_word(#[trigger] tokens(s)[i]),
    decreases s.len(),
{
    if s.len() == 0 {
    } else if is_whitespace(s[0]) {
        lemma_tokens_are_words(s.skip(1));
        assert(tokens(s) == tokens(s.skip(1)));
    } else {
        let n = word_len(s) as int;
        lemma_word_len_bounds(s, 1);
        lemma_leading_word_is_clean(s);
        lemma_tokens_are_words(s.skip(n));
        assert forall|i: int| 0 <= i < tokens(s).len() implies is_word(#[trigger] tokens(s)[i]) by {
            if i > 0 {
                assert(tokens(s)[i] == tokens(s.skip(n))[i - 1]);
            }
        }
    }
}

/// Text that holds white space only has no token.
pub proof fn lemma_blank_has_no_token(s: Seq<char>)
    requires
        is_blank(s),
    ensures
        tokens(s).len() == 0,
    decreases s.len(),
{
    if s.len() > 0 {
        lemma_blank_has_no_token(s.skip(1));
    }
}

/// A word that stands behind white space, and before white space or the end
/// of the text, is the first token; the others are those of what follows it.
pub proof fn lemma_tokens_of_padded_word(pad: Seq<char>, word: Seq<char>, rest: Seq<char>)
    requires
        is_blank(pad),
        is_word(word),
        rest.len() == 0 || is_whitespace(rest[0]),
    ensures
        tokens(pad + word + rest) == seq![word] + tokens(rest),
    decreases pad.len(),
{
    let s = pad + word + rest;
    if pad.len() > 0 {
        assert(s.skip(1) == pad.skip(1) + word + rest);
        lemma_tokens_of_padded_word(pad.skip(1), word, rest);
    } else {
        assert forall|j: int| 0 <= j < word.len() implies !is_whitespace(#[trigger] s[j]) by {
            assert(s[j] == word[j]);
        }
        lemma_word_len_is(s, word.len() as int);
        assert(s.take(word.len() as int) == word);
        assert(s.skip(word.len() as int) == rest);
    }
}

/// The text that holds `words` in their order, with `gaps[i]` before
/// `words[i]` and the last of `gaps` behind the last word.
pub open spec fn laid_out(gaps: Seq<Seq<char>>, words: Seq<Seq<char>>) -> Seq<char>
    decreases words.len(),
{
    if words.len() == 0 {
        gaps[0]
    } else {
        gaps[0] + words[0] + laid_out(gaps.skip(1), words.skip(1))
    }
}

/// `gaps` and `words` lay out a line of words parted by white space: there
/// is one gap more than there are words, every gap is blank, and only the
/// gaps before the first word and behind the last may be empty.
pub open spec fn is_layout(gaps: Seq<Seq<char>>, words: Seq<Seq<char>>) -> bool {
    &&& gaps.len() == words.len() + 1
    &&& forall|i: int| 0 <= i < gaps.len() ==> is_blank(#[trigger] gaps[i])
    &&& forall|i: int| 0 < i < words.len() ==> (#[trigger] gaps[i]).len() > 0
    &&& forall|i: int| 0 <= i < words.len() ==> is_word(#[trigger] words[i])
}

/// Splitting undoes laying out: the tokens of a line of words parted by
/// white space are these words.
pub proof fn lemma_tokens_of_layout(gaps: Seq<Seq<char>>, words: Seq<Seq<char>>)
    requires
        is_layout(gaps, words),
    ensures
        tokens(laid_out(gaps, words)) == words,
    decreases words.len(),
{
    if words.len() == 0 {
        lemma_blank_has_no_token(gaps[0]);
    } else {
        let rest = laid_out(gaps.skip(1), words.skip(1));
        assert(is_layout(gaps.skip(1), words.skip(1))) by {
            assert forall|i: int| 0 < i < words.skip(1).len() implies (#[trigger] gaps.skip(
                1,
            )[i]).len() > 0 by {
                assert(gaps.skip(1)[i] == gaps[i + 1]);
            }
        }
        lemma_tokens_of_layout(gaps.skip(1), words.skip(1));
        assert(rest.len() == 0 || is_whitespace(rest[0])) by {
            if words.len() == 1 {
                assert(rest == gaps[1]);
            } else {
                assert(gaps[1].len() > 0);
                assert(rest[0] == gaps[1][0]);
            }
        }
        lemma_tokens_of_padded_word(gaps[0], words[0], rest);
        assert(seq![words[0]] + words.skip(1) == words);
    }
}

/// Tells whether `c` is white space.
pub fn char_is_whitespace(c: char) -> (b: bool)
    ensures
        b == is_whitespace(c),
{
    let u: u32 = c as u32;
    (0x09 <= u && u <= 0x0D) || u == 0x20 || u == 0x85 || u == 0xA0 || u == 0x1680 || (0x2000 <= u
        && u <= 0x200A) || u == 0x2028 || u == 0x2029 || u == 0x202F || u == 0x205F || u == 0x3000
}

/// The characters of `text`, in order.
pub fn chars_of(text: &str) -> (r: Vec<char>)
    ensures
        r@ == text@,
{
    let mut out: Vec<char> = Vec::new();
    let chars = text.chars();
    for c in it: chars
        invariant
            out@ == it.seq().take(it.index() as int),
            it.seq() == text@,
    {
        out.push(c);
    }
    out
}

/// Finds the first token of `text` that starts at or after `from`, and
/// returns the positions of its first character and of the one behind its
/// last; `None` where only white space is left, or `from` lies behind the
/// end of the text.
pub fn next_token(text: &[char], from: usize) -> (r: Option<(usize, usize)>)
    ensures
        from > text.len() ==> r is None,
        from <= text.len() ==> match r {
            None => is_blank(text@.skip(from as int)) && tokens(text@.skip(from as int)).len() == 0,
            Some((start, end)) => {
                &&& from <= start < end <= text.len()
                &&& is_blank(text@.subrange(from as int, start as int))
                &&& is_word(text@.subrange(start as int, end as int))
                &&& end == text.len() || is_whitespace(text@[end as int])
                &&& tokens(text@.skip(from as int)) == seq![
                    text@.subrange(start as int, end as int),
                ] + tokens(text@.skip(end as int))
            },
        },
{
    if from > text.len() {
        return None;
    }
    let mut start: usize = from;
    while start < text.len() && char_is_whitespace(text[start])
        invariant
            from <= start <= text.len(),
            forall|j: int| from <= j < start ==> is_whitespace(#[trigger] text@[j]),
            tokens(text@.skip(start as int)) == tokens(text@.skip(from as int)),
        decreases text.len() - start,
    {
        proof {
            assert(text@.skip(start as int).skip(1) == text@.skip(start + 1));
        }
        start = start + 1;
    }
    if start == text.len() {
        return None;
    }
    let mut end: usize = start + 1;
    while end < text.len() && !char_is_whitespace(text[end])
        invariant
            start < end <= text.len(),
            forall|j: int| start <= j < end ==> !is_whitespace(#[trigger] text@[j]),
        decreases text.len() - end,
    {
        end = end + 1;
    }
    proof {
        let rest = text@.skip(start as int);
        lemma_word_len_is(rest, end - start);
        assert(rest.take(end - start) == text@.subrange(start as int, end as int));
        assert(rest.skip(end - start) == text@.skip(end as int));
    }
    Some((start, end))
}

/// Reads `bytes` as UTF-8 text.
///
/// This is `core::str::from_utf8`, with its error dropped. The contract
/// claims what std documents of it: it succeeds exactly on well-formed UTF-8,
/// and the text it returns is made of the very bytes it was given.
#[verifier::external_body]
fn str_from_utf8(bytes: &[u8]) -> (r: Option<&str>)
    ensures
        r is Some <==> valid_utf8(bytes@),
        r matches Some(text) ==> encode_utf8(text@) == bytes@,
{
    core::str::from_utf8(bytes).ok()
}

/// The characters that `bytes` encode in UTF-8; `None` where the bytes are
/// not well-formed UTF-8.
pub fn decode(bytes: &[u8]) -> (r: Option<Vec<char>>)
    ensures
        r is Some <==> valid_utf8(bytes@),
        r matches Some(chars) ==> chars@ == decode_utf8(bytes@),
{
    match str_from_utf8(bytes) {
        Some(text) => {
            proof {
                encode_utf8_decode_utf8(text@);
            }
            Some(chars_of(text))
        },
        None => None,
    }
}

} // verus!
