//! The lines of a file, taken from its bytes.
//!
//! A line runs up to the next line feed or to the end of the file. Its
//! content leaves out the line feed that ends it, and a carriage return
//! directly before that line feed. A file that ends in a line feed has no
//! further, empty line behind it, and an empty file has no line at all.

use vstd::prelude::*;

verus! {

/// The byte that ends a line.
pub const LINE_FEED: u8 = 0x0A;

/// The byte that may stand before the line feed.
pub const CARRIAGE_RETURN: u8 = 0x0D;

/// The number of bytes of `s` before its first line feed; the length of `s`
/// where it holds none.
pub open spec fn line_len(s: Seq<u8>) -> nat
    decreases s.len(),
{
    if s.len() == 0 || s[0] == LINE_FEED {
        0
    } else {
        1 + line_len(s.skip(1))
    }
}

/// The content of the first line of `s`.
pub open spec fn first_line(s: Seq<u8>) -> Seq<u8> {
    let n = line_len(s) as int;
    if 0 < n < s.len() && s[n - 1] == CARRIAGE_RETURN {
        s.take(n - 1)
    } else {
        s.take(n)
    }
}

/// What is left of `s` behind its first line.
pub open spec fn after_line(s: Seq<u8>) -> Seq<u8> {
    let n = line_len(s) as int;
    if n < s.len() {
        s.skip(n + 1)
    } else {
        Seq::empty()
    }
}

/// The contents of the lines of `s`, from first to last.
pub open spec fn lines(s: Seq<u8>) -> Seq<Seq<u8>>
    decreases s.len(),
    via lines_decreases
{
    if s.len() == 0 {
        Seq::empty()
    } else {
        seq![first_line(s)] + lines(after_line(s))
    }
}

#[via_fn]
proof fn lines_decreases(s: Seq<u8>) {
    lemma_line_len_bounds(s, 0);
}

/// Where the first `n` bytes are no line feed, the first line feed comes no
/// earlier than at `n`, and `line_len` never exceeds the length of the text.
pub proof fn lemma_line_len_bounds(s: Seq<u8>, n: int)
    requires
        0 <= n <= s.len(),
        forall|j: int| 0 <= j < n ==> #[trigger] s[j] != LINE_FEED,
    ensures
        n <= line_len(s) <= s.len(),
    decreases s.len(),
{
    if s.len() > 0 && s[0] != LINE_FEED {
        if n > 0 {
            lemma_line_len_bounds(s.skip(1), n - 1);
        } else {
            lemma_line_len_bounds(s.skip(1), 0);
        }
    }
}

/// Where the first `n` bytes are no line feed and the next one, if there is
/// one, is, the first line has `n` bytes before its end.
pub proof fn lemma_line_len_is(s: Seq<u8>, n: int)
    requires
        0 <= n <= s.len(),
        forall|j: int| 0 <= j < n ==> #[trigger] s[j] != LINE_FEED,
        n == s.len() || s[n] == LINE_FEED,
    ensures
        line_len(s) == n,
    decreases n,
{
    if n > 0 {
        lemma_line_len_is(s.skip(1), n - 1);
    }
}

/// A file has no line exactly when it is empty; otherwise its lines are its
/// first line and the lines of what follows.
pub proof fn lemma_lines_unfold(s: Seq<u8>)
    ensures
        s.len() == 0 ==> lines(s).len() == 0,
        s.len() > 0 ==> lines(s).len() > 0 && lines(s)[0] == first_line(s) && lines(s).skip(1)
            == lines(after_line(s)),
{
}

/// Where a line lies in its file: its content is `source[start..end]`, and
/// the next line starts at `next`.
#[derive(Debug, Clone, Copy, PartialEq, Eq, Structural)]
pub struct Line {
    /// The position of the first byte of the line.
    pub start: usize,
    /// The position behind the last byte of its content.
    pub end: usize,
    /// The position at which the next line starts, or the length of the file.
    pub next: usize,
}

/// Finds the line of `source` that starts at `from`; `None` where the file
/// ends at or before `from`.
pub fn next_line(source: &[u8], from: usize) -> (r: Option<Line>)
    ensures
        r is None <==> from >= source.len(),
        r matches Some(line) ==> {
            &&& line.start == from
            &&& from <= line.end <= line.next <= source.len()
            &&& from < line.next
            &&& source@.subrange(from as int, line.end as int) == first_line(
                source@.skip(from as int),
            )
            &&& source@.skip(line.next as int) == after_line(source@.skip(from as int))
        },
{
    if from >= source.len() {
        return None;
    }
    let mut stop: usize = from;
    while stop < source.len() && source[stop] != LINE_FEED
        invariant
            from <= stop <= source.len(),
            forall|j: int| from <= j < stop ==> #[trigger] source@[j] != LINE_FEED,
        decreases source.len() - stop,
    {
        stop = stop + 1;
    }
    proof {
        lemma_line_len_is(source@.skip(from as int), stop - from);
    }
    if stop == source.len() {
        return Some(Line { start: from, end: stop, next: stop });
    }
    let end = if stop > from && source[stop - 1] == CARRIAGE_RETURN {
        stop - 1
    } else {
        stop
    };
    Some(Line { start: from, end, next: stop + 1 })
}

} // verus!
