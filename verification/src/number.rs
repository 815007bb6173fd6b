//! Decimal integers, as they appear in kernel text.
//!
//! A number is an optional sign followed by decimal digits and nothing else.
//! The reading is strict: a character that is no digit, or a value that does
//! not fit the target type, is an error and never a default.

use vstd::prelude::*;
use vstd::slice::slice_subrange;

verus! {

/// Why a piece of text is not a decimal integer of the requested type.
#[derive(Debug, Clone, Copy, PartialEq, Eq, Structural)]
pub enum IntErrorKind {
    /// There was no text at all.
    Empty,
    /// A character is not a decimal digit, or a sign stands alone.
    InvalidDigit,
    /// The value is above the largest value of the type.
    PosOverflow,
    /// The value is below the smallest value of the type.
    NegOverflow,
}

/// `c` is one of the ten decimal digits.
pub open spec fn is_digit(c: char) -> bool {
    '0' <= c <= '9'
}

/// The value of a decimal digit, and 0 for any other character.
pub open spec fn digit_value(c: char) -> nat {
    if is_digit(c) {
        (c as int - '0' as int) as nat
    } else {
        0
    }
}

/// The number that a sequence of decimal digits denotes, most significant
/// digit first. The empty sequence denotes 0.
pub open spec fn decimal(s: Seq<char>) -> nat
    decreases s.len(),
{
    if s.len() == 0 {
        0
    } else {
        decimal(s.drop_last()) * 10 + digit_value(s.last())
    }
}

/// The length of the longest prefix of `s` that holds digits only.
pub open spec fn digit_run(s: Seq<char>) -> nat
    decreases s.len(),
{
    if s.len() == 0 || !is_digit(s[0]) {
        0
    } else {
        1 + digit_run(s.skip(1))
    }
}

/// What `body` holds when read as an unsigned decimal number that may not
/// exceed `limit`.
///
/// The text is read from the left. Reading stops with `overflow` as soon as
/// the digits read so far exceed `limit`, and with `InvalidDigit` at the
/// first character that is no digit; an empty `body` has no digit to offer.
/// Since the value only grows with every digit, the outcome is decided by the
/// leading run of digits: it overflows, or something follows it, or it is the
/// number.
pub open spec fn magnitude(body: Seq<char>, limit: nat, overflow: IntErrorKind) -> Result<
    nat,
    IntErrorKind,
> {
    let run = body.take(digit_run(body) as int);
    if body.len() == 0 {
        Err(IntErrorKind::InvalidDigit)
    } else if decimal(run) > limit {
        Err(overflow)
    } else if run.len() < body.len() {
        Err(IntErrorKind::InvalidDigit)
    } else {
        Ok(decimal(run))
    }
}

/// The text without a leading `+`.
pub open spec fn unsigned_body(s: Seq<char>) -> Seq<char> {
    if s.len() > 0 && s[0] == '+' {
        s.skip(1)
    } else {
        s
    }
}

/// What `s` holds when read as a `u64`: an optional `+`, then digits.
pub open spec fn u64_of(s: Seq<char>) -> Result<u64, IntErrorKind> {
    if s.len() == 0 {
        Err(IntErrorKind::Empty)
    } else {
        match magnitude(unsigned_body(s), u64::MAX as nat, IntErrorKind::PosOverflow) {
            Ok(v) => Ok(v as u64),
            Err(kind) => Err(kind),
        }
    }
}

/// The text starts with a minus sign.
pub open spec fn is_negative(s: Seq<char>) -> bool {
    s.len() > 0 && s[0] == '-'
}

/// The text without a leading `+` or `-`.
pub open spec fn signed_body(s: Seq<char>) -> Seq<char> {
    if s.len() > 0 && (s[0] == '+' || s[0] == '-') {
        s.skip(1)
    } else {
        s
    }
}

/// What `s` holds when read as an `i32`: an optional `+` or `-`, then digits.
pub open spec fn i32_of(s: Seq<char>) -> Result<i32, IntErrorKind> {
    if s.len() == 0 {
        Err(IntErrorKind::Empty)
    } else if is_negative(s) {
        match magnitude(signed_body(s), 0x8000_0000, IntErrorKind::NegOverflow) {
            Ok(v) => Ok((-(v as int)) as i32),
            Err(kind) => Err(kind),
        }
    } else {
        match magnitude(signed_body(s), 0x7fff_ffff, IntErrorKind::PosOverflow) {
            Ok(v) => Ok(v as i32),
            Err(kind) => Err(kind),
        }
    }
}

/// Where the first `n` characters are digits and the next one, if there is
/// one, is not, the leading run of digits has length `n`.
pub proof fn lemma_digit_run_is(s: Seq<char>, n: int)
    requires
        0 <= n <= s.len(),
        forall|j: int| 0 <= j < n ==> is_digit(#[trigger] s[j]),
        n == s.len() || !is_digit(s[n]),
    ensures
        digit_run(s) == n,
    decreases n,
{
    if n > 0 {
        lemma_digit_run_is(s.skip(1), n - 1);
    }
}

/// Where the first `n` characters are digits, the leading run of digits has
/// at least length `n`, and never more than the whole text.
pub proof fn lemma_digit_run_bounds(s: Seq<char>, n: int)
    requires
        0 <= n <= s.len(),
        forall|j: int| 0 <= j < n ==> is_digit(#[trigger] s[j]),
    ensures
        n <= digit_run(s) <= s.len(),
    decreases s.len(),
{
    if s.len() > 0 && is_digit(s[0]) {
        if n > 0 {
            lemma_digit_run_bounds(s.skip(1), n - 1);
        } else {
            lemma_digit_run_bounds(s.skip(1), 0);
        }
    }
}

/// A longer prefix never denotes a smaller number.
pub proof fn lemma_decimal_prefix_monotone(s: Seq<char>, i: int, j: int)
    requires
        0 <= i <= j <= s.len(),
    ensures
        decimal(s.take(i)) <= decimal(s.take(j)),
    decreases j - i,
{
    if i < j {
        lemma_decimal_prefix_monotone(s, i, j - 1);
        assert(s.take(j).drop_last() == s.take(j - 1));
    }
}

/// `s` is a decimal numeral: at least one digit and nothing else.
pub open spec fn is_numeral(s: Seq<char>) -> bool {
    s.len() > 0 && forall|j: int| 0 <= j < s.len() ==> is_digit(#[trigger] s[j])
}

/// A numeral is the number that its digits denote, where that number fits a
/// `u64`, and an overflow where it does not.
pub proof fn lemma_u64_of_numeral(s: Seq<char>)
    requires
        is_numeral(s),
    ensures
        decimal(s) <= u64::MAX ==> u64_of(s) == Ok::<u64, IntErrorKind>(decimal(s) as u64),
        decimal(s) > u64::MAX ==> u64_of(s) == Err::<u64, IntErrorKind>(IntErrorKind::PosOverflow),
{
    lemma_digit_run_is(s, s.len() as int);
    assert(s.take(s.len() as int) == s);
}

/// Reads `body` as an unsigned decimal number of at most `limit`.
pub fn read_magnitude(body: &[char], limit: u64, overflow: IntErrorKind) -> (r: Result<
    u64,
    IntErrorKind,
>)
    ensures
        match magnitude(body@, limit as nat, overflow) {
            Ok(v) => r == Ok::<u64, IntErrorKind>(v as u64),
            Err(kind) => r == Err::<u64, IntErrorKind>(kind),
        },
{
    if body.len() == 0 {
        return Err(IntErrorKind::InvalidDigit);
    }
    let mut acc: u64 = 0;
    let mut i: usize = 0;
    while i < body.len()
        invariant
            0 < body.len(),
            i <= body.len(),
            forall|j: int| 0 <= j < i ==> is_digit(#[trigger] body@[j]),
            acc == decimal(body@.take(i as int)),
            acc <= limit,
        decreases body.len() - i,
    {
        let c = body[i];
        if !('0' <= c && c <= '9') {
            proof {
                lemma_digit_run_is(body@, i as int);
            }
            return Err(IntErrorKind::InvalidDigit);
        }
        let d: u64 = (c as u32 - '0' as u32) as u64;
        proof {
            assert(body@.take(i + 1).drop_last() == body@.take(i as int));
        }
        if acc as u128 * 10 + d as u128 > limit as u128 {
            proof {
                lemma_digit_run_bounds(body@, i + 1);
                lemma_decimal_prefix_monotone(body@, i + 1, digit_run(body@) as int);
            }
            return Err(overflow);
        }
        acc = acc * 10 + d;
        i = i + 1;
    }
    proof {
        lemma_digit_run_is(body@, i as int);
    }
    Ok(acc)
}

/// Reads `token` as a `u64`: an optional `+`, then decimal digits.
pub fn parse_u64(token: &[char]) -> (r: Result<u64, IntErrorKind>)
    ensures
        r == u64_of(token@),
{
    if token.len() == 0 {
        return Err(IntErrorKind::Empty);
    }
    let body = if token[0] == '+' {
        slice_subrange(token, 1, token.len())
    } else {
        token
    };
    read_magnitude(body, u64::MAX, IntErrorKind::PosOverflow)
}

/// Reads `token` as an `i32`: an optional `+` or `-`, then decimal digits.
pub fn parse_i32(token: &[char]) -> (r: Result<i32, IntErrorKind>)
    ensures
        r == i32_of(token@),
{
    if token.len() == 0 {
        return Err(IntErrorKind::Empty);
    }
    let first = token[0];
    let body = if first == '+' || first == '-' {
        slice_subrange(token, 1, token.len())
    } else {
        token
    };
    if first == '-' {
        match read_magnitude(body, 0x8000_0000, IntErrorKind::NegOverflow) {
            Ok(v) => Ok((0 - v as i64) as i32),
            Err(kind) => Err(kind),
        }
    } else {
        match read_magnitude(body, 0x7fff_ffff, IntErrorKind::PosOverflow) {
            Ok(v) => Ok(v as i32),
            Err(kind) => Err(kind),
        }
    }
}

} // verus!
