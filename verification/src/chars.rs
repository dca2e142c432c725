//! Character classification and decimal numerals.
//!
//! The range-notation codec and the privilege broker both read decimal
//! numerals out of text; this module gives the character-level model they
//! share: which characters are whitespace, which are digits, and what
//! number a digit string denotes.

use vstd::prelude::*;

verus! {

/// Whether `c` is a whitespace character (the Unicode `White_Space` set).
pub open spec fn is_space(c: char) -> bool {
    c == '\t' || c == '\n' || c == '\u{B}' || c == '\u{C}' || c == '\r' || c == ' '
        || c == '\u{85}' || c == '\u{A0}' || c == '\u{1680}'
        || ('\u{2000}' <= c && c <= '\u{200A}')
        || c == '\u{2028}' || c == '\u{2029}' || c == '\u{202F}' || c == '\u{205F}'
        || c == '\u{3000}'
}

/// Whether `c` is a decimal digit.
pub open spec fn is_digit(c: char) -> bool {
    '0' <= c && c <= '9'
}

/// The value of a single decimal digit.
pub open spec fn digit_val(c: char) -> int {
    c as int - '0' as int
}

/// Whether `s` is a non-empty string of decimal digits.
pub open spec fn is_digits(s: Seq<char>) -> bool {
    s.len() > 0 && forall|i: int| 0 <= i < s.len() ==> is_digit(#[trigger] s[i])
}

/// The number denoted by the digit string `s` (most significant digit first).
pub open spec fn digits_val(s: Seq<char>) -> int
    decreases s.len(),
{
    if s.len() == 0 {
        0
    } else {
        digits_val(s.drop_last()) * 10 + digit_val(s.last())
    }
}

/// A digit string denotes a non-negative number.
pub proof fn lemma_digits_val_nonneg(s: Seq<char>)
    requires
        forall|i: int| 0 <= i < s.len() ==> is_digit(#[trigger] s[i]),
    ensures
        digits_val(s) >= 0,
    decreases s.len(),
{
    if s.len() > 0 {
        lemma_digits_val_nonneg(s.drop_last());
    }
}

/// Extending a digit string to the right can only grow its value.
pub proof fn lemma_digits_val_prefix_le(s: Seq<char>, j: int)
    requires
        forall|i: int| 0 <= i < s.len() ==> is_digit(#[trigger] s[i]),
        0 <= j <= s.len(),
    ensures
        digits_val(s.take(j)) <= digits_val(s),
    decreases s.len(),
{
    if j == s.len() {
        assert(s.take(j) =~= s);
    } else {
        assert(s.drop_last().take(j) =~= s.take(j));
        lemma_digits_val_prefix_le(s.drop_last(), j);
        lemma_digits_val_nonneg(s.drop_last());
    }
}

/// Whether `s` denotes a number that fits in `usize`.
pub open spec fn numeral_ok(s: Seq<char>) -> bool {
    is_digits(s) && digits_val(s) <= usize::MAX as int
}

/// Decides [`is_space`].
pub fn is_space_char(c: char) -> (r: bool)
    ensures
        r == is_space(c),
{
    c == '\t' || c == '\n' || c == '\u{B}' || c == '\u{C}' || c == '\r' || c == ' '
        || c == '\u{85}' || c == '\u{A0}' || c == '\u{1680}'
        || ('\u{2000}' <= c && c <= '\u{200A}')
        || c == '\u{2028}' || c == '\u{2029}' || c == '\u{202F}' || c == '\u{205F}'
        || c == '\u{3000}'
}

/// Decides [`is_digit`].
pub fn is_digit_char(c: char) -> (r: bool)
    ensures
        r == is_digit(c),
{
    '0' <= c && c <= '9'
}

/// The characters of `s`, in order.
pub fn str_chars(s: &str) -> (r: Vec<char>)
    ensures
        r@ == s@,
{
    let n = s.unicode_len();
    let mut r: Vec<char> = Vec::new();
    let mut i: usize = 0;
    while i < n
        invariant
            n == s@.len(),
            i <= n,
            r@ == s@.take(i as int),
        decreases n - i,
    {
        let c = s.get_char(i);
        r.push(c);
        i = i + 1;
        proof {
            assert(r@ =~= s@.take(i as int));
        }
    }
    proof {
        assert(s@.take(n as int) =~= s@);
    }
    r
}

/// Reads the decimal numeral standing in `w[start..end]`.
///
/// Returns its value when the range is a non-empty digit string whose value
/// fits in `usize`, and `None` otherwise.
pub fn parse_numeral(w: &Vec<char>, start: usize, end: usize) -> (r: Option<usize>)
    requires
        start <= end <= w@.len(),
    ensures
        r is Some <==> numeral_ok(w@.subrange(start as int, end as int)),
        r is Some ==> r->0 as int == digits_val(w@.subrange(start as int, end as int)),
{
    let ghost s = w@.subrange(start as int, end as int);
    if start == end {
        return None;
    }
    let mut acc: usize = 0;
    let mut i: usize = start;
    while i < end
        invariant
            start <= i <= end <= w@.len(),
            s == w@.subrange(start as int, end as int),
            s.len() > 0,
            forall|j: int| 0 <= j < i - start ==> is_digit(#[trigger] s[j]),
            acc as int == digits_val(s.take(i - start)),
        decreases end - i,
    {
        let c = w[i];
        if !is_digit_char(c) {
            proof {
                assert(s[i - start] == c);
            }
            return None;
        }
        let d: usize = (c as u32 - '0' as u32) as usize;
        proof {
            assert(s[i - start] == c);
            assert(d as int == digit_val(c));
            assert(s.take(i - start + 1).drop_last() =~= s.take(i - start));
            assert(s.take(i - start + 1).last() == c);
        }
        let step = match acc.checked_mul(10) {
            Some(m) => m.checked_add(d),
            None => None,
        };
        match step {
            Some(v) => {
                acc = v;
            }
            None => {
                proof {
                    assert(digits_val(s.take(i - start + 1)) > usize::MAX as int);
                    if is_digits(s) {
                        lemma_digits_val_prefix_le(s, i - start + 1);
                    }
                }
                return None;
            }
        }
        i = i + 1;
    }
    proof {
        assert(s.take(end - start) =~= s);
    }
    Some(acc)
}

} // verus!
