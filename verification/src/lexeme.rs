//! The tokens of the text formats, as functions on sequences of characters.
//!
//! Nothing here runs: these functions say what the tokenizers return, and the
//! contracts of the decoders are stated over them.

use vstd::prelude::*;

verus! {

/// Whether `c` is one of the ten decimal digits `0` to `9`.
pub open spec fn is_digit(c: char) -> bool {
    '0' <= c && c <= '9'
}

/// The number that the decimal digit `c` stands for.
pub open spec fn digit_value(c: char) -> nat
    recommends
        is_digit(c),
{
    (c as int - '0' as int) as nat
}

/// Whether every character of `s` is a decimal digit.
pub open spec fn all_digits(s: Seq<char>) -> bool {
    forall|i: int| 0 <= i < s.len() ==> is_digit(#[trigger] s[i])
}

/// The number of decimal digits at the head of `s`.
pub open spec fn digit_run(s: Seq<char>) -> nat
    decreases s.len(),
{
    if s.len() > 0 && is_digit(s[0]) {
        1 + digit_run(s.skip(1))
    } else {
        0
    }
}

/// The number that the digits `s` denote in base ten; 0 for no digits.
pub open spec fn decimal_value(s: Seq<char>) -> nat
    recommends
        all_digits(s),
    decreases s.len(),
{
    if s.len() == 0 {
        0
    } else {
        10 * decimal_value(s.drop_last()) + digit_value(s.last())
    }
}

/// An unsigned number at the head of `s`: the longest run of digits there.
/// The result is what follows the run, and the run's value. There is none
/// where `s` does not start with a digit, or where the value exceeds `max`.
pub open spec fn unsigned_lexeme(s: Seq<char>, max: nat) -> Option<(Seq<char>, nat)> {
    let n = digit_run(s) as int;
    let value = decimal_value(s.take(n));
    if n == 0 || value > max {
        None
    } else {
        Some((s.skip(n), value))
    }
}

/// Whether `s` starts with a sign, `-` or `+`.
pub open spec fn has_sign(s: Seq<char>) -> bool {
    s.len() > 0 && (s[0] == '-' || s[0] == '+')
}

/// A signed number at the head of `s`: an optional sign, `-` or `+`, and the
/// longest run of digits after it. The result is what follows the run, and
/// the number. There is none where no digit follows the optional sign, or
/// where the number lies outside `min ..= max`.
pub open spec fn signed_lexeme(s: Seq<char>, min: int, max: int) -> Option<(Seq<char>, int)> {
    let digits = if has_sign(s) {
        s.skip(1)
    } else {
        s
    };
    let n = digit_run(digits) as int;
    let magnitude = decimal_value(digits.take(n)) as int;
    let value = if has_sign(s) && s[0] == '-' {
        -magnitude
    } else {
        magnitude
    };
    if n == 0 || value < min || value > max {
        None
    } else {
        Some((digits.skip(n), value))
    }
}

/// Whether `c` is a space or a tab.
pub open spec fn is_blank(c: char) -> bool {
    c == ' ' || c == '\t'
}

/// The number of spaces and tabs at the head of `s`.
pub open spec fn blank_run(s: Seq<char>) -> nat
    decreases s.len(),
{
    if s.len() > 0 && is_blank(s[0]) {
        1 + blank_run(s.skip(1))
    } else {
        0
    }
}

/// `s` without the spaces and tabs at its head.
pub open spec fn skip_blanks(s: Seq<char>) -> Seq<char> {
    s.skip(blank_run(s) as int)
}

/// The length of the line ending at the head of `s`: 1 for a line feed, 2 for
/// a carriage return and a line feed, 0 where `s` starts with neither.
pub open spec fn line_ending_len(s: Seq<char>) -> nat {
    if s.len() >= 1 && s[0] == '\n' {
        1
    } else if s.len() >= 2 && s[0] == '\r' && s[1] == '\n' {
        2
    } else {
        0
    }
}

/// What follows the line ending at the head of `s`, if `s` starts with one.
pub open spec fn after_line_ending(s: Seq<char>) -> Option<Seq<char>> {
    if line_ending_len(s) == 0 {
        None
    } else {
        Some(s.skip(line_ending_len(s) as int))
    }
}

/// What follows the literal `t` at the head of `s`, if `s` starts with `t`.
pub open spec fn after_tag(s: Seq<char>, t: Seq<char>) -> Option<Seq<char>> {
    if t.is_prefix_of(s) {
        Some(s.skip(t.len() as int))
    } else {
        None
    }
}

/// Whether `rest` is what remains of `input` after some of its head was taken.
pub open spec fn is_suffix(rest: Seq<char>, input: Seq<char>) -> bool {
    rest.len() <= input.len() && rest == input.skip(input.len() - rest.len())
}

/// All of `s` is left of `s` where nothing was taken.
pub proof fn lemma_suffix_refl(s: Seq<char>)
    ensures
        is_suffix(s, s),
{
    assert(s =~= s.skip(0));
}

/// What is left of what is left of `c` is left of `c`.
pub proof fn lemma_suffix_trans(a: Seq<char>, b: Seq<char>, c: Seq<char>)
    requires
        is_suffix(a, b),
        is_suffix(b, c),
    ensures
        is_suffix(a, c),
{
    assert(a =~= c.skip(c.len() - a.len()));
}

/// The run of digits at the head of `s` is no longer than `s`, and is made of
/// digits; after it comes the end of `s` or a character that is no digit.
pub proof fn lemma_digit_run(s: Seq<char>)
    ensures
        digit_run(s) <= s.len(),
        all_digits(s.take(digit_run(s) as int)),
        digit_run(s) < s.len() ==> !is_digit(s[digit_run(s) as int]),
    decreases s.len(),
{
    if s.len() > 0 && is_digit(s[0]) {
        let t = s.skip(1);
        lemma_digit_run(t);
        let n = digit_run(s) as int;
        assert forall|i: int| 0 <= i < n implies is_digit(#[trigger] s.take(n)[i]) by {
            if i > 0 {
                assert(s.take(n)[i] == t.take(n - 1)[i - 1]);
            }
        }
    }
}

/// The run of spaces and tabs at the head of `s` is no longer than `s`.
pub proof fn lemma_blank_run(s: Seq<char>)
    ensures
        blank_run(s) <= s.len(),
    decreases s.len(),
{
    if s.len() > 0 && is_blank(s[0]) {
        lemma_blank_run(s.skip(1));
    }
}

} // verus!
