//! Tokens of text, read from the bytes that store it.
//!
//! Every token of the formats is made of characters below 128, each of which
//! is stored as one byte; every other character is stored as bytes from 128
//! on. So a token is at the head of a text exactly where it is at the head
//! of the bytes of the text, and the text after it is stored in the bytes
//! after it. This module proves that, and reads the tokens of a `&str` with
//! the tokenizer for bytes.

use crate::input::{latin1, lemma_latin1_skip, lemma_same_bytes};
use crate::lexeme::{
    after_line_ending, after_tag, blank_run, digit_run, has_sign, is_blank, is_digit,
    lemma_blank_run, lemma_digit_run, line_ending_len, signed_lexeme, skip_blanks,
    unsigned_lexeme,
};
use crate::lexer;
use vstd::pervasive::unreached;
use vstd::prelude::*;
use vstd::string::StringSliceAdditionalSpecFns;
use vstd::utf8::*;

verus! {

/// The bytes that store the text `s`, each read as a character.
pub open spec fn stored(s: Seq<char>) -> Seq<char> {
    latin1(encode_utf8(s))
}

/// Whether the character `c` is below 128.
pub open spec fn is_low(c: char) -> bool {
    (c as int) < 128
}

/// Whether the first `n` characters of `s` are below 128.
pub open spec fn ascii_head(s: Seq<char>, n: int) -> bool {
    0 <= n <= s.len() && forall|i: int| 0 <= i < n ==> is_low(#[trigger] s[i])
}

/// A character is a number from 0 on, and the same number as a `u32`.
pub proof fn lemma_char_code(c: char)
    ensures
        0 <= c as int,
        (c as u32) as int == c as int,
{
}

/// The first byte of a text is its first character where that is below 128,
/// and the bytes after it then store the rest of the text; the first byte of
/// any other text is 128 or more. No text but the empty one has no bytes.
pub proof fn lemma_first_byte(s: Seq<char>)
    ensures
        s.len() == 0 <==> encode_utf8(s).len() == 0,
        s.len() > 0 && is_low(s[0]) ==> encode_utf8(s)[0] as int == s[0] as int && encode_utf8(
            s,
        ).skip(1) == encode_utf8(s.skip(1)),
        s.len() > 0 && !is_low(s[0]) ==> encode_utf8(s)[0] >= 128,
{
    if s.len() > 0 {
        let c = s[0] as u32;
        let b = encode_utf8(s);
        lemma_char_code(s[0]);
        char_is_scalar(s[0]);
        encode_utf8_first_scalar(s);
        assert(s.drop_first() == s.skip(1));
        assert(b == encode_scalar(c) + encode_utf8(s.skip(1)));
        if c < 128 {
            assert(c as u8 == leading_byte_width_1(c)) by (bit_vector)
                requires
                    has_width_1_encoding(c),
            ;
            assert(b.skip(1) =~= encode_utf8(s.skip(1)));
        }
    }
}

/// Where the first `n` characters of a text are below 128, they are its
/// first `n` bytes, the bytes after them store the rest of the text, and a
/// character starts at byte `n`.
pub proof fn lemma_ascii_head(s: Seq<char>, n: int)
    requires
        ascii_head(s, n),
    ensures
        n <= encode_utf8(s).len(),
        forall|i: int| 0 <= i < n ==> #[trigger] encode_utf8(s)[i] as int == s[i] as int,
        encode_utf8(s).skip(n) == encode_utf8(s.skip(n)),
        is_char_boundary(encode_utf8(s), n),
    decreases n,
{
    let b = encode_utf8(s);
    encode_utf8_valid_utf8(s);
    if n == 0 {
        assert(b.skip(0) =~= b);
        assert(s.skip(0) =~= s);
    } else {
        let tail = s.skip(1);
        lemma_first_byte(s);
        encode_utf8_first_scalar(s);
        encode_utf8_valid_utf8(tail);
        assert forall|i: int| 0 <= i < n - 1 implies is_low(#[trigger] tail[i]) by {
            assert(tail[i] == s[i + 1]);
        }
        lemma_ascii_head(tail, n - 1);
        assert forall|i: int| 0 <= i < n implies #[trigger] b[i] as int == s[i] as int by {
            if i > 0 {
                assert(b[i] == b.skip(1)[i - 1]);
                assert(s[i] == tail[i - 1]);
            }
        }
        assert(b.skip(n) =~= b.skip(1).skip(n - 1));
        assert(s.skip(n) =~= tail.skip(n - 1));
        assert(pop_first_scalar(b) =~= b.skip(1));
        reveal_with_fuel(is_char_boundary, 2);
    }
}

/// Where the first `n` bytes of a text are below 128, so are its first `n`
/// characters.
pub proof fn lemma_ascii_bytes(s: Seq<char>, n: int)
    requires
        0 <= n <= encode_utf8(s).len(),
        forall|i: int| 0 <= i < n ==> #[trigger] encode_utf8(s)[i] < 128,
    ensures
        ascii_head(s, n),
    decreases n,
{
    if n > 0 {
        let b = encode_utf8(s);
        let tail = s.skip(1);
        lemma_first_byte(s);
        assert(b[0] < 128);
        assert forall|i: int| 0 <= i < n - 1 implies #[trigger] encode_utf8(tail)[i] < 128 by {
            assert(b.skip(1)[i] == b[i + 1]);
        }
        lemma_ascii_bytes(tail, n - 1);
        assert forall|i: int| 0 <= i < n implies is_low(#[trigger] s[i]) by {
            if i > 0 {
                assert(s[i] == tail[i - 1]);
            }
        }
    }
}

/// Where the first `n` characters of a text are below 128, they are the
/// first `n` of its bytes read as characters, and the bytes after them are
/// those of the rest of the text.
pub proof fn lemma_stored_head(s: Seq<char>, n: int)
    requires
        ascii_head(s, n),
    ensures
        n <= stored(s).len(),
        stored(s).take(n) == s.take(n),
        stored(s).skip(n) == stored(s.skip(n)),
{
    lemma_ascii_head(s, n);
    lemma_latin1_skip(encode_utf8(s), n);
    assert forall|i: int| 0 <= i < n implies stored(s)[i] == s[i] by {
        lemma_char_code(s[i]);
        assert(stored(s)[i] == encode_utf8(s)[i] as char);
    }
    assert(stored(s).take(n) =~= s.take(n));
}

/// The first byte of a text, read as a character, is the first character of
/// the text where that is below 128, and is 128 or more otherwise.
pub proof fn lemma_stored_first(s: Seq<char>)
    ensures
        s.len() == 0 <==> stored(s).len() == 0,
        s.len() > 0 && is_low(s[0]) ==> stored(s)[0] == s[0] && stored(s).skip(1) == stored(
            s.skip(1),
        ),
        s.len() > 0 && !is_low(s[0]) ==> !is_low(stored(s)[0]),
{
    lemma_first_byte(s);
    if s.len() > 0 {
        lemma_char_code(s[0]);
        if is_low(s[0]) {
            lemma_latin1_skip(encode_utf8(s), 1);
        }
    }
}

/// Where the first `n` bytes of a text, read as characters, are below 128,
/// so are its first `n` characters.
pub proof fn lemma_stored_ascii(s: Seq<char>, n: int)
    requires
        0 <= n <= stored(s).len(),
        forall|i: int| 0 <= i < n ==> is_low(#[trigger] stored(s)[i]),
    ensures
        ascii_head(s, n),
{
    assert forall|i: int| 0 <= i < n implies #[trigger] encode_utf8(s)[i] < 128 by {
        assert(stored(s)[i] == encode_utf8(s)[i] as char);
    }
    lemma_ascii_bytes(s, n);
}

/// A text starts with as many digits as its bytes do.
pub proof fn lemma_digit_run_stored(s: Seq<char>)
    ensures
        digit_run(stored(s)) == digit_run(s),
        ascii_head(s, digit_run(s) as int),
    decreases s.len(),
{
    lemma_stored_first(s);
    lemma_digit_run(s);
    if s.len() > 0 && is_digit(s[0]) {
        let tail = s.skip(1);
        lemma_digit_run_stored(tail);
        let n = digit_run(s) as int;
        assert forall|i: int| 0 <= i < n implies is_low(#[trigger] s[i]) by {
            if i > 0 {
                assert(s[i] == tail[i - 1]);
            }
        }
    }
}

/// A text starts with as many spaces and tabs as its bytes do.
pub proof fn lemma_blank_run_stored(s: Seq<char>)
    ensures
        blank_run(stored(s)) == blank_run(s),
        ascii_head(s, blank_run(s) as int),
    decreases s.len(),
{
    lemma_stored_first(s);
    lemma_blank_run(s);
    if s.len() > 0 && is_blank(s[0]) {
        let tail = s.skip(1);
        lemma_blank_run_stored(tail);
        let n = blank_run(s) as int;
        assert forall|i: int| 0 <= i < n implies is_low(#[trigger] s[i]) by {
            if i > 0 {
                assert(s[i] == tail[i - 1]);
            }
        }
    }
}

/// An unsigned number is at the head of a text exactly where it is at the
/// head of its bytes; it is the same number, its characters are below 128,
/// and what follows it in the bytes stores what follows it in the text.
pub proof fn lemma_unsigned_stored(s: Seq<char>, max: nat)
    ensures
        unsigned_lexeme(s, max) is None <==> unsigned_lexeme(stored(s), max) is None,
        unsigned_lexeme(s, max) matches Some((rest, value)) ==> {
            &&& unsigned_lexeme(stored(s), max) == Some((stored(rest), value))
            &&& ascii_head(s, s.len() - rest.len())
            &&& rest == s.skip(s.len() - rest.len())
        },
{
    lemma_digit_run_stored(s);
    lemma_digit_run(s);
    lemma_stored_head(s, digit_run(s) as int);
}

/// A signed number is at the head of a text exactly where it is at the head
/// of its bytes; it is the same number, its characters are below 128, and
/// what follows it in the bytes stores what follows it in the text.
pub proof fn lemma_signed_stored(s: Seq<char>, min: int, max: int)
    ensures
        signed_lexeme(s, min, max) is None <==> signed_lexeme(stored(s), min, max) is None,
        signed_lexeme(s, min, max) matches Some((rest, value)) ==> {
            &&& signed_lexeme(stored(s), min, max) == Some((stored(rest), value))
            &&& ascii_head(s, s.len() - rest.len())
            &&& rest == s.skip(s.len() - rest.len())
        },
{
    lemma_stored_first(s);
    if has_sign(s) {
        let digits = s.skip(1);
        lemma_digit_run_stored(digits);
        lemma_digit_run(digits);
        let n = digit_run(digits) as int;
        lemma_stored_head(digits, n);
        assert(has_sign(stored(s)));
        assert(digits.skip(n) =~= s.skip(n + 1));
        assert forall|i: int| 0 <= i < n + 1 implies is_low(#[trigger] s[i]) by {
            if i > 0 {
                assert(s[i] == digits[i - 1]);
            }
        }
    } else {
        lemma_digit_run_stored(s);
        lemma_digit_run(s);
        lemma_stored_head(s, digit_run(s) as int);
        assert(!has_sign(stored(s)));
    }
}

/// The blanks at the head of a text are those at the head of its bytes, and
/// what follows them in the bytes stores what follows them in the text.
pub proof fn lemma_skip_blanks_stored(s: Seq<char>)
    ensures
        skip_blanks(stored(s)) == stored(skip_blanks(s)),
        ascii_head(s, blank_run(s) as int),
{
    lemma_blank_run_stored(s);
    lemma_stored_head(s, blank_run(s) as int);
}

/// A text starts with a line ending exactly where its bytes do, and what
/// follows it in the bytes stores what follows it in the text.
pub proof fn lemma_line_ending_stored(s: Seq<char>)
    ensures
        line_ending_len(stored(s)) == line_ending_len(s),
        ascii_head(s, line_ending_len(s) as int),
        after_line_ending(s) is None <==> after_line_ending(stored(s)) is None,
        after_line_ending(s) matches Some(rest) ==> after_line_ending(stored(s)) == Some(
            stored(rest),
        ),
{
    lemma_stored_first(s);
    if s.len() > 0 && s[0] == '\r' {
        lemma_stored_first(s.skip(1));
        if s.len() >= 2 {
            assert(s.skip(1)[0] == s[1]);
            assert(stored(s).skip(1)[0] == stored(s)[1]);
        } else {
            assert(s.skip(1).len() == 0);
            assert(stored(s).skip(1).len() == 0);
        }
    }
    if line_ending_len(s) > 0 {
        lemma_stored_head(s, line_ending_len(s) as int);
    }
}

/// A text starts with a literal of characters below 128 exactly where its
/// bytes do, and what follows it in the bytes stores what follows it in the
/// text.
pub proof fn lemma_tag_stored(s: Seq<char>, t: Seq<char>)
    requires
        is_ascii_chars(t),
    ensures
        after_tag(s, t) is None <==> after_tag(stored(s), t) is None,
        after_tag(s, t) matches Some(rest) ==> after_tag(stored(s), t) == Some(stored(rest)),
        after_tag(s, t) is Some ==> ascii_head(s, t.len() as int),
{
    let n = t.len() as int;
    is_ascii_chars_nat_bound(t);
    if t.is_prefix_of(s) {
        assert forall|i: int| 0 <= i < n implies is_low(#[trigger] s[i]) by {
            assert(s[i] == t[i]);
        }
        lemma_stored_head(s, n);
        assert(t =~= s.take(n));
        assert(t =~= stored(s).take(n));
    }
    if t.is_prefix_of(stored(s)) {
        assert forall|i: int| 0 <= i < n implies is_low(#[trigger] stored(s)[i]) by {
            assert(stored(s)[i] == t[i]);
        }
        lemma_stored_ascii(s, n);
        lemma_stored_head(s, n);
        assert(t =~= stored(s).take(n));
        assert(t =~= s.take(n));
    }
}

/// The number of characters that a token took from the head of `s`, where
/// `found` is what follows it and its value; 0 where there is no token.
pub open spec fn taken<V>(s: Seq<char>, found: Option<(Seq<char>, V)>) -> int {
    match found {
        Some((rest, _)) => s.len() - rest.len(),
        None => 0,
    }
}

/// The text `text` without its first `n` characters, which are below 128,
/// where `left` is the bytes that store the rest.
fn text_rest<'a>(text: &'a str, left: &[u8], Ghost(n): Ghost<int>) -> (rest: &'a str)
    requires
        ascii_head(text@, n),
        latin1(left@) == stored(text@.skip(n)),
    ensures
        rest@ == text@.skip(n),
{
    let ghost bytes = text.spec_bytes();
    proof {
        lemma_ascii_head(text@, n);
        assert(latin1(left@).len() == left@.len());
        assert(stored(text@.skip(n)).len() == encode_utf8(text@.skip(n)).len());
        assert(bytes.skip(n).len() == bytes.len() - n);
    }
    let at: usize = text.as_bytes().len() - left.len();
    let (_, rest) = text.split_at(at);
    proof {
        assert(bytes.subrange(n, bytes.len() as int) =~= bytes.skip(n));
        lemma_same_bytes(rest@, text@.skip(n));
    }
    rest
}

/// The unsigned number at the head of `input` as a `u16`, and what follows
/// it; `None` where there is no digit or the number does not fit.
pub(crate) fn str_u16<'a>(input: &'a str) -> (r: Option<(&'a str, u16)>)
    ensures
        r is None <==> unsigned_lexeme(input@, u16::MAX as nat) is None,
        r matches Some((rest, v)) ==> unsigned_lexeme(input@, u16::MAX as nat) == Some(
            (rest@, v as nat),
        ),
{
    proof {
        lemma_unsigned_stored(input@, u16::MAX as nat);
    }
    match lexer::bytes_u16(input.as_bytes()) {
        Some((left, value)) => {
            let ghost found = unsigned_lexeme(input@, u16::MAX as nat);
            let rest = text_rest(input, left, Ghost(taken(input@, found)));
            Some((rest, value))
        },
        None => None,
    }
}

/// The unsigned number at the head of `input` as a `u32`, and what follows
/// it; `None` where there is no digit or the number does not fit.
pub(crate) fn str_u32<'a>(input: &'a str) -> (r: Option<(&'a str, u32)>)
    ensures
        r is None <==> unsigned_lexeme(input@, u32::MAX as nat) is None,
        r matches Some((rest, v)) ==> unsigned_lexeme(input@, u32::MAX as nat) == Some(
            (rest@, v as nat),
        ),
{
    proof {
        lemma_unsigned_stored(input@, u32::MAX as nat);
    }
    match lexer::bytes_u32(input.as_bytes()) {
        Some((left, value)) => {
            let ghost found = unsigned_lexeme(input@, u32::MAX as nat);
            let rest = text_rest(input, left, Ghost(taken(input@, found)));
            Some((rest, value))
        },
        None => None,
    }
}

/// The unsigned number at the head of `input` as a `u64`, and what follows
/// it; `None` where there is no digit or the number does not fit.
pub(crate) fn str_u64<'a>(input: &'a str) -> (r: Option<(&'a str, u64)>)
    ensures
        r is None <==> unsigned_lexeme(input@, u64::MAX as nat) is None,
        r matches Some((rest, v)) ==> unsigned_lexeme(input@, u64::MAX as nat) == Some(
            (rest@, v as nat),
        ),
{
    proof {
        lemma_unsigned_stored(input@, u64::MAX as nat);
    }
    match lexer::bytes_u64(input.as_bytes()) {
        Some((left, value)) => {
            let ghost found = unsigned_lexeme(input@, u64::MAX as nat);
            let rest = text_rest(input, left, Ghost(taken(input@, found)));
            Some((rest, value))
        },
        None => None,
    }
}

/// The unsigned number at the head of `input` as a `u128`, and what follows
/// it; `None` where there is no digit or the number does not fit.
pub(crate) fn str_u128<'a>(input: &'a str) -> (r: Option<(&'a str, u128)>)
    ensures
        r is None <==> unsigned_lexeme(input@, u128::MAX as nat) is None,
        r matches Some((rest, v)) ==> unsigned_lexeme(input@, u128::MAX as nat) == Some(
            (rest@, v as nat),
        ),
{
    proof {
        lemma_unsigned_stored(input@, u128::MAX as nat);
    }
    match lexer::bytes_u128(input.as_bytes()) {
        Some((left, value)) => {
            let ghost found = unsigned_lexeme(input@, u128::MAX as nat);
            let rest = text_rest(input, left, Ghost(taken(input@, found)));
            Some((rest, value))
        },
        None => None,
    }
}

/// The signed number at the head of `input` as an `i8`, and what follows
/// it; `None` where no digit follows the optional sign or the number does
/// not fit.
pub(crate) fn str_i8<'a>(input: &'a str) -> (r: Option<(&'a str, i8)>)
    ensures
        r is None <==> signed_lexeme(input@, i8::MIN as int, i8::MAX as int) is None,
        r matches Some((rest, v)) ==> signed_lexeme(input@, i8::MIN as int, i8::MAX as int)
            == Some((rest@, v as int)),
{
    proof {
        lemma_signed_stored(input@, i8::MIN as int, i8::MAX as int);
    }
    match lexer::bytes_i8(input.as_bytes()) {
        Some((left, value)) => {
            let ghost found = signed_lexeme(input@, i8::MIN as int, i8::MAX as int);
            let rest = text_rest(input, left, Ghost(taken(input@, found)));
            Some((rest, value))
        },
        None => None,
    }
}

/// The signed number at the head of `input` as an `i16`, and what follows
/// it; `None` where no digit follows the optional sign or the number does
/// not fit.
pub(crate) fn str_i16<'a>(input: &'a str) -> (r: Option<(&'a str, i16)>)
    ensures
        r is None <==> signed_lexeme(input@, i16::MIN as int, i16::MAX as int) is None,
        r matches Some((rest, v)) ==> signed_lexeme(input@, i16::MIN as int, i16::MAX as int)
            == Some((rest@, v as int)),
{
    proof {
        lemma_signed_stored(input@, i16::MIN as int, i16::MAX as int);
    }
    match lexer::bytes_i16(input.as_bytes()) {
        Some((left, value)) => {
            let ghost found = signed_lexeme(input@, i16::MIN as int, i16::MAX as int);
            let rest = text_rest(input, left, Ghost(taken(input@, found)));
            Some((rest, value))
        },
        None => None,
    }
}

/// The signed number at the head of `input` as an `i32`, and what follows
/// it; `None` where no digit follows the optional sign or the number does
/// not fit.
pub(crate) fn str_i32<'a>(input: &'a str) -> (r: Option<(&'a str, i32)>)
    ensures
        r is None <==> signed_lexeme(input@, i32::MIN as int, i32::MAX as int) is None,
        r matches Some((rest, v)) ==> signed_lexeme(input@, i32::MIN as int, i32::MAX as int)
            == Some((rest@, v as int)),
{
    proof {
        lemma_signed_stored(input@, i32::MIN as int, i32::MAX as int);
    }
    match lexer::bytes_i32(input.as_bytes()) {
        Some((left, value)) => {
            let ghost found = signed_lexeme(input@, i32::MIN as int, i32::MAX as int);
            let rest = text_rest(input, left, Ghost(taken(input@, found)));
            Some((rest, value))
        },
        None => None,
    }
}

/// The signed number at the head of `input` as an `i64`, and what follows
/// it; `None` where no digit follows the optional sign or the number does
/// not fit.
pub(crate) fn str_i64<'a>(input: &'a str) -> (r: Option<(&'a str, i64)>)
    ensures
        r is None <==> signed_lexeme(input@, i64::MIN as int, i64::MAX as int) is None,
        r matches Some((rest, v)) ==> signed_lexeme(input@, i64::MIN as int, i64::MAX as int)
            == Some((rest@, v as int)),
{
    proof {
        lemma_signed_stored(input@, i64::MIN as int, i64::MAX as int);
    }
    match lexer::bytes_i64(input.as_bytes()) {
        Some((left, value)) => {
            let ghost found = signed_lexeme(input@, i64::MIN as int, i64::MAX as int);
            let rest = text_rest(input, left, Ghost(taken(input@, found)));
            Some((rest, value))
        },
        None => None,
    }
}

/// The signed number at the head of `input` as an `i128`, and what follows
/// it; `None` where no digit follows the optional sign or the number does
/// not fit.
pub(crate) fn str_i128<'a>(input: &'a str) -> (r: Option<(&'a str, i128)>)
    ensures
        r is None <==> signed_lexeme(input@, i128::MIN as int, i128::MAX as int) is None,
        r matches Some((rest, v)) ==> signed_lexeme(input@, i128::MIN as int, i128::MAX as int)
            == Some((rest@, v as int)),
{
    proof {
        lemma_signed_stored(input@, i128::MIN as int, i128::MAX as int);
    }
    match lexer::bytes_i128(input.as_bytes()) {
        Some((left, value)) => {
            let ghost found = signed_lexeme(input@, i128::MIN as int, i128::MAX as int);
            let rest = text_rest(input, left, Ghost(taken(input@, found)));
            Some((rest, value))
        },
        None => None,
    }
}

/// What follows the literal `t` at the head of `input`; `None` where `input`
/// does not start with `t`.
pub(crate) fn str_tag<'a>(input: &'a str, t: &str) -> (r: Option<&'a str>)
    requires
        is_ascii_chars(t@),
    ensures
        r is None <==> after_tag(input@, t@) is None,
        r matches Some(rest) ==> after_tag(input@, t@) == Some(rest@),
{
    proof {
        lemma_tag_stored(input@, t@);
    }
    match lexer::bytes_tag(input.as_bytes(), t) {
        Some(left) => {
            let rest = text_rest(input, left, Ghost(t@.len() as int));
            Some(rest)
        },
        None => None,
    }
}

/// `input` without the spaces and tabs at its head.
pub(crate) fn str_space0<'a>(input: &'a str) -> (rest: &'a str)
    ensures
        rest@ == skip_blanks(input@),
{
    proof {
        lemma_skip_blanks_stored(input@);
    }
    match lexer::bytes_space0(input.as_bytes()) {
        Some(left) => text_rest(input, left, Ghost(blank_run(input@) as int)),
        None => unreached(),
    }
}

/// What follows the line ending at the head of `input`; `None` where `input`
/// does not start with one.
pub(crate) fn str_line_ending<'a>(input: &'a str) -> (r: Option<&'a str>)
    ensures
        r is None <==> after_line_ending(input@) is None,
        r matches Some(rest) ==> after_line_ending(input@) == Some(rest@),
{
    proof {
        lemma_line_ending_stored(input@);
    }
    match lexer::bytes_line_ending(input.as_bytes()) {
        Some(left) => {
            let rest = text_rest(input, left, Ghost(line_ending_len(input@) as int));
            Some(rest)
        },
        None => None,
    }
}

} // verus!
