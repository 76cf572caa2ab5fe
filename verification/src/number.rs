//! The decoding rules of the integer types: a number in decimal digits, with
//! an optional sign for the signed types.

use crate::error::{recoverable, ErrMode, Error, ErrorKind, IResult};
use crate::input::latin1;
use crate::lexeme::{
    digit_run, has_sign, is_suffix, lemma_digit_run, signed_lexeme, unsigned_lexeme,
};
use crate::lexer;
use crate::parse::ParseFrom;
use crate::text;
use vstd::prelude::*;

verus! {

/// Where a text starts with an unsigned number, what follows the number is a
/// suffix of the text, and the number is at most `max`.
pub proof fn lemma_unsigned_lexeme(s: Seq<char>, max: nat)
    ensures
        unsigned_lexeme(s, max) matches Some((rest, value)) ==> is_suffix(rest, s) && value
            <= max && rest.len() < s.len(),
{
    lemma_digit_run(s);
}

/// Where a text starts with a signed number, what follows the number is a
/// suffix of the text, and the number lies in `min ..= max`.
pub proof fn lemma_signed_lexeme(s: Seq<char>, min: int, max: int)
    ensures
        signed_lexeme(s, min, max) matches Some((rest, value)) ==> is_suffix(rest, s) && min
            <= value <= max && rest.len() < s.len(),
{
    if has_sign(s) {
        let digits = s.skip(1);
        lemma_digit_run(digits);
        let n = digit_run(digits) as int;
        assert(digits.skip(n) =~= s.skip(n + 1));
    } else {
        lemma_digit_run(s);
    }
}

/// What decoding a `u16` returns: the unsigned number at the head of `input`
/// and what follows it, or an error of kind `Digit` at `input` where there is
/// no digit or the number is above `u16::MAX`.
pub open spec fn u16_spec(input: Seq<char>) -> IResult<Seq<char>, u16> {
    match unsigned_lexeme(input, u16::MAX as nat) {
        Some((rest, value)) => Ok((rest, value as u16)),
        None => Err(recoverable(input, ErrorKind::Digit)),
    }
}

impl<'a> ParseFrom<&'a str> for u16 {
    open spec fn obeys_parse_spec() -> bool {
        true
    }

    open spec fn parse_spec(input: Seq<char>) -> IResult<Seq<char>, u16> {
        u16_spec(input)
    }

    fn parse(input: &'a str) -> (r: IResult<&'a str, u16>) {
        proof {
            lemma_unsigned_lexeme(input@, u16::MAX as nat);
        }
        match text::str_u16(input) {
            Some((rest, value)) => Ok((rest, value)),
            None => Err(ErrMode::Error(Error { input, code: ErrorKind::Digit })),
        }
    }
}

impl<'a> ParseFrom<&'a [u8]> for u16 {
    open spec fn obeys_parse_spec() -> bool {
        true
    }

    open spec fn parse_spec(input: Seq<char>) -> IResult<Seq<char>, u16> {
        u16_spec(input)
    }

    fn parse(input: &'a [u8]) -> (r: IResult<&'a [u8], u16>) {
        proof {
            lemma_unsigned_lexeme(latin1(input@), u16::MAX as nat);
        }
        match lexer::bytes_u16(input) {
            Some((rest, value)) => Ok((rest, value)),
            None => Err(ErrMode::Error(Error { input, code: ErrorKind::Digit })),
        }
    }
}

/// What decoding a `u32` returns: the unsigned number at the head of `input`
/// and what follows it, or an error of kind `Digit` at `input` where there is
/// no digit or the number is above `u32::MAX`.
pub open spec fn u32_spec(input: Seq<char>) -> IResult<Seq<char>, u32> {
    match unsigned_lexeme(input, u32::MAX as nat) {
        Some((rest, value)) => Ok((rest, value as u32)),
        None => Err(recoverable(input, ErrorKind::Digit)),
    }
}

impl<'a> ParseFrom<&'a str> for u32 {
    open spec fn obeys_parse_spec() -> bool {
        true
    }

    open spec fn parse_spec(input: Seq<char>) -> IResult<Seq<char>, u32> {
        u32_spec(input)
    }

    fn parse(input: &'a str) -> (r: IResult<&'a str, u32>) {
        proof {
            lemma_unsigned_lexeme(input@, u32::MAX as nat);
        }
        match text::str_u32(input) {
            Some((rest, value)) => Ok((rest, value)),
            None => Err(ErrMode::Error(Error { input, code: ErrorKind::Digit })),
        }
    }
}

impl<'a> ParseFrom<&'a [u8]> for u32 {
    open spec fn obeys_parse_spec() -> bool {
        true
    }

    open spec fn parse_spec(input: Seq<char>) -> IResult<Seq<char>, u32> {
        u32_spec(input)
    }

    fn parse(input: &'a [u8]) -> (r: IResult<&'a [u8], u32>) {
        proof {
            lemma_unsigned_lexeme(latin1(input@), u32::MAX as nat);
        }
        match lexer::bytes_u32(input) {
            Some((rest, value)) => Ok((rest, value)),
            None => Err(ErrMode::Error(Error { input, code: ErrorKind::Digit })),
        }
    }
}

/// What decoding a `u64` returns: the unsigned number at the head of `input`
/// and what follows it, or an error of kind `Digit` at `input` where there is
/// no digit or the number is above `u64::MAX`.
pub open spec fn u64_spec(input: Seq<char>) -> IResult<Seq<char>, u64> {
    match unsigned_lexeme(input, u64::MAX as nat) {
        Some((rest, value)) => Ok((rest, value as u64)),
        None => Err(recoverable(input, ErrorKind::Digit)),
    }
}

impl<'a> ParseFrom<&'a str> for u64 {
    open spec fn obeys_parse_spec() -> bool {
        true
    }

    open spec fn parse_spec(input: Seq<char>) -> IResult<Seq<char>, u64> {
        u64_spec(input)
    }

    fn parse(input: &'a str) -> (r: IResult<&'a str, u64>) {
        proof {
            lemma_unsigned_lexeme(input@, u64::MAX as nat);
        }
        match text::str_u64(input) {
            Some((rest, value)) => Ok((rest, value)),
            None => Err(ErrMode::Error(Error { input, code: ErrorKind::Digit })),
        }
    }
}

impl<'a> ParseFrom<&'a [u8]> for u64 {
    open spec fn obeys_parse_spec() -> bool {
        true
    }

    open spec fn parse_spec(input: Seq<char>) -> IResult<Seq<char>, u64> {
        u64_spec(input)
    }

    fn parse(input: &'a [u8]) -> (r: IResult<&'a [u8], u64>) {
        proof {
            lemma_unsigned_lexeme(latin1(input@), u64::MAX as nat);
        }
        match lexer::bytes_u64(input) {
            Some((rest, value)) => Ok((rest, value)),
            None => Err(ErrMode::Error(Error { input, code: ErrorKind::Digit })),
        }
    }
}

/// What decoding a `u128` returns: the unsigned number at the head of `input`
/// and what follows it, or an error of kind `Digit` at `input` where there is
/// no digit or the number is above `u128::MAX`.
pub open spec fn u128_spec(input: Seq<char>) -> IResult<Seq<char>, u128> {
    match unsigned_lexeme(input, u128::MAX as nat) {
        Some((rest, value)) => Ok((rest, value as u128)),
        None => Err(recoverable(input, ErrorKind::Digit)),
    }
}

impl<'a> ParseFrom<&'a str> for u128 {
    open spec fn obeys_parse_spec() -> bool {
        true
    }

    open spec fn parse_spec(input: Seq<char>) -> IResult<Seq<char>, u128> {
        u128_spec(input)
    }

    fn parse(input: &'a str) -> (r: IResult<&'a str, u128>) {
        proof {
            lemma_unsigned_lexeme(input@, u128::MAX as nat);
        }
        match text::str_u128(input) {
            Some((rest, value)) => Ok((rest, value)),
            None => Err(ErrMode::Error(Error { input, code: ErrorKind::Digit })),
        }
    }
}

impl<'a> ParseFrom<&'a [u8]> for u128 {
    open spec fn obeys_parse_spec() -> bool {
        true
    }

    open spec fn parse_spec(input: Seq<char>) -> IResult<Seq<char>, u128> {
        u128_spec(input)
    }

    fn parse(input: &'a [u8]) -> (r: IResult<&'a [u8], u128>) {
        proof {
            lemma_unsigned_lexeme(latin1(input@), u128::MAX as nat);
        }
        match lexer::bytes_u128(input) {
            Some((rest, value)) => Ok((rest, value)),
            None => Err(ErrMode::Error(Error { input, code: ErrorKind::Digit })),
        }
    }
}

/// What decoding an `i8` returns: the signed number at the head of `input`
/// and what follows it, or an error of kind `Digit` at `input` where no digit
/// follows the optional sign or the number is outside the range of `i8`.
pub open spec fn i8_spec(input: Seq<char>) -> IResult<Seq<char>, i8> {
    match signed_lexeme(input, i8::MIN as int, i8::MAX as int) {
        Some((rest, value)) => Ok((rest, value as i8)),
        None => Err(recoverable(input, ErrorKind::Digit)),
    }
}

impl<'a> ParseFrom<&'a str> for i8 {
    open spec fn obeys_parse_spec() -> bool {
        true
    }

    open spec fn parse_spec(input: Seq<char>) -> IResult<Seq<char>, i8> {
        i8_spec(input)
    }

    fn parse(input: &'a str) -> (r: IResult<&'a str, i8>) {
        proof {
            lemma_signed_lexeme(input@, i8::MIN as int, i8::MAX as int);
        }
        match text::str_i8(input) {
            Some((rest, value)) => Ok((rest, value)),
            None => Err(ErrMode::Error(Error { input, code: ErrorKind::Digit })),
        }
    }
}

impl<'a> ParseFrom<&'a [u8]> for i8 {
    open spec fn obeys_parse_spec() -> bool {
        true
    }

    open spec fn parse_spec(input: Seq<char>) -> IResult<Seq<char>, i8> {
        i8_spec(input)
    }

    fn parse(input: &'a [u8]) -> (r: IResult<&'a [u8], i8>) {
        proof {
            lemma_signed_lexeme(latin1(input@), i8::MIN as int, i8::MAX as int);
        }
        match lexer::bytes_i8(input) {
            Some((rest, value)) => Ok((rest, value)),
            None => Err(ErrMode::Error(Error { input, code: ErrorKind::Digit })),
        }
    }
}

/// What decoding an `i16` returns: the signed number at the head of `input`
/// and what follows it, or an error of kind `Digit` at `input` where no digit
/// follows the optional sign or the number is outside the range of `i16`.
pub open spec fn i16_spec(input: Seq<char>) -> IResult<Seq<char>, i16> {
    match signed_lexeme(input, i16::MIN as int, i16::MAX as int) {
        Some((rest, value)) => Ok((rest, value as i16)),
        None => Err(recoverable(input, ErrorKind::Digit)),
    }
}

impl<'a> ParseFrom<&'a str> for i16 {
    open spec fn obeys_parse_spec() -> bool {
        true
    }

    open spec fn parse_spec(input: Seq<char>) -> IResult<Seq<char>, i16> {
        i16_spec(input)
    }

    fn parse(input: &'a str) -> (r: IResult<&'a str, i16>) {
        proof {
            lemma_signed_lexeme(input@, i16::MIN as int, i16::MAX as int);
        }
        match text::str_i16(input) {
            Some((rest, value)) => Ok((rest, value)),
            None => Err(ErrMode::Error(Error { input, code: ErrorKind::Digit })),
        }
    }
}

impl<'a> ParseFrom<&'a [u8]> for i16 {
    open spec fn obeys_parse_spec() -> bool {
        true
    }

    open spec fn parse_spec(input: Seq<char>) -> IResult<Seq<char>, i16> {
        i16_spec(input)
    }

    fn parse(input: &'a [u8]) -> (r: IResult<&'a [u8], i16>) {
        proof {
            lemma_signed_lexeme(latin1(input@), i16::MIN as int, i16::MAX as int);
        }
        match lexer::bytes_i16(input) {
            Some((rest, value)) => Ok((rest, value)),
            None => Err(ErrMode::Error(Error { input, code: ErrorKind::Digit })),
        }
    }
}

/// What decoding an `i32` returns: the signed number at the head of `input`
/// and what follows it, or an error of kind `Digit` at `input` where no digit
/// follows the optional sign or the number is outside the range of `i32`.
pub open spec fn i32_spec(input: Seq<char>) -> IResult<Seq<char>, i32> {
    match signed_lexeme(input, i32::MIN as int, i32::MAX as int) {
        Some((rest, value)) => Ok((rest, value as i32)),
        None => Err(recoverable(input, ErrorKind::Digit)),
    }
}

impl<'a> ParseFrom<&'a str> for i32 {
    open spec fn obeys_parse_spec() -> bool {
        true
    }

    open spec fn parse_spec(input: Seq<char>) -> IResult<Seq<char>, i32> {
        i32_spec(input)
    }

    fn parse(input: &'a str) -> (r: IResult<&'a str, i32>) {
        proof {
            lemma_signed_lexeme(input@, i32::MIN as int, i32::MAX as int);
        }
        match text::str_i32(input) {
            Some((rest, value)) => Ok((rest, value)),
            None => Err(ErrMode::Error(Error { input, code: ErrorKind::Digit })),
        }
    }
}

impl<'a> ParseFrom<&'a [u8]> for i32 {
    open spec fn obeys_parse_spec() -> bool {
        true
    }

    open spec fn parse_spec(input: Seq<char>) -> IResult<Seq<char>, i32> {
        i32_spec(input)
    }

    fn parse(input: &'a [u8]) -> (r: IResult<&'a [u8], i32>) {
        proof {
            lemma_signed_lexeme(latin1(input@), i32::MIN as int, i32::MAX as int);
        }
        match lexer::bytes_i32(input) {
            Some((rest, value)) => Ok((rest, value)),
            None => Err(ErrMode::Error(Error { input, code: ErrorKind::Digit })),
        }
    }
}

/// What decoding an `i64` returns: the signed number at the head of `input`
/// and what follows it, or an error of kind `Digit` at `input` where no digit
/// follows the optional sign or the number is outside the range of `i64`.
pub open spec fn i64_spec(input: Seq<char>) -> IResult<Seq<char>, i64> {
    match signed_lexeme(input, i64::MIN as int, i64::MAX as int) {
        Some((rest, value)) => Ok((rest, value as i64)),
        None => Err(recoverable(input, ErrorKind::Digit)),
    }
}

impl<'a> ParseFrom<&'a str> for i64 {
    open spec fn obeys_parse_spec() -> bool {
        true
    }

    open spec fn parse_spec(input: Seq<char>) -> IResult<Seq<char>, i64> {
        i64_spec(input)
    }

    fn parse(input: &'a str) -> (r: IResult<&'a str, i64>) {
        proof {
            lemma_signed_lexeme(input@, i64::MIN as int, i64::MAX as int);
        }
        match text::str_i64(input) {
            Some((rest, value)) => Ok((rest, value)),
            None => Err(ErrMode::Error(Error { input, code: ErrorKind::Digit })),
        }
    }
}

impl<'a> ParseFrom<&'a [u8]> for i64 {
    open spec fn obeys_parse_spec() -> bool {
        true
    }

    open spec fn parse_spec(input: Seq<char>) -> IResult<Seq<char>, i64> {
        i64_spec(input)
    }

    fn parse(input: &'a [u8]) -> (r: IResult<&'a [u8], i64>) {
        proof {
            lemma_signed_lexeme(latin1(input@), i64::MIN as int, i64::MAX as int);
        }
        match lexer::bytes_i64(input) {
            Some((rest, value)) => Ok((rest, value)),
            None => Err(ErrMode::Error(Error { input, code: ErrorKind::Digit })),
        }
    }
}

/// What decoding an `i128` returns: the signed number at the head of `input`
/// and what follows it, or an error of kind `Digit` at `input` where no digit
/// follows the optional sign or the number is outside the range of `i128`.
pub open spec fn i128_spec(input: Seq<char>) -> IResult<Seq<char>, i128> {
    match signed_lexeme(input, i128::MIN as int, i128::MAX as int) {
        Some((rest, value)) => Ok((rest, value as i128)),
        None => Err(recoverable(input, ErrorKind::Digit)),
    }
}

impl<'a> ParseFrom<&'a str> for i128 {
    open spec fn obeys_parse_spec() -> bool {
        true
    }

    open spec fn parse_spec(input: Seq<char>) -> IResult<Seq<char>, i128> {
        i128_spec(input)
    }

    fn parse(input: &'a str) -> (r: IResult<&'a str, i128>) {
        proof {
            lemma_signed_lexeme(input@, i128::MIN as int, i128::MAX as int);
        }
        match text::str_i128(input) {
            Some((rest, value)) => Ok((rest, value)),
            None => Err(ErrMode::Error(Error { input, code: ErrorKind::Digit })),
        }
    }
}

impl<'a> ParseFrom<&'a [u8]> for i128 {
    open spec fn obeys_parse_spec() -> bool {
        true
    }

    open spec fn parse_spec(input: Seq<char>) -> IResult<Seq<char>, i128> {
        i128_spec(input)
    }

    fn parse(input: &'a [u8]) -> (r: IResult<&'a [u8], i128>) {
        proof {
            lemma_signed_lexeme(latin1(input@), i128::MIN as int, i128::MAX as int);
        }
        match lexer::bytes_i128(input) {
            Some((rest, value)) => Ok((rest, value)),
            None => Err(ErrMode::Error(Error { input, code: ErrorKind::Digit })),
        }
    }
}

} // verus!
