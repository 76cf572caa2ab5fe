//! The calls into `nom`, the tokenizer that this library is built on.
//!
//! Each function here hands bytes to one tokenizer of `nom` and returns what
//! came back. The bodies are not verified: the contracts state what `nom`
//! does, as its source shows it, over the functions of `lexeme`, with each
//! byte read as the character of its value. Text is tokenized by its bytes,
//! in `text`.

use crate::input::latin1;
use crate::lexeme::{
    after_line_ending, after_tag, signed_lexeme, skip_blanks, unsigned_lexeme,
};
use vstd::prelude::*;
use vstd::utf8::is_ascii_chars;

verus! {

/// `nom::character::complete::u16` on bytes. It reads the longest run of
/// digits at the head of the input as a `u16`, and reports an error, here
/// `None`, where there is no digit or the value does not fit.
#[verifier::external_body]
pub(crate) fn bytes_u16<'a>(input: &'a [u8]) -> (r: Option<(&'a [u8], u16)>)
    ensures
        r is None <==> unsigned_lexeme(latin1(input@), u16::MAX as nat) is None,
        r matches Some((rest, v)) ==> unsigned_lexeme(latin1(input@), u16::MAX as nat) == Some(
            (latin1(rest@), v as nat),
        ),
{
    nom::character::complete::u16::<&[u8], nom::error::Error<&[u8]>>(input).ok()
}

/// `nom::character::complete::u32` on bytes. It reads the longest run of
/// digits at the head of the input as a `u32`, and reports an error, here
/// `None`, where there is no digit or the value does not fit.
#[verifier::external_body]
pub(crate) fn bytes_u32<'a>(input: &'a [u8]) -> (r: Option<(&'a [u8], u32)>)
    ensures
        r is None <==> unsigned_lexeme(latin1(input@), u32::MAX as nat) is None,
        r matches Some((rest, v)) ==> unsigned_lexeme(latin1(input@), u32::MAX as nat) == Some(
            (latin1(rest@), v as nat),
        ),
{
    nom::character::complete::u32::<&[u8], nom::error::Error<&[u8]>>(input).ok()
}

/// `nom::character::complete::u64` on bytes. It reads the longest run of
/// digits at the head of the input as a `u64`, and reports an error, here
/// `None`, where there is no digit or the value does not fit.
#[verifier::external_body]
pub(crate) fn bytes_u64<'a>(input: &'a [u8]) -> (r: Option<(&'a [u8], u64)>)
    ensures
        r is None <==> unsigned_lexeme(latin1(input@), u64::MAX as nat) is None,
        r matches Some((rest, v)) ==> unsigned_lexeme(latin1(input@), u64::MAX as nat) == Some(
            (latin1(rest@), v as nat),
        ),
{
    nom::character::complete::u64::<&[u8], nom::error::Error<&[u8]>>(input).ok()
}

/// `nom::character::complete::u128` on bytes. It reads the longest run of
/// digits at the head of the input as a `u128`, and reports an error, here
/// `None`, where there is no digit or the value does not fit.
#[verifier::external_body]
pub(crate) fn bytes_u128<'a>(input: &'a [u8]) -> (r: Option<(&'a [u8], u128)>)
    ensures
        r is None <==> unsigned_lexeme(latin1(input@), u128::MAX as nat) is None,
        r matches Some((rest, v)) ==> unsigned_lexeme(latin1(input@), u128::MAX as nat) == Some(
            (latin1(rest@), v as nat),
        ),
{
    nom::character::complete::u128::<&[u8], nom::error::Error<&[u8]>>(input).ok()
}

/// `nom::character::complete::i8` on bytes. It reads an optional sign and
/// the longest run of digits after it as an `i8`, and reports an error,
/// here `None`, where no digit follows or the value does not fit.
#[verifier::external_body]
pub(crate) fn bytes_i8<'a>(input: &'a [u8]) -> (r: Option<(&'a [u8], i8)>)
    ensures
        r is None <==> signed_lexeme(latin1(input@), i8::MIN as int, i8::MAX as int) is None,
        r matches Some((rest, v)) ==> signed_lexeme(
            latin1(input@),
            i8::MIN as int,
            i8::MAX as int,
        ) == Some((latin1(rest@), v as int)),
{
    nom::character::complete::i8::<&[u8], nom::error::Error<&[u8]>>(input).ok()
}

/// `nom::character::complete::i16` on bytes. It reads an optional sign and
/// the longest run of digits after it as an `i16`, and reports an error,
/// here `None`, where no digit follows or the value does not fit.
#[verifier::external_body]
pub(crate) fn bytes_i16<'a>(input: &'a [u8]) -> (r: Option<(&'a [u8], i16)>)
    ensures
        r is None <==> signed_lexeme(latin1(input@), i16::MIN as int, i16::MAX as int) is None,
        r matches Some((rest, v)) ==> signed_lexeme(
            latin1(input@),
            i16::MIN as int,
            i16::MAX as int,
        ) == Some((latin1(rest@), v as int)),
{
    nom::character::complete::i16::<&[u8], nom::error::Error<&[u8]>>(input).ok()
}

/// `nom::character::complete::i32` on bytes. It reads an optional sign and
/// the longest run of digits after it as an `i32`, and reports an error,
/// here `None`, where no digit follows or the value does not fit.
#[verifier::external_body]
pub(crate) fn bytes_i32<'a>(input: &'a [u8]) -> (r: Option<(&'a [u8], i32)>)
    ensures
        r is None <==> signed_lexeme(latin1(input@), i32::MIN as int, i32::MAX as int) is None,
        r matches Some((rest, v)) ==> signed_lexeme(
            latin1(input@),
            i32::MIN as int,
            i32::MAX as int,
        ) == Some((latin1(rest@), v as int)),
{
    nom::character::complete::i32::<&[u8], nom::error::Error<&[u8]>>(input).ok()
}

/// `nom::character::complete::i64` on bytes. It reads an optional sign and
/// the longest run of digits after it as an `i64`, and reports an error,
/// here `None`, where no digit follows or the value does not fit.
#[verifier::external_body]
pub(crate) fn bytes_i64<'a>(input: &'a [u8]) -> (r: Option<(&'a [u8], i64)>)
    ensures
        r is None <==> signed_lexeme(latin1(input@), i64::MIN as int, i64::MAX as int) is None,
        r matches Some((rest, v)) ==> signed_lexeme(
            latin1(input@),
            i64::MIN as int,
            i64::MAX as int,
        ) == Some((latin1(rest@), v as int)),
{
    nom::character::complete::i64::<&[u8], nom::error::Error<&[u8]>>(input).ok()
}

/// `nom::character::complete::i128` on bytes. It reads an optional sign and
/// the longest run of digits after it as an `i128`, and reports an error,
/// here `None`, where no digit follows or the value does not fit.
#[verifier::external_body]
pub(crate) fn bytes_i128<'a>(input: &'a [u8]) -> (r: Option<(&'a [u8], i128)>)
    ensures
        r is None <==> signed_lexeme(latin1(input@), i128::MIN as int, i128::MAX as int) is None,
        r matches Some((rest, v)) ==> signed_lexeme(
            latin1(input@),
            i128::MIN as int,
            i128::MAX as int,
        ) == Some((latin1(rest@), v as int)),
{
    nom::character::complete::i128::<&[u8], nom::error::Error<&[u8]>>(input).ok()
}

/// `nom::bytes::complete::tag` on bytes. It compares the head of the input
/// with the literal `t`, byte by byte, and returns what follows the literal;
/// it reports an error, here `None`, where the input does not start with it.
/// The literal is ASCII, so that its bytes are its characters.
#[verifier::external_body]
pub(crate) fn bytes_tag<'a>(input: &'a [u8], t: &str) -> (r: Option<&'a [u8]>)
    requires
        is_ascii_chars(t@),
    ensures
        r is None <==> after_tag(latin1(input@), t@) is None,
        r matches Some(rest) ==> after_tag(latin1(input@), t@) == Some(latin1(rest@)),
{
    match nom::bytes::complete::tag::<&str, &[u8], nom::error::Error<&[u8]>>(t)(input) {
        Ok((rest, _)) => Some(rest),
        Err(_) => None,
    }
}

/// `nom::character::complete::space0` on bytes. It takes the spaces and tabs
/// at the head of the input, which may be none, and returns what follows
/// them; it reports no error on any input, so the result is never `None`.
#[verifier::external_body]
pub(crate) fn bytes_space0<'a>(input: &'a [u8]) -> (r: Option<&'a [u8]>)
    ensures
        r is Some,
        r matches Some(rest) ==> latin1(rest@) == skip_blanks(latin1(input@)),
{
    match nom::character::complete::space0::<&[u8], nom::error::Error<&[u8]>>(input) {
        Ok((rest, _)) => Some(rest),
        Err(_) => None,
    }
}

/// `nom::character::complete::line_ending` on bytes. It takes a line feed,
/// or a carriage return and a line feed, at the head of the input and returns
/// what follows; it reports an error, here `None`, where neither is there.
#[verifier::external_body]
pub(crate) fn bytes_line_ending<'a>(input: &'a [u8]) -> (r: Option<&'a [u8]>)
    ensures
        r is None <==> after_line_ending(latin1(input@)) is None,
        r matches Some(rest) ==> after_line_ending(latin1(input@)) == Some(latin1(rest@)),
{
    match nom::character::complete::line_ending::<&[u8], nom::error::Error<&[u8]>>(input) {
        Ok((rest, _)) => Some(rest),
        Err(_) => None,
    }
}

} // verus!
