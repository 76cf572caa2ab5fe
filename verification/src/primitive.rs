//! The decoding rules of `bool`, `char` and `u8`.

use crate::error::{recoverable, ErrMode, Error, ErrorKind, IResult};
use crate::input::{latin1, lemma_latin1_skip, Input};
use crate::lexeme::after_tag;
use crate::parse::ParseFrom;
use vstd::prelude::*;
use vstd::slice::slice_subrange;

verus! {

/// The literal `true`.
pub open spec fn true_literal() -> Seq<char> {
    seq!['t', 'r', 'u', 'e']
}

/// The literal `false`.
pub open spec fn false_literal() -> Seq<char> {
    seq!['f', 'a', 'l', 's', 'e']
}

/// What decoding a `bool` returns: `true` or `false` where `input` starts
/// with that literal, in lower case, and what follows the literal; else an
/// error of kind `Tag` at `input`.
pub open spec fn bool_spec(input: Seq<char>) -> IResult<Seq<char>, bool> {
    match after_tag(input, true_literal()) {
        Some(rest) => Ok((rest, true)),
        None => match after_tag(input, false_literal()) {
            Some(rest) => Ok((rest, false)),
            None => Err(recoverable(input, ErrorKind::Tag)),
        },
    }
}

impl<I: Input> ParseFrom<I> for bool {
    open spec fn obeys_parse_spec() -> bool {
        true
    }

    open spec fn parse_spec(input: Seq<char>) -> IResult<Seq<char>, bool> {
        bool_spec(input)
    }

    fn parse(input: I) -> (r: IResult<I, bool>) {
        proof {
            reveal_strlit("true");
            reveal_strlit("false");
            assert("true"@ =~= true_literal());
            assert("false"@ =~= false_literal());
        }
        match input.tag("true") {
            Some(rest) => Ok((rest, true)),
            None => match input.tag("false") {
                Some(rest) => Ok((rest, false)),
                None => Err(ErrMode::Error(Error { input, code: ErrorKind::Tag })),
            },
        }
    }
}

/// What decoding a `char` returns: the first element of `input` and what
/// follows it, or an error of kind `Eof` where `input` is empty.
pub open spec fn char_spec(input: Seq<char>) -> IResult<Seq<char>, char> {
    if input.len() == 0 {
        Err(recoverable(input, ErrorKind::Eof))
    } else {
        Ok((input.skip(1), input[0]))
    }
}

impl<I: Input> ParseFrom<I> for char {
    open spec fn obeys_parse_spec() -> bool {
        true
    }

    open spec fn parse_spec(input: Seq<char>) -> IResult<Seq<char>, char> {
        char_spec(input)
    }

    fn parse(input: I) -> (r: IResult<I, char>) {
        match input.split_first() {
            Some((c, rest)) => Ok((rest, c)),
            None => Err(ErrMode::Error(Error { input, code: ErrorKind::Eof })),
        }
    }
}

/// What decoding a `u8` returns, where an element below `limit` is stored as
/// one byte and no other is: the first element of `input` as a byte and what
/// follows it; an error of kind `Eof` where `input` is empty; an error of
/// kind `Char` at `input` where its first element is not stored as one byte.
pub open spec fn byte_spec(input: Seq<char>, limit: u32) -> IResult<Seq<char>, u8>
    recommends
        limit <= 256,
{
    if input.len() == 0 {
        Err(recoverable(input, ErrorKind::Eof))
    } else if (input[0] as u32) < limit {
        Ok((input.skip(1), input[0] as u8))
    } else {
        Err(recoverable(input, ErrorKind::Char))
    }
}

/// The code point of `c`.
fn code_point(c: char) -> (code: u32)
    ensures
        code == c as u32,
        code as int == c as int,
{
    c as u32
}

/// A byte is decoded from text where the first character is stored as one
/// byte, which is so for the characters below 128.
impl<'a> ParseFrom<&'a str> for u8 {
    open spec fn obeys_parse_spec() -> bool {
        true
    }

    open spec fn parse_spec(input: Seq<char>) -> IResult<Seq<char>, u8> {
        byte_spec(input, 128)
    }

    fn parse(input: &'a str) -> (r: IResult<&'a str, u8>) {
        match input.split_first() {
            Some((c, rest)) => {
                let code: u32 = code_point(c);
                if code < 128 {
                    Ok((rest, code as u8))
                } else {
                    Err(ErrMode::Error(Error { input, code: ErrorKind::Char }))
                }
            },
            None => Err(ErrMode::Error(Error { input, code: ErrorKind::Eof })),
        }
    }
}

/// A byte is decoded from bytes as it stands.
impl<'a> ParseFrom<&'a [u8]> for u8 {
    open spec fn obeys_parse_spec() -> bool {
        true
    }

    open spec fn parse_spec(input: Seq<char>) -> IResult<Seq<char>, u8> {
        byte_spec(input, 256)
    }

    fn parse(input: &'a [u8]) -> (r: IResult<&'a [u8], u8>) {
        if input.len() == 0 {
            Err(ErrMode::Error(Error { input, code: ErrorKind::Eof }))
        } else {
            let rest = slice_subrange(input, 1, input.len());
            proof {
                assert(rest@ == input@.skip(1));
                lemma_latin1_skip(input@, 1);
            }
            Ok((rest, input[0]))
        }
    }
}

} // verus!
