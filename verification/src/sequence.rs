//! Separators, and the entry `key = value` of a map.

use crate::error::{recoverable, ErrMode, Error, ErrorKind, IResult};
use crate::input::Input;
use crate::lexeme::{
    after_tag, is_suffix, lemma_blank_run, lemma_suffix_trans, skip_blanks,
};
use crate::parse::{error_model, ParseFrom};
use vstd::prelude::*;
use vstd::utf8::is_ascii_chars;

verus! {

/// What follows the separator `t` at the head of `s`: the literal `t` with
/// any spaces and tabs before and after it. Where `t` does not follow the
/// leading spaces and tabs, the result is an error of kind `Tag` at the place
/// where `t` was expected.
pub open spec fn after_separator(s: Seq<char>, t: Seq<char>) -> Result<
    Seq<char>,
    ErrMode<Error<Seq<char>>>,
> {
    let at = skip_blanks(s);
    match after_tag(at, t) {
        Some(rest) => Ok(skip_blanks(rest)),
        None => Err(recoverable(at, ErrorKind::Tag)),
    }
}

/// The result of reading a separator, with inputs as sequences of characters.
pub open spec fn separator_model<I: Input>(r: Result<I, ErrMode<Error<I>>>) -> Result<
    Seq<char>,
    ErrMode<Error<Seq<char>>>,
> {
    match r {
        Ok(rest) => Ok(rest.elems()),
        Err(ErrMode::Error(e)) => Err(ErrMode::Error(error_model(e))),
        Err(ErrMode::Failure(e)) => Err(ErrMode::Failure(error_model(e))),
    }
}

/// What is left after a separator is shorter than what it was read from, and
/// a suffix of it.
pub proof fn lemma_after_separator(s: Seq<char>, t: Seq<char>)
    ensures
        after_separator(s, t) matches Ok(rest) ==> is_suffix(rest, s) && rest.len() + t.len()
            <= s.len(),
{
    let at = skip_blanks(s);
    lemma_blank_run(s);
    if after_tag(at, t) is Some {
        let mid = at.skip(t.len() as int);
        lemma_blank_run(mid);
        let rest = skip_blanks(mid);
        assert(is_suffix(at, s));
        assert(is_suffix(mid, at));
        assert(is_suffix(rest, mid));
        lemma_suffix_trans(mid, at, s);
        lemma_suffix_trans(rest, mid, s);
    }
}

/// Reads the separator `t` at the head of `input`: the literal `t` with any
/// spaces and tabs before and after it. Returns what follows, or an error of
/// kind `Tag` at the place where `t` was expected.
pub fn separator<I: Input>(input: I, t: &str) -> (r: Result<I, ErrMode<Error<I>>>)
    requires
        is_ascii_chars(t@),
    ensures
        separator_model(r) == after_separator(input.elems(), t@),
        r matches Ok(rest) ==> is_suffix(rest.elems(), input.elems()) && rest.elems().len()
            + t@.len() <= input.elems().len(),
{
    proof {
        lemma_after_separator(input.elems(), t@);
    }
    let at = input.space0();
    match at.tag(t) {
        Some(rest) => Ok(rest.space0()),
        None => Err(ErrMode::Error(Error { input: at, code: ErrorKind::Tag })),
    }
}

/// An entry of a map: a key and a value, written `key = value`.
#[derive(Debug, PartialEq, Eq)]
pub struct KeyValue<K, V> {
    /// The key.
    pub key: K,
    /// The value.
    pub value: V,
}

impl<K: DeepView, V: DeepView> DeepView for KeyValue<K, V> {
    type V = (K::V, V::V);

    open spec fn deep_view(&self) -> (K::V, V::V) {
        (self.key.deep_view(), self.value.deep_view())
    }
}

/// The literal `=`.
pub open spec fn equals_literal() -> Seq<char> {
    seq!['=']
}

/// What decoding an entry returns: the key, decoded by the rule of `K`, then
/// the separator `=`, then the value, decoded by the rule of `V`; the first
/// error of the three where one fails.
pub open spec fn key_value_spec<I: Input, K: ParseFrom<I>, V: ParseFrom<I>>(
    input: Seq<char>,
) -> IResult<Seq<char>, (K::V, V::V)> {
    match K::parse_spec(input) {
        Err(e) => Err(e),
        Ok((after_key, key)) => match after_separator(after_key, equals_literal()) {
            Err(e) => Err(e),
            Ok(before_value) => match V::parse_spec(before_value) {
                Err(e) => Err(e),
                Ok((rest, value)) => Ok((rest, (key, value))),
            },
        },
    }
}

impl<I: Input, K: ParseFrom<I>, V: ParseFrom<I>> ParseFrom<I> for KeyValue<K, V> {
    open spec fn obeys_parse_spec() -> bool {
        K::obeys_parse_spec() && V::obeys_parse_spec()
    }

    open spec fn parse_spec(input: Seq<char>) -> IResult<Seq<char>, (K::V, V::V)> {
        key_value_spec::<I, K, V>(input)
    }

    fn parse(input: I) -> (r: IResult<I, KeyValue<K, V>>) {
        let (after_key, key) = match K::parse(input) {
            Ok(done) => done,
            Err(e) => {
                return Err(e);
            },
        };
        proof {
            reveal_strlit("=");
            assert("="@ =~= equals_literal());
        }
        let before_value = match separator(after_key, "=") {
            Ok(rest) => rest,
            Err(e) => {
                return Err(e);
            },
        };
        match V::parse(before_value) {
            Ok((rest, value)) => {
                proof {
                    lemma_suffix_trans(
                        before_value.elems(),
                        after_key.elems(),
                        input.elems(),
                    );
                    lemma_suffix_trans(rest.elems(), before_value.elems(), input.elems());
                }
                Ok((rest, KeyValue { key, value }))
            },
            Err(e) => Err(e),
        }
    }
}

} // verus!
