//! The decoding rules of `Box`, `Rc` and `Arc`: the rule of what they hold.
//! For any other type that is made from one value, `parse_map` decodes the
//! value and makes the other from it.

use crate::error::{ErrMode, IResult};
use crate::input::Input;
use crate::lexeme::is_suffix;
use crate::parse::{error_model, ParseFrom};
use std::rc::Rc;
use std::sync::Arc;
use vstd::prelude::*;

verus! {

impl<I: Input, T: ParseFrom<I>> ParseFrom<I> for Box<T> {
    open spec fn obeys_parse_spec() -> bool {
        T::obeys_parse_spec()
    }

    open spec fn parse_spec(input: Seq<char>) -> IResult<Seq<char>, T::V> {
        T::parse_spec(input)
    }

    fn parse(input: I) -> (r: IResult<I, Box<T>>) {
        match T::parse(input) {
            Ok((rest, value)) => Ok((rest, Box::new(value))),
            Err(e) => Err(e),
        }
    }
}

impl<I: Input, T: ParseFrom<I>> ParseFrom<I> for Rc<T> {
    open spec fn obeys_parse_spec() -> bool {
        T::obeys_parse_spec()
    }

    open spec fn parse_spec(input: Seq<char>) -> IResult<Seq<char>, T::V> {
        T::parse_spec(input)
    }

    fn parse(input: I) -> (r: IResult<I, Rc<T>>) {
        match T::parse(input) {
            Ok((rest, value)) => Ok((rest, Rc::new(value))),
            Err(e) => Err(e),
        }
    }
}

impl<I: Input, T: ParseFrom<I>> ParseFrom<I> for Arc<T> {
    open spec fn obeys_parse_spec() -> bool {
        T::obeys_parse_spec()
    }

    open spec fn parse_spec(input: Seq<char>) -> IResult<Seq<char>, T::V> {
        T::parse_spec(input)
    }

    fn parse(input: I) -> (r: IResult<I, Arc<T>>) {
        match T::parse(input) {
            Ok((rest, value)) => Ok((rest, Arc::new(value))),
            Err(e) => Err(e),
        }
    }
}

/// Decodes a `T` from the head of `input` and returns what `wrap` makes of
/// it, with what is left of the input. An error of the rule of `T` is
/// returned as it stands, and `wrap` is then not called.
pub fn parse_map<I: Input, T: ParseFrom<I>, U, F: FnOnce(T) -> U>(input: I, wrap: F) -> (r:
    IResult<I, U>)
    requires
        forall|value: T| call_requires(wrap, (value,)),
    ensures
        r matches Ok((rest, _)) ==> is_suffix(rest.elems(), input.elems()),
        T::obeys_parse_spec() ==> match T::parse_spec(input.elems()) {
            Ok((left, model)) => r matches Ok((rest, made)) && rest.elems() == left && exists|
                value: T,
            |
                value.deep_view() == model && call_ensures(wrap, (value,), made),
            Err(ErrMode::Error(e)) => r matches Err(ErrMode::Error(f)) && error_model(f) == e,
            Err(ErrMode::Failure(e)) => r matches Err(ErrMode::Failure(f)) && error_model(f) == e,
        },
{
    match T::parse(input) {
        Ok((rest, value)) => Ok((rest, wrap(value))),
        Err(e) => Err(e),
    }
}

} // verus!
