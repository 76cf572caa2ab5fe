//! The decoding rule of a type, and the decoding of a whole input by it.

use crate::error::{decoded, ErrMode, Error, ErrorKind, IResult};
use crate::input::Input;
use crate::lexeme::is_suffix;
use vstd::prelude::*;

verus! {

/// An error, with the input at its place taken as a sequence of characters.
pub open spec fn error_model<I: Input>(e: Error<I>) -> Error<Seq<char>> {
    Error { input: e.input.elems(), code: e.code }
}

/// The result of a decoding step as a mathematical value: the remaining
/// input as a sequence of characters and the decoded value by its deep view,
/// or the error with the input at its place as a sequence of characters.
pub open spec fn result_model<I: Input, T: DeepView>(r: IResult<I, T>) -> IResult<
    Seq<char>,
    T::V,
> {
    match r {
        Ok((rest, value)) => Ok((rest.elems(), value.deep_view())),
        Err(ErrMode::Error(e)) => Err(ErrMode::Error(error_model(e))),
        Err(ErrMode::Failure(e)) => Err(ErrMode::Failure(error_model(e))),
    }
}

/// The result of decoding a whole input as a mathematical value.
pub open spec fn complete_model<I: Input, T: DeepView>(r: Result<T, Error<I>>) -> Result<
    T::V,
    Error<Seq<char>>,
> {
    match r {
        Ok(value) => Ok(value.deep_view()),
        Err(e) => Err(error_model(e)),
    }
}

/// What decoding a whole input makes of the result `r` of a decoding step:
/// the value where nothing is left; an error of kind `Eof` at what is left,
/// where something is; and the error of the step itself where it failed.
pub open spec fn complete_spec<V>(r: IResult<Seq<char>, V>) -> Result<V, Error<Seq<char>>> {
    match r {
        Ok((rest, value)) => if rest.len() == 0 {
            Ok(value)
        } else {
            Err(Error { input: rest, code: ErrorKind::Eof })
        },
        Err(e) => Err(e.inner()),
    }
}

/// Decoding a whole input never yields a value where input is left over: the
/// result is then an error of kind `Eof` at what is left.
pub proof fn law_left_over<V>(rest: Seq<char>, value: V)
    requires
        rest.len() > 0,
    ensures
        complete_spec(decoded(rest, value)) == Err::<V, Error<Seq<char>>>(
            Error { input: rest, code: ErrorKind::Eof },
        ),
{
}

/// Decoding a whole input yields a value only where the decoding step
/// yielded it and left nothing; an error of the step is returned as it is.
pub proof fn law_complete<V>(r: IResult<Seq<char>, V>)
    ensures
        complete_spec(r) matches Ok(value) ==> r == decoded(Seq::<char>::empty(), value),
        r matches Err(e) ==> complete_spec(r) == Err::<V, Error<Seq<char>>>(e.inner()),
{
    if let Ok((rest, value)) = r {
        if rest.len() == 0 {
            assert(rest =~= Seq::<char>::empty());
        }
    }
}

/// A type with a rule by which a value of it is decoded from the head of an
/// input of type `I`.
pub trait ParseFrom<I: Input>: Sized + DeepView {
    /// Whether `parse` is held to `parse_spec`. A rule that gives no model of
    /// itself leaves this `false`; what is built with it is then not held to
    /// a model either.
    open spec fn obeys_parse_spec() -> bool {
        false
    }

    /// What `parse` returns on the input whose elements are `input`.
    open spec fn parse_spec(input: Seq<char>) -> IResult<Seq<char>, <Self as DeepView>::V> {
        arbitrary()
    }

    /// Decodes a value from the head of `input`, and returns it with what is
    /// left of the input, or returns an error.
    fn parse(input: I) -> (r: IResult<I, Self>)
        ensures
            r matches Ok((rest, _)) ==> is_suffix(rest.elems(), input.elems()),
            Self::obeys_parse_spec() ==> result_model(r) == Self::parse_spec(input.elems()),
    ;
}

/// What decoding a whole input makes of the result `r` of a decoding step,
/// with the values and inputs themselves in place of their models.
pub open spec fn complete_of<I: Input, T>(r: IResult<I, T>) -> Result<T, Error<I>> {
    match r {
        Ok((rest, value)) => if rest.elems().len() == 0 {
            Ok(value)
        } else {
            Err(Error { input: rest, code: ErrorKind::Eof })
        },
        Err(e) => Err(e.inner()),
    }
}

/// For a result `r` of a decoding step, the result of decoding the whole
/// input: the value where nothing is left, an error of kind `Eof` at what is
/// left where something is, and the error of the step where it failed.
pub fn complete<I: Input, T: DeepView>(r: IResult<I, T>) -> (c: Result<T, Error<I>>)
    ensures
        c == complete_of(r),
        complete_model(c) == complete_spec(result_model(r)),
{
    match r {
        Ok((rest, value)) => {
            if rest.is_empty() {
                Ok(value)
            } else {
                Err(Error { input: rest, code: ErrorKind::Eof })
            }
        },
        Err(e) => Err(e.into_inner()),
    }
}

/// The decoding of a whole input, for every type that has a decoding rule.
pub trait ParseFromExt<I: Input>: ParseFrom<I> {
    /// Decodes a value from `input` and returns it if all of the input was
    /// consumed. Where input is left over, the result is an error of kind
    /// `Eof` at what is left; where the rule fails, it is the rule's error.
    fn parse_complete(input: I) -> (r: Result<Self, Error<I>>)
        ensures
            Self::obeys_parse_spec() ==> complete_model(r) == complete_spec(
                Self::parse_spec(input.elems()),
            ),
    {
        complete(Self::parse(input))
    }
}

impl<I: Input, T: ParseFrom<I>> ParseFromExt<I> for T {

}

} // verus!
