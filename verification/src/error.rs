//! The outcome of a decoding step: what was decoded and what is left of the
//! input, or an error that names the place in the input where it arose.

use vstd::prelude::*;

verus! {

/// Why a decoding step failed.
#[derive(Clone, Copy, Debug, PartialEq, Eq, Hash, Structural)]
pub enum ErrorKind {
    /// A literal token (`true`, `false`, `,`, `=`) was expected.
    Tag,
    /// No digit was found, or the number does not fit its type.
    Digit,
    /// The input ended where an element was required, or input was left over
    /// where all of it had to be consumed.
    Eof,
    /// The head of the input is not stored as exactly one byte.
    Char,
    /// The text is not a floating-point number of the requested width.
    Float,
}

/// A decoding error: the input that was left when it arose, and its kind.
#[derive(Debug, PartialEq, Eq)]
pub struct Error<I> {
    /// The input at the place of the error.
    pub input: I,
    /// The kind of the error.
    pub code: ErrorKind,
}

/// How a failed decoding step is to be treated by its caller.
#[derive(Debug, PartialEq, Eq)]
pub enum ErrMode<E> {
    /// The step did not match here; another rule may be tried on the same input.
    Error(E),
    /// The input is wrong beyond this step; no other rule is to be tried.
    Failure(E),
}

/// The result of a decoding step on an input of type `I`: the remaining input
/// and the decoded value, or an error.
pub type IResult<I, O> = Result<(I, O), ErrMode<Error<I>>>;

impl<I> Error<I> {
    /// An error of kind `code` at `input`.
    pub fn new(input: I, code: ErrorKind) -> (e: Self)
        ensures
            e.input == input,
            e.code == code,
    {
        Error { input, code }
    }

    /// An error of kind `kind` at `input`.
    pub fn from_error_kind(input: I, kind: ErrorKind) -> (e: Self)
        ensures
            e.input == input,
            e.code == kind,
    {
        Error { input, code: kind }
    }
}

impl<E> ErrMode<E> {
    /// The error itself, whichever way it is to be treated.
    pub open spec fn inner(self) -> E {
        match self {
            ErrMode::Error(e) => e,
            ErrMode::Failure(e) => e,
        }
    }

    /// The error itself, whichever way it is to be treated.
    pub fn into_inner(self) -> (e: E)
        ensures
            e == self.inner(),
    {
        match self {
            ErrMode::Error(e) => e,
            ErrMode::Failure(e) => e,
        }
    }
}

/// The result of a step that decoded `value` and left `rest`.
pub open spec fn decoded<I, O>(rest: I, value: O) -> IResult<I, O> {
    Ok((rest, value))
}

/// The result of a step that failed with a recoverable error of kind `code`
/// at `input`.
pub open spec fn refused<I, O>(input: I, code: ErrorKind) -> IResult<I, O> {
    Err(recoverable(input, code))
}

/// A recoverable error of kind `code` at `input`.
pub open spec fn recoverable<I>(input: I, code: ErrorKind) -> ErrMode<Error<I>> {
    ErrMode::Error(Error { input, code })
}

} // verus!
