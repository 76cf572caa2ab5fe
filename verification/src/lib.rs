//! Decoding typed values from text or bytes.
//!
//! A type that implements [`ParseFrom`] has one rule by which a value of it is
//! decoded from the head of an input. The rules compose: a `Vec<T>`, a set, a
//! map or an array of `T` is decoded by the rule of `T`. [`ParseFromExt`] adds
//! the decoding of a whole input, which fails where input is left over.
//!
//! An input is a `&str` or a `&[u8]`, all of which is there when it is
//! decoded. A decoding step has three outcomes: a value and what is left of
//! the input, an error after which another rule may be tried, and a failure
//! after which none is to be. No step asks for more input.
//!
//! Each rule has a model, `parse_spec`: a function from the elements of the
//! input, as a sequence of characters, to the outcome. `parse` is proved to
//! return what the model says, for every type of this library whose values
//! have a mathematical view. The tokens themselves (numbers, literals,
//! blanks, line endings) are read by `nom`; what it returns is stated in
//! `lexer` and not proved.

pub mod array;
pub mod collect;
pub mod decimal;
pub mod error;
pub mod input;
pub mod lexeme;
mod lexer;
pub mod list;
pub mod number;
pub mod parse;
pub mod primitive;
pub mod sequence;
pub mod text;
pub mod wrapper;

pub use crate::error::{ErrMode, Error, ErrorKind, IResult};
pub use crate::input::Input;
pub use crate::parse::{complete, ParseFrom, ParseFromExt};
pub use crate::sequence::{separator, KeyValue};
pub use crate::wrapper::parse_map;
pub use vstd::view::DeepView;
