use nom_parse_trait::{
    complete, separator, DeepView, ErrMode, Error, ErrorKind, IResult, KeyValue, ParseFrom,
    ParseFromExt,
};
use std::collections::{HashMap, HashSet};

/// A digit; any other character but `?` is a failure, `?` is a recoverable
/// error.
#[derive(Debug, PartialEq, Eq, Hash)]
struct Strict(u8);

impl DeepView for Strict {
    type V = u8;

    fn deep_view(&self) -> u8 {
        self.0
    }
}

impl<'a> ParseFrom<&'a str> for Strict {
    fn parse(input: &'a str) -> IResult<&'a str, Self> {
        match char::parse(input) {
            Ok((rest, c)) => match c.to_digit(10) {
                Some(d) => Ok((rest, Strict(d as u8))),
                None if c == '?' => Err(ErrMode::Error(Error::new(input, ErrorKind::Char))),
                None => Err(ErrMode::Failure(Error::new(input, ErrorKind::Digit))),
            },
            Err(e) => Err(e),
        }
    }
}

#[test]
fn failure_of_the_first_element_is_the_failure_of_the_list() {
    assert_eq!(
        Err(ErrMode::Failure(Error::new("x", ErrorKind::Digit))),
        Vec::<Strict>::parse("x")
    );
    assert_eq!(
        Ok::<_, ErrMode<Error<_>>>(("?", vec![])),
        Vec::<Strict>::parse("?")
    );
}

#[test]
fn failure_of_a_later_element_is_the_failure_of_the_list() {
    assert_eq!(
        Err(ErrMode::Failure(Error::new("x\n3", ErrorKind::Digit))),
        Vec::<Strict>::parse("1\n2\nx\n3")
    );
    assert_eq!(
        Ok::<_, ErrMode<Error<_>>>(("\n?\n3", vec![Strict(1), Strict(2)])),
        Vec::<Strict>::parse("1\n2\n?\n3")
    );
}

#[test]
fn failure_in_a_set_or_a_map() {
    assert_eq!(
        Err(ErrMode::Failure(Error::new("x", ErrorKind::Digit))),
        HashSet::<Strict>::parse("1\nx")
    );
    assert_eq!(
        Err(ErrMode::Failure(Error::new("x", ErrorKind::Digit))),
        HashMap::<Strict, Strict>::parse("1=2\n3=x")
    );
    assert_eq!(
        Err(ErrMode::Failure(Error::new("x=4", ErrorKind::Digit))),
        HashMap::<Strict, u32>::parse("1=2\nx=4")
    );
    let expected: HashMap<Strict, u32> = vec![(Strict(1), 2)].into_iter().collect();
    assert_eq!(
        Ok::<_, ErrMode<Error<_>>>(("\n?=4", expected)),
        HashMap::<Strict, u32>::parse("1=2\n?=4")
    );
}

#[test]
fn failure_in_an_entry() {
    assert_eq!(
        Err(ErrMode::Failure(Error::new("x", ErrorKind::Digit))),
        KeyValue::<u32, Strict>::parse("1 = x")
    );
}

#[test]
fn failure_in_an_array_stays_a_failure() {
    assert_eq!(
        Err(ErrMode::Failure(Error::new("x, 3", ErrorKind::Digit))),
        <[Strict; 3]>::parse("1, x, 3")
    );
    assert_eq!(
        Err(ErrMode::Error(Error::new("?, 3", ErrorKind::Char))),
        <[Strict; 3]>::parse("1, ?, 3")
    );
}

#[test]
fn failure_of_a_whole_input_is_returned_unchanged() {
    assert_eq!(
        Err(Error::new("x", ErrorKind::Digit)),
        Strict::parse_complete("x")
    );
    assert_eq!(
        Err(Error::new("x", ErrorKind::Digit)),
        Box::<Strict>::parse_complete("x")
    );
    assert_eq!(
        Err(Error::new("x", ErrorKind::Digit)),
        <[Strict; 2]>::parse_complete("1,x")
    );
}

#[test]
fn complete_of_a_result() {
    let done: IResult<&str, u32> = Ok(("", 5));
    assert_eq!(Ok(5), complete(done));
    let left: IResult<&str, u32> = Ok(("rest", 5));
    assert_eq!(Err(Error::new("rest", ErrorKind::Eof)), complete(left));
    let error: IResult<&[u8], u32> = Err(ErrMode::Error(Error::new(b"a".as_ref(), ErrorKind::Tag)));
    assert_eq!(Err(Error::new(b"a".as_ref(), ErrorKind::Tag)), complete(error));
    let failure: IResult<&str, u32> = Err(ErrMode::Failure(Error::new("a", ErrorKind::Float)));
    assert_eq!(Err(Error::new("a", ErrorKind::Float)), complete(failure));
}

#[test]
fn separator_with_blanks() {
    assert_eq!(Ok("1"), separator(" \t, \t1", ","));
    assert_eq!(Ok("1 "), separator("=1 ", "="));
    assert_eq!(Ok(b"".as_ref()), separator(b" = ".as_ref(), "="));
    assert_eq!(
        Err(ErrMode::Error(Error::new(";", ErrorKind::Tag))),
        separator("  ;", ",")
    );
    assert_eq!(
        Err(ErrMode::Error(Error::new("", ErrorKind::Tag))),
        separator("  ", ",")
    );
    assert_eq!(Ok("\n1"), separator(",\n1", ","));
}

#[test]
fn error_of_a_kind() {
    let e = Error::new("abc", ErrorKind::Char);
    assert_eq!(e.input, "abc");
    assert_eq!(e.code, ErrorKind::Char);
    assert_eq!(e, Error::from_error_kind("abc", ErrorKind::Char));
    assert_eq!(ErrMode::Error(Error::new(1, ErrorKind::Tag)).into_inner(), Error::new(1, ErrorKind::Tag));
    assert_eq!(
        ErrMode::Failure(Error::new(2, ErrorKind::Eof)).into_inner(),
        Error::new(2, ErrorKind::Eof)
    );
}
