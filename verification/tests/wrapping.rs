use nom_parse_trait::{parse_map, ErrMode, Error, ErrorKind, ParseFrom, ParseFromExt};
use std::cell::Cell;
use std::{rc::Rc, sync::Arc};

#[test]
fn test_box() {
    let input = "12";
    let expected = Box::new(12i32);

    assert_eq!(
        Ok::<_, Error<_>>(expected),
        Box::<i32>::parse_complete(input)
    )
}

#[test]
fn test_rc() {
    let input = "12";
    let expected = Rc::new(12i32);

    assert_eq!(
        Ok::<_, Error<_>>(expected),
        Rc::<i32>::parse_complete(input)
    )
}

#[test]
fn test_arc() {
    let input = "12";
    let expected = Arc::new(12i32);

    assert_eq!(
        Ok::<_, Error<_>>(expected),
        Arc::<i32>::parse_complete(input)
    )
}

#[test]
fn wrapping_adds_no_error() {
    assert_eq!(
        Err(ErrMode::Error(Error::new("x", ErrorKind::Digit))),
        Box::<i32>::parse("x")
    );
    assert_eq!(
        Err(ErrMode::Error(Error::new(b"".as_ref(), ErrorKind::Eof))),
        Rc::<char>::parse(b"".as_ref())
    );
    assert_eq!(
        Err(Error::new("3", ErrorKind::Eof)),
        Arc::<Box<bool>>::parse_complete("true3")
    );
}

#[test]
fn wrapped_in_a_list() {
    assert_eq!(
        Ok::<_, Error<_>>(vec![Box::new(1u16), Box::new(2u16)]),
        Vec::<Box<u16>>::parse_complete("1\n2")
    );
}

#[test]
fn map_makes_a_value_of_the_decoded_one() {
    let made = parse_map::<_, u32, _, _>("12 x", Cell::new);
    assert_eq!(Ok((" x", Cell::new(12))), made);
    let doubled = parse_map::<_, u32, _, _>(b"21".as_ref(), |n: u32| 2 * n);
    assert_eq!(Ok((b"".as_ref(), 42)), doubled);
}

#[test]
fn map_does_not_call_on_an_error() {
    let mut called = false;
    let r = parse_map::<_, u32, _, _>("x", |n: u32| {
        called = true;
        n
    });
    assert_eq!(Err(ErrMode::Error(Error::new("x", ErrorKind::Digit))), r);
    assert!(!called);
}
