use nom_parse_trait::{ErrMode, Error, ErrorKind, KeyValue, ParseFrom, ParseFromExt};
use std::collections::{HashMap, HashSet};

#[test]
fn test_vec_of_numbers() {
    let input = "1\n2\n3\n4\n5";
    let expected = vec![1, 2, 3, 4, 5];

    assert_eq!(
        Ok::<_, Error<_>>(expected),
        Vec::<u32>::parse_complete(input)
    );
}

#[test]
fn test_set_of_numbers() {
    let input = "1\n2\n3\n4\n5";
    let expected = vec![1, 2, 3, 4, 5].into_iter().collect();

    assert_eq!(
        Ok::<_, Error<_>>(expected),
        HashSet::<u32>::parse_complete(input)
    );
}

#[test]
fn test_map_of_numbers() {
    let input = "a = 1\nb = 2\nc = 3\nd = 4\ne = 5";
    let expected = vec![('a', 1), ('b', 2), ('c', 3), ('d', 4), ('e', 5)]
        .into_iter()
        .collect();

    assert_eq!(
        Ok::<_, Error<_>>(expected),
        HashMap::<char, u32>::parse_complete(input)
    );
}

#[test]
fn test_array_of_numbers() {
    let input = "1, 2, 3, 4, 5";
    let expected = [1, 2, 3, 4, 5];

    assert_eq!(
        Ok::<_, Error<_>>(expected),
        <[u32; 5]>::parse_complete(input)
    )
}

#[test]
fn test_empty_array_of_numbers() {
    let input = "";
    let expected: [u32; 0] = [];

    assert_eq!(
        Ok::<_, Error<_>>(expected),
        <[u32; 0]>::parse_complete(input)
    );
}

#[test]
fn vec_of_bytes_input() {
    assert_eq!(
        Ok::<_, Error<_>>(vec![10, -2, 3]),
        Vec::<i32>::parse_complete(b"10\r\n-2\n3".as_ref())
    );
}

#[test]
fn vec_may_be_empty() {
    assert_eq!(Ok::<_, Error<_>>(vec![]), Vec::<u32>::parse_complete(""));
    assert_eq!(
        Ok::<_, ErrMode<Error<_>>>(("x", vec![])),
        Vec::<u32>::parse("x")
    );
}

#[test]
fn vec_ends_before_a_line_ending_that_no_element_follows() {
    assert_eq!(
        Ok::<_, ErrMode<Error<_>>>(("\n", vec![1, 2])),
        Vec::<u32>::parse("1\n2\n")
    );
    assert_eq!(
        Ok::<_, ErrMode<Error<_>>>(("\nx\n3", vec![1])),
        Vec::<u32>::parse("1\nx\n3")
    );
    assert_eq!(
        Err(Error::new("\n", ErrorKind::Eof)),
        Vec::<u32>::parse_complete("1\n2\n")
    );
    assert_eq!(
        Ok::<_, ErrMode<Error<_>>>((" 2", vec![1])),
        Vec::<u32>::parse("1 2")
    );
    assert_eq!(
        Ok::<_, ErrMode<Error<_>>>(("\r2", vec![1])),
        Vec::<u32>::parse("1\r2")
    );
}

#[test]
fn vec_of_vec() {
    assert_eq!(
        Ok::<_, Error<_>>(vec![vec![1, 2, 3]]),
        Vec::<Vec<u32>>::parse_complete("1\n2\n3")
    );
}

#[test]
fn vec_of_arrays() {
    assert_eq!(
        Ok::<_, Error<_>>(vec![[b'1', b'2'], [b'3', b'4']]),
        Vec::<[u8; 2]>::parse_complete(b"1,2\r\n3, 4".as_ref())
    );
    assert_eq!(
        Ok::<_, Error<_>>(vec![[1, 2], [3, 4]]),
        Vec::<[u32; 2]>::parse_complete("1,2\n3 , 4")
    );
}

#[test]
fn set_keeps_one_of_equal_elements() {
    let expected: HashSet<u32> = vec![1, 2].into_iter().collect();
    assert_eq!(
        Ok::<_, Error<_>>(expected),
        HashSet::<u32>::parse_complete("1\n2\n1\n2\n2")
    );
    assert_eq!(
        Ok::<_, Error<_>>(HashSet::new()),
        HashSet::<u32>::parse_complete("")
    );
}

#[test]
fn map_keeps_the_last_value_of_a_key() {
    let expected: HashMap<u8, i32> = vec![(1, 30), (2, 20)].into_iter().collect();
    assert_eq!(
        Ok::<_, Error<_>>(expected),
        HashMap::<u8, i32>::parse_complete(b"\x01=10\n\x02=20\n\x01=30".as_ref())
    );
    let by_number: HashMap<u32, bool> = vec![(7, false)].into_iter().collect();
    assert_eq!(
        Ok::<_, Error<_>>(by_number),
        HashMap::<u32, bool>::parse_complete("7=true\n7 =\tfalse")
    );
}

#[test]
fn map_may_be_empty() {
    assert_eq!(
        Ok::<_, Error<_>>(HashMap::new()),
        HashMap::<char, u32>::parse_complete("")
    );
}

#[test]
fn map_ends_before_an_entry_that_fails() {
    let expected: HashMap<char, u32> = vec![('a', 1)].into_iter().collect();
    assert_eq!(
        Ok::<_, ErrMode<Error<_>>>(("\nb : 2", expected)),
        HashMap::<char, u32>::parse("a = 1\nb : 2")
    );
    assert_eq!(
        Err(Error::new("\nb = x", ErrorKind::Eof)),
        HashMap::<char, u32>::parse_complete("a = 1\nb = x")
    );
}

#[test]
fn entry_of_key_and_value() {
    assert_eq!(
        Ok::<_, Error<_>>(KeyValue { key: 'a', value: 12u16 }),
        KeyValue::<char, u16>::parse_complete("a \t=  12")
    );
    assert_eq!(
        Ok::<_, ErrMode<Error<_>>>((" ", KeyValue { key: true, value: false })),
        KeyValue::<bool, bool>::parse("true=false ")
    );
}

#[test]
fn entry_errors_are_those_of_its_parts() {
    assert_eq!(
        Err(ErrMode::Error(Error::new("", ErrorKind::Eof))),
        KeyValue::<char, u16>::parse("")
    );
    assert_eq!(
        Err(ErrMode::Error(Error::new(": 1", ErrorKind::Tag))),
        KeyValue::<char, u16>::parse("a  : 1")
    );
    assert_eq!(
        Err(ErrMode::Error(Error::new("x", ErrorKind::Digit))),
        KeyValue::<char, u16>::parse("a = x")
    );
    assert_eq!(
        Err(ErrMode::Error(Error::new(b"".as_ref(), ErrorKind::Tag))),
        KeyValue::<char, u16>::parse(b"a".as_ref())
    );
}

#[test]
fn array_separators_may_have_blanks() {
    assert_eq!(
        Ok::<_, Error<_>>([1, 2, 3]),
        <[i8; 3]>::parse_complete("1,2 \t,\t 3")
    );
    assert_eq!(
        Ok::<_, Error<_>>([true, false]),
        <[bool; 2]>::parse_complete(b"true , false".as_ref())
    );
}

#[test]
fn array_of_one_has_no_separator() {
    assert_eq!(Ok::<_, Error<_>>([7]), <[u32; 1]>::parse_complete("7"));
    assert_eq!(
        Ok::<_, ErrMode<Error<_>>>((", 8", [7])),
        <[u32; 1]>::parse("7, 8")
    );
}

#[test]
fn array_of_none_consumes_nothing() {
    let expected: [u32; 0] = [];
    assert_eq!(
        Ok::<_, ErrMode<Error<_>>>(("1, 2", expected)),
        <[u32; 0]>::parse("1, 2")
    );
    assert_eq!(
        Err(Error::new("x", ErrorKind::Eof)),
        <[u32; 0]>::parse_complete("x")
    );
}

#[test]
fn array_takes_no_blanks_before_its_first_element() {
    assert_eq!(
        Err(ErrMode::Error(Error::new(" 1, 2", ErrorKind::Digit))),
        <[u32; 2]>::parse(" 1, 2")
    );
}

#[test]
fn array_takes_the_blanks_after_a_separator_only() {
    assert_eq!(
        Ok::<_, ErrMode<Error<_>>>((" ", [1, 2])),
        <[u32; 2]>::parse("1 , 2 ")
    );
}

#[test]
fn array_with_a_wrong_element() {
    assert_eq!(
        Err(Error::new("x, 4, 5", ErrorKind::Digit)),
        <[u32; 5]>::parse_complete("1, 2, x, 4, 5")
    );
    assert_eq!(
        Err(ErrMode::Error(Error::new("x", ErrorKind::Digit))),
        <[u32; 1]>::parse("x")
    );
}

#[test]
fn array_with_a_wrong_separator() {
    assert_eq!(
        Err(ErrMode::Error(Error::new("; 3", ErrorKind::Tag))),
        <[u32; 3]>::parse("1, 2 ; 3")
    );
    assert_eq!(
        Err(ErrMode::Error(Error::new("", ErrorKind::Tag))),
        <[u32; 3]>::parse("1, 2")
    );
    assert_eq!(
        Err(ErrMode::Error(Error::new(b"\n2".as_ref(), ErrorKind::Tag))),
        <[u32; 2]>::parse(b"1\n2".as_ref())
    );
}

#[test]
fn array_of_arrays() {
    assert_eq!(
        Ok::<_, Error<_>>([[1, 2], [3, 4]]),
        <[[u32; 2]; 2]>::parse_complete("1, 2, 3, 4")
    );
}

#[test]
fn array_too_long_for_its_type() {
    assert_eq!(
        Err(Error::new(", 3", ErrorKind::Eof)),
        <[u32; 2]>::parse_complete("1, 2, 3")
    );
}
