use nom_parse_trait::{ErrMode, Error, ErrorKind, Input, ParseFrom, ParseFromExt};

fn all_chars<I: Input>(input: I) -> Result<(I, Vec<char>), Error<I>> {
    let mut found = Vec::new();
    let mut rest = input;
    loop {
        match char::parse(rest) {
            Ok((left, c)) => {
                found.push(c);
                rest = left;
            }
            Err(ErrMode::Error(e)) | Err(ErrMode::Failure(e)) => {
                if found.is_empty() {
                    return Err(e);
                }
                return Ok((rest, found));
            }
        }
    }
}

#[test]
fn read_characters() {
    let input = "T√∞≈íüèÉ";

    let result: Result<_, Error<_>> = all_chars(input);

    assert_eq!(
        Ok(("", vec!['T', '√', '∞', '≈', 'í', '\u{f8ff}', 'ü', 'è', 'É'])),
        result
    );
}

#[test]
fn read_characters_of_one_to_four_bytes() {
    let input = "T\u{f0}\u{152}\u{1f3c3}";
    assert_eq!(input.len(), 9);

    let result: Result<_, Error<_>> = all_chars(input);

    assert_eq!(Ok(("", vec!['T', '\u{f0}', '\u{152}', '\u{1f3c3}'])), result);
}

#[test]
fn read_bytes() {
    let input = b"1234".as_ref();

    let result: Result<_, Error<_>> = all_chars(input);

    assert_eq!(Ok((b"".as_ref(), vec!['1', '2', '3', '4'])), result);
}

#[test]
fn char_takes_one_character_not_one_byte() {
    assert_eq!(
        Ok::<_, ErrMode<Error<_>>>(("bc", '\u{20ac}')),
        char::parse("\u{20ac}bc")
    );
    assert_eq!(
        Ok::<_, ErrMode<Error<_>>>(("\u{1f3c3}", '\u{1f3c3}')),
        char::parse("\u{1f3c3}\u{1f3c3}")
    );
    assert_eq!(Ok::<_, Error<_>>('\u{e9}'), char::parse_complete("\u{e9}"));
}

#[test]
fn char_takes_one_byte_of_bytes() {
    assert_eq!(
        Ok::<_, ErrMode<Error<_>>>((b"\xa9x".as_ref(), '\u{c3}')),
        char::parse(b"\xc3\xa9x".as_ref())
    );
    assert_eq!(
        Ok::<_, ErrMode<Error<_>>>((b"".as_ref(), '\u{ff}')),
        char::parse(b"\xff".as_ref())
    );
}

#[test]
fn char_of_empty_input() {
    assert_eq!(
        Err(ErrMode::Error(Error::new("", ErrorKind::Eof))),
        char::parse("")
    );
    assert_eq!(
        Err(Error::new(b"".as_ref(), ErrorKind::Eof)),
        char::parse_complete(b"".as_ref())
    );
}

#[test]
fn byte_of_bytes() {
    assert_eq!(
        Ok::<_, ErrMode<Error<_>>>((b"23".as_ref(), b'1')),
        u8::parse(b"123".as_ref())
    );
    assert_eq!(
        Ok::<_, ErrMode<Error<_>>>((b"\x00".as_ref(), 0xff)),
        u8::parse(b"\xff\x00".as_ref())
    );
    assert_eq!(Ok::<_, Error<_>>(0x80), u8::parse_complete(b"\x80".as_ref()));
    assert_eq!(
        Err(ErrMode::Error(Error::new(b"".as_ref(), ErrorKind::Eof))),
        u8::parse(b"".as_ref())
    );
}

#[test]
fn byte_of_text() {
    assert_eq!(Ok::<_, ErrMode<Error<_>>>(("23", b'1')), u8::parse("123"));
    assert_eq!(Ok::<_, Error<_>>(0x7f), u8::parse_complete("\u{7f}"));
    assert_eq!(
        Err(ErrMode::Error(Error::new("\u{80}1", ErrorKind::Char))),
        u8::parse("\u{80}1")
    );
    assert_eq!(
        Err(ErrMode::Error(Error::new("\u{20ac}", ErrorKind::Char))),
        u8::parse("\u{20ac}")
    );
    assert_eq!(
        Err(ErrMode::Error(Error::new("", ErrorKind::Eof))),
        u8::parse("")
    );
}

#[test]
fn byte_is_no_number() {
    assert_eq!(
        Err(Error::new("23", ErrorKind::Eof)),
        u8::parse_complete("123")
    );
}

#[test]
fn bool_literals() {
    assert_eq!(Ok::<_, Error<_>>(true), bool::parse_complete("true"));
    assert_eq!(Ok::<_, Error<_>>(false), bool::parse_complete("false"));
    assert_eq!(
        Ok::<_, Error<_>>(true),
        bool::parse_complete(b"true".as_ref())
    );
    assert_eq!(
        Ok::<_, ErrMode<Error<_>>>((b"x".as_ref(), false)),
        bool::parse(b"falsex".as_ref())
    );
    assert_eq!(Ok::<_, ErrMode<Error<_>>>(("false", true)), bool::parse("truefalse"));
}

#[test]
fn bool_is_case_sensitive() {
    assert_eq!(
        Err(ErrMode::Error(Error::new("True", ErrorKind::Tag))),
        bool::parse("True")
    );
    assert_eq!(
        Err(ErrMode::Error(Error::new("FALSE", ErrorKind::Tag))),
        bool::parse("FALSE")
    );
    assert_eq!(
        Err(ErrMode::Error(Error::new("tru", ErrorKind::Tag))),
        bool::parse("tru")
    );
    assert_eq!(
        Err(ErrMode::Error(Error::new("", ErrorKind::Tag))),
        bool::parse("")
    );
    assert_eq!(
        Err(ErrMode::Error(Error::new(b"1".as_ref(), ErrorKind::Tag))),
        bool::parse(b"1".as_ref())
    );
}

#[test]
fn left_over_input_is_an_error_at_what_is_left() {
    assert_eq!(
        Err(Error::new("abc", ErrorKind::Eof)),
        u32::parse_complete("123abc")
    );
    assert_eq!(
        Err(Error::new(b"abc".as_ref(), ErrorKind::Eof)),
        u32::parse_complete(b"123abc".as_ref())
    );
    assert_eq!(
        Err(Error::new(" ", ErrorKind::Eof)),
        bool::parse_complete("true ")
    );
    assert_eq!(
        Err(Error::new("b", ErrorKind::Eof)),
        char::parse_complete("ab")
    );
}
