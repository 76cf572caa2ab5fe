//! The inputs that can be decoded: text (`&str`) and bytes (`&[u8]`).

use crate::lexeme::{after_line_ending, after_tag, skip_blanks};
use crate::lexer;
use crate::text;
use vstd::pervasive::unreached;
use vstd::prelude::*;
use vstd::slice::slice_subrange;
use vstd::string::StrSliceExecFns;
use vstd::string::StringSliceAdditionalSpecFns;
use vstd::utf8::*;

verus! {

/// The characters that the bytes `bytes` stand for, one for each byte: the
/// byte's value is the character's code point.
pub open spec fn latin1(bytes: Seq<u8>) -> Seq<char> {
    bytes.map_values(|b: u8| b as char)
}

/// An input to decode: a sequence of elements that is consumed from its head.
/// A decoding step never changes an input; it returns what is left of it.
pub trait Input: Copy {
    /// The elements of the input in order, each read as a character.
    spec fn elems(self) -> Seq<char>;

    /// Whether nothing is left.
    fn is_empty(self) -> (b: bool)
        ensures
            b == (self.elems().len() == 0),
    ;

    /// The first element and what follows it; `None` where nothing is left.
    fn split_first(self) -> (r: Option<(char, Self)>)
        ensures
            r is None <==> self.elems().len() == 0,
            r matches Some((c, rest)) ==> c == self.elems()[0] && rest.elems()
                == self.elems().skip(1),
    ;

    /// What follows the literal `t` at the head of the input; `None` where
    /// the input does not start with `t`.
    fn tag(self, t: &str) -> (r: Option<Self>)
        requires
            is_ascii_chars(t@),
        ensures
            r is None <==> after_tag(self.elems(), t@) is None,
            r matches Some(rest) ==> Some(rest.elems()) == after_tag(self.elems(), t@),
    ;

    /// The input without the spaces and tabs at its head.
    fn space0(self) -> (rest: Self)
        ensures
            rest.elems() == skip_blanks(self.elems()),
    ;

    /// What follows the line ending at the head of the input; `None` where
    /// the input does not start with one.
    fn line_ending(self) -> (r: Option<Self>)
        ensures
            r is None <==> after_line_ending(self.elems()) is None,
            r matches Some(rest) ==> Some(rest.elems()) == after_line_ending(self.elems()),
    ;
}

/// The number of bytes that store the character `c` in text.
pub open spec fn utf8_width(c: char) -> nat {
    encode_scalar(c as u32).len()
}

/// The number of bytes that store `c` in text: 1 to 4.
fn char_width(c: char) -> (n: usize)
    ensures
        n == utf8_width(c),
        1 <= n <= 4,
{
    let u: u32 = c as u32;
    proof {
        char_is_scalar(c);
    }
    if u < 0x80 {
        1
    } else if u < 0x800 {
        2
    } else if u < 0x10000 {
        3
    } else {
        4
    }
}

/// In the bytes that store the text `s`, the first character takes as many
/// bytes as its width, one to four; it ends where the second one starts, and
/// the bytes that follow it store the rest of `s`.
pub proof fn law_first_char(s: Seq<char>)
    requires
        s.len() > 0,
    ensures
        1 <= utf8_width(s[0]) <= 4,
        is_char_boundary(encode_utf8(s), utf8_width(s[0]) as int),
        utf8_width(s[0]) <= encode_utf8(s).len(),
        encode_utf8(s).subrange(utf8_width(s[0]) as int, encode_utf8(s).len() as int)
            == encode_utf8(s.skip(1)),
{
    let b = encode_utf8(s);
    let n = utf8_width(s[0]) as int;
    encode_utf8_valid_utf8(s);
    encode_utf8_valid_utf8(s.drop_first());
    encode_utf8_first_scalar(s);
    assert(s.drop_first() == s.skip(1));
    assert(b == encode_scalar(s[0] as u32) + encode_utf8(s.drop_first()));
    assert(b.subrange(n, b.len() as int) =~= encode_utf8(s.skip(1)));
    assert(pop_first_scalar(b) == encode_utf8(s.skip(1)));
    reveal_with_fuel(is_char_boundary, 2);
}

/// Two texts that are stored as the same bytes are the same text.
pub proof fn lemma_same_bytes(a: Seq<char>, b: Seq<char>)
    requires
        encode_utf8(a) == encode_utf8(b),
    ensures
        a == b,
{
    encode_utf8_decode_utf8(a);
    encode_utf8_decode_utf8(b);
}

impl<'a> Input for &'a str {
    open spec fn elems(self) -> Seq<char> {
        self@
    }

    fn is_empty(self) -> (b: bool) {
        str::is_empty(self)
    }

    fn split_first(self) -> (r: Option<(char, Self)>) {
        if str::is_empty(self) {
            None
        } else {
            let c: char = self.get_char(0);
            let n: usize = char_width(c);
            proof {
                law_first_char(self@);
            }
            let (_, rest) = self.split_at(n);
            proof {
                lemma_same_bytes(rest@, self@.skip(1));
            }
            Some((c, rest))
        }
    }

    fn tag(self, t: &str) -> (r: Option<Self>) {
        text::str_tag(self, t)
    }

    fn space0(self) -> (rest: Self) {
        text::str_space0(self)
    }

    fn line_ending(self) -> (r: Option<Self>) {
        text::str_line_ending(self)
    }
}

/// Reading bytes as characters commutes with dropping bytes from the head.
pub proof fn lemma_latin1_skip(bytes: Seq<u8>, n: int)
    requires
        0 <= n <= bytes.len(),
    ensures
        latin1(bytes.skip(n)) == latin1(bytes).skip(n),
{
    assert(latin1(bytes.skip(n)) =~= latin1(bytes).skip(n));
}

impl<'a> Input for &'a [u8] {
    open spec fn elems(self) -> Seq<char> {
        latin1(self@)
    }

    fn is_empty(self) -> (b: bool) {
        self.len() == 0
    }

    fn split_first(self) -> (r: Option<(char, Self)>) {
        if self.len() == 0 {
            None
        } else {
            let c: char = self[0] as char;
            let rest = slice_subrange(self, 1, self.len());
            proof {
                assert(rest@ == self@.skip(1));
                lemma_latin1_skip(self@, 1);
            }
            Some((c, rest))
        }
    }

    fn tag(self, t: &str) -> (r: Option<Self>) {
        lexer::bytes_tag(self, t)
    }

    fn space0(self) -> (rest: Self) {
        match lexer::bytes_space0(self) {
            Some(rest) => rest,
            None => unreached(),
        }
    }

    fn line_ending(self) -> (r: Option<Self>) {
        lexer::bytes_line_ending(self)
    }
}

} // verus!
