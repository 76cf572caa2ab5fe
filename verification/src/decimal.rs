//! Numbers as they are written, and what the decoding rules of the integer
//! types make of them: a number that fits its type is decoded from its own
//! text, and a numeral with one digit more than the largest number of a type
//! is refused.

use crate::error::{decoded, refused, Error, ErrorKind};
use crate::lexeme::{
    all_digits, decimal_value, digit_run, digit_value, has_sign, is_digit, signed_lexeme,
    unsigned_lexeme,
};
use crate::number::{
    i128_spec, i16_spec, i32_spec, i64_spec, i8_spec, u128_spec, u16_spec, u32_spec, u64_spec,
};
use crate::parse::complete_spec;
use vstd::prelude::*;

verus! {

/// The decimal digit that stands for `d`.
pub open spec fn digit_char(d: nat) -> char
    recommends
        d < 10,
{
    (d + '0' as nat) as char
}

/// The text of `n` in base ten: its digits, without a leading zero; `0` for 0.
pub open spec fn decimal(n: nat) -> Seq<char>
    decreases n,
{
    if n < 10 {
        seq![digit_char(n)]
    } else {
        decimal(n / 10).push(digit_char(n % 10))
    }
}

/// The text of `v` in base ten: `-` and the text of `-v` where `v` is
/// negative, the text of `v` otherwise.
pub open spec fn integer_text(v: int) -> Seq<char> {
    if v < 0 {
        seq!['-'] + decimal((-v) as nat)
    } else {
        decimal(v as nat)
    }
}

/// Ten to the power `k`.
pub open spec fn pow10(k: nat) -> nat
    decreases k,
{
    if k == 0 {
        1
    } else {
        10 * pow10((k - 1) as nat)
    }
}

/// The digit that stands for `d` is a digit, and stands for `d`.
pub proof fn lemma_digit_char(d: nat)
    requires
        d < 10,
    ensures
        is_digit(digit_char(d)),
        digit_value(digit_char(d)) == d,
{
}

/// The text of `n` is made of digits, at least one; it denotes `n`, and `n`
/// is below ten to the power of its length.
pub proof fn lemma_decimal(n: nat)
    ensures
        decimal(n).len() >= 1,
        all_digits(decimal(n)),
        decimal_value(decimal(n)) == n,
        n < pow10(decimal(n).len()),
    decreases n,
{
    if n < 10 {
        lemma_digit_char(n);
        let s = decimal(n);
        assert(s.drop_last() =~= Seq::<char>::empty());
        assert(decimal_value(s.drop_last()) == 0);
        reveal_with_fuel(pow10, 2);
    } else {
        lemma_decimal(n / 10);
        lemma_digit_char(n % 10);
        let front = decimal(n / 10);
        let s = decimal(n);
        assert(s.drop_last() =~= front);
        assert(s.last() == digit_char(n % 10));
        assert forall|i: int| 0 <= i < s.len() implies is_digit(#[trigger] s[i]) by {
            if i < front.len() {
                assert(s[i] == front[i]);
            }
        }
    }
}

/// Where a text is made of digits, all of it is the run of digits at its
/// head.
pub proof fn lemma_digit_run_all(s: Seq<char>)
    requires
        all_digits(s),
    ensures
        digit_run(s) == s.len(),
    decreases s.len(),
{
    if s.len() > 0 {
        let tail = s.skip(1);
        assert forall|i: int| 0 <= i < tail.len() implies is_digit(#[trigger] tail[i]) by {
            assert(tail[i] == s[i + 1]);
        }
        lemma_digit_run_all(tail);
    }
}

/// A numeral of `s.len()` digits that does not start with `0` denotes at
/// least ten to the power `s.len() - 1`.
pub proof fn lemma_decimal_value_min(s: Seq<char>)
    requires
        s.len() >= 1,
        all_digits(s),
        s[0] != '0',
    ensures
        decimal_value(s) >= pow10((s.len() - 1) as nat),
    decreases s.len(),
{
    if s.len() == 1 {
        assert(s.drop_last() =~= Seq::<char>::empty());
        assert(decimal_value(s.drop_last()) == 0);
        assert(is_digit(s[0]));
    } else {
        let front = s.drop_last();
        assert forall|i: int| 0 <= i < front.len() implies is_digit(#[trigger] front[i]) by {
            assert(front[i] == s[i]);
        }
        assert(front[0] == s[0]);
        lemma_decimal_value_min(front);
    }
}

/// A number that is at most `max` is decoded from its own text, of which
/// nothing is left.
pub proof fn lemma_unsigned_round_trip(v: nat, max: nat)
    requires
        v <= max,
    ensures
        unsigned_lexeme(decimal(v), max) == Some((Seq::<char>::empty(), v)),
{
    let s = decimal(v);
    lemma_decimal(v);
    lemma_digit_run_all(s);
    assert(s.take(s.len() as int) =~= s);
    assert(s.skip(s.len() as int) =~= Seq::<char>::empty());
}

/// A number in `min ..= max` is decoded from its own text, of which nothing
/// is left.
pub proof fn lemma_signed_round_trip(v: int, min: int, max: int)
    requires
        min <= v <= max,
    ensures
        signed_lexeme(integer_text(v), min, max) == Some((Seq::<char>::empty(), v)),
{
    let s = integer_text(v);
    if v < 0 {
        let digits = decimal((-v) as nat);
        lemma_decimal((-v) as nat);
        lemma_digit_run_all(digits);
        assert(s.skip(1) =~= digits);
        assert(s[0] == '-');
        assert(digits.take(digits.len() as int) =~= digits);
        assert(digits.skip(digits.len() as int) =~= Seq::<char>::empty());
    } else {
        lemma_decimal(v as nat);
        lemma_digit_run_all(s);
        assert(is_digit(s[0]));
        assert(!has_sign(s));
        assert(s.take(s.len() as int) =~= s);
        assert(s.skip(s.len() as int) =~= Seq::<char>::empty());
    }
}

/// A numeral with one digit more than the text of `max` denotes a number
/// above `max` unless it starts with `0`; where it does, no unsigned number
/// that is at most `max` is decoded from it.
pub proof fn lemma_unsigned_too_long(s: Seq<char>, max: nat)
    requires
        all_digits(s),
        s.len() == decimal(max).len() + 1,
        s[0] != '0' || decimal_value(s) > max,
    ensures
        decimal_value(s) > max,
        unsigned_lexeme(s, max) is None,
{
    lemma_decimal(max);
    lemma_digit_run_all(s);
    if s[0] != '0' {
        lemma_decimal_value_min(s);
    }
    assert(s.take(s.len() as int) =~= s);
}

/// The number that the numeral `s` denotes: that of its digits, negated
/// where `-` stands before them.
pub open spec fn numeral_value(s: Seq<char>) -> int {
    if has_sign(s) && s[0] == '-' {
        -(decimal_value(s.skip(1)) as int)
    } else if has_sign(s) {
        decimal_value(s.skip(1)) as int
    } else {
        decimal_value(s) as int
    }
}

/// A numeral with an optional sign whose digits are one more than those of
/// `bound` denotes a number outside `-bound - 1 ..= bound` unless its digits
/// start with `0`, where `bound + 1` is no power of ten; where it does, no
/// signed number in that range is decoded from it.
pub proof fn lemma_signed_too_long(s: Seq<char>, digits: Seq<char>, bound: nat)
    requires
        s == digits || s == seq!['-'] + digits || s == seq!['+'] + digits,
        all_digits(digits),
        digits.len() == decimal(bound).len() + 1,
        digits[0] != '0' || numeral_value(s) < -bound - 1 || numeral_value(s) > bound,
        (bound + 1) % 10 != 0,
    ensures
        numeral_value(s) < -bound - 1 || numeral_value(s) > bound,
        signed_lexeme(s, -bound - 1, bound as int) is None,
{
    lemma_decimal(bound);
    lemma_digit_run_all(digits);
    assert(digits.take(digits.len() as int) =~= digits);
    assert(is_digit(digits[0]));
    if s == digits {
        assert(!has_sign(s));
    } else {
        assert(has_sign(s));
        assert(s.skip(1) =~= digits);
    }
    if digits[0] != '0' {
        lemma_decimal_value_min(digits);
        let k = decimal(bound).len();
        assert(pow10(k) == 10 * pow10((k - 1) as nat));
        assert(pow10(k) % 10 == 0);
        assert(decimal_value(digits) > bound + 1);
    }
}

/// Every `u16` is decoded from its own text, all of which is consumed.
pub proof fn law_u16_round_trip(v: u16)
    ensures
        u16_spec(decimal(v as nat)) == decoded(Seq::<char>::empty(), v),
        complete_spec(u16_spec(decimal(v as nat))) == Ok::<u16, Error<Seq<char>>>(v),
{
    lemma_unsigned_round_trip(v as nat, u16::MAX as nat);
}

/// A numeral with one digit more than `u16::MAX` is refused as a `u16`, with
/// an error of kind `Digit`, unless zeros at its head make it a number that
/// fits.
pub proof fn law_u16_too_long(s: Seq<char>)
    requires
        all_digits(s),
        s.len() == decimal(u16::MAX as nat).len() + 1,
        s[0] != '0' || decimal_value(s) > u16::MAX,
    ensures
        u16_spec(s) == refused::<Seq<char>, u16>(s, ErrorKind::Digit),
        complete_spec(u16_spec(s)) matches Err(e) && e.code == ErrorKind::Digit,
{
    lemma_unsigned_too_long(s, u16::MAX as nat);
}

/// Every `u32` is decoded from its own text, all of which is consumed.
pub proof fn law_u32_round_trip(v: u32)
    ensures
        u32_spec(decimal(v as nat)) == decoded(Seq::<char>::empty(), v),
        complete_spec(u32_spec(decimal(v as nat))) == Ok::<u32, Error<Seq<char>>>(v),
{
    lemma_unsigned_round_trip(v as nat, u32::MAX as nat);
}

/// A numeral with one digit more than `u32::MAX` is refused as a `u32`, with
/// an error of kind `Digit`, unless zeros at its head make it a number that
/// fits.
pub proof fn law_u32_too_long(s: Seq<char>)
    requires
        all_digits(s),
        s.len() == decimal(u32::MAX as nat).len() + 1,
        s[0] != '0' || decimal_value(s) > u32::MAX,
    ensures
        u32_spec(s) == refused::<Seq<char>, u32>(s, ErrorKind::Digit),
        complete_spec(u32_spec(s)) matches Err(e) && e.code == ErrorKind::Digit,
{
    lemma_unsigned_too_long(s, u32::MAX as nat);
}

/// Every `u64` is decoded from its own text, all of which is consumed.
pub proof fn law_u64_round_trip(v: u64)
    ensures
        u64_spec(decimal(v as nat)) == decoded(Seq::<char>::empty(), v),
        complete_spec(u64_spec(decimal(v as nat))) == Ok::<u64, Error<Seq<char>>>(v),
{
    lemma_unsigned_round_trip(v as nat, u64::MAX as nat);
}

/// A numeral with one digit more than `u64::MAX` is refused as a `u64`, with
/// an error of kind `Digit`, unless zeros at its head make it a number that
/// fits.
pub proof fn law_u64_too_long(s: Seq<char>)
    requires
        all_digits(s),
        s.len() == decimal(u64::MAX as nat).len() + 1,
        s[0] != '0' || decimal_value(s) > u64::MAX,
    ensures
        u64_spec(s) == refused::<Seq<char>, u64>(s, ErrorKind::Digit),
        complete_spec(u64_spec(s)) matches Err(e) && e.code == ErrorKind::Digit,
{
    lemma_unsigned_too_long(s, u64::MAX as nat);
}

/// Every `u128` is decoded from its own text, all of which is consumed.
pub proof fn law_u128_round_trip(v: u128)
    ensures
        u128_spec(decimal(v as nat)) == decoded(Seq::<char>::empty(), v),
        complete_spec(u128_spec(decimal(v as nat))) == Ok::<u128, Error<Seq<char>>>(v),
{
    lemma_unsigned_round_trip(v as nat, u128::MAX as nat);
}

/// A numeral with one digit more than `u128::MAX` is refused as a `u128`, with
/// an error of kind `Digit`, unless zeros at its head make it a number that
/// fits.
pub proof fn law_u128_too_long(s: Seq<char>)
    requires
        all_digits(s),
        s.len() == decimal(u128::MAX as nat).len() + 1,
        s[0] != '0' || decimal_value(s) > u128::MAX,
    ensures
        u128_spec(s) == refused::<Seq<char>, u128>(s, ErrorKind::Digit),
        complete_spec(u128_spec(s)) matches Err(e) && e.code == ErrorKind::Digit,
{
    lemma_unsigned_too_long(s, u128::MAX as nat);
}

/// Every `i8` is decoded from its own text, all of which is consumed.
pub proof fn law_i8_round_trip(v: i8)
    ensures
        i8_spec(integer_text(v as int)) == decoded(Seq::<char>::empty(), v),
        complete_spec(i8_spec(integer_text(v as int))) == Ok::<i8, Error<Seq<char>>>(v),
{
    lemma_signed_round_trip(v as int, i8::MIN as int, i8::MAX as int);
}

/// A numeral, with or without a sign, whose digits are one more than those
/// of `i8::MAX` is refused as an `i8`, with an error of kind `Digit`, unless
/// zeros at the head of its digits make it a number that fits.
pub proof fn law_i8_too_long(s: Seq<char>, digits: Seq<char>)
    requires
        s == digits || s == seq!['-'] + digits || s == seq!['+'] + digits,
        all_digits(digits),
        digits.len() == decimal(i8::MAX as nat).len() + 1,
        digits[0] != '0' || numeral_value(s) < i8::MIN || numeral_value(s) > i8::MAX,
    ensures
        i8_spec(s) == refused::<Seq<char>, i8>(s, ErrorKind::Digit),
        complete_spec(i8_spec(s)) matches Err(e) && e.code == ErrorKind::Digit,
{
    lemma_signed_too_long(s, digits, i8::MAX as nat);
}

/// Every `i16` is decoded from its own text, all of which is consumed.
pub proof fn law_i16_round_trip(v: i16)
    ensures
        i16_spec(integer_text(v as int)) == decoded(Seq::<char>::empty(), v),
        complete_spec(i16_spec(integer_text(v as int))) == Ok::<i16, Error<Seq<char>>>(v),
{
    lemma_signed_round_trip(v as int, i16::MIN as int, i16::MAX as int);
}

/// A numeral, with or without a sign, whose digits are one more than those
/// of `i16::MAX` is refused as an `i16`, with an error of kind `Digit`, unless
/// zeros at the head of its digits make it a number that fits.
pub proof fn law_i16_too_long(s: Seq<char>, digits: Seq<char>)
    requires
        s == digits || s == seq!['-'] + digits || s == seq!['+'] + digits,
        all_digits(digits),
        digits.len() == decimal(i16::MAX as nat).len() + 1,
        digits[0] != '0' || numeral_value(s) < i16::MIN || numeral_value(s) > i16::MAX,
    ensures
        i16_spec(s) == refused::<Seq<char>, i16>(s, ErrorKind::Digit),
        complete_spec(i16_spec(s)) matches Err(e) && e.code == ErrorKind::Digit,
{
    lemma_signed_too_long(s, digits, i16::MAX as nat);
}

/// Every `i32` is decoded from its own text, all of which is consumed.
pub proof fn law_i32_round_trip(v: i32)
    ensures
        i32_spec(integer_text(v as int)) == decoded(Seq::<char>::empty(), v),
        complete_spec(i32_spec(integer_text(v as int))) == Ok::<i32, Error<Seq<char>>>(v),
{
    lemma_signed_round_trip(v as int, i32::MIN as int, i32::MAX as int);
}

/// A numeral, with or without a sign, whose digits are one more than those
/// of `i32::MAX` is refused as an `i32`, with an error of kind `Digit`, unless
/// zeros at the head of its digits make it a number that fits.
pub proof fn law_i32_too_long(s: Seq<char>, digits: Seq<char>)
    requires
        s == digits || s == seq!['-'] + digits || s == seq!['+'] + digits,
        all_digits(digits),
        digits.len() == decimal(i32::MAX as nat).len() + 1,
        digits[0] != '0' || numeral_value(s) < i32::MIN || numeral_value(s) > i32::MAX,
    ensures
        i32_spec(s) == refused::<Seq<char>, i32>(s, ErrorKind::Digit),
        complete_spec(i32_spec(s)) matches Err(e) && e.code == ErrorKind::Digit,
{
    lemma_signed_too_long(s, digits, i32::MAX as nat);
}

/// Every `i64` is decoded from its own text, all of which is consumed.
pub proof fn law_i64_round_trip(v: i64)
    ensures
        i64_spec(integer_text(v as int)) == decoded(Seq::<char>::empty(), v),
        complete_spec(i64_spec(integer_text(v as int))) == Ok::<i64, Error<Seq<char>>>(v),
{
    lemma_signed_round_trip(v as int, i64::MIN as int, i64::MAX as int);
}

/// A numeral, with or without a sign, whose digits are one more than those
/// of `i64::MAX` is refused as an `i64`, with an error of kind `Digit`, unless
/// zeros at the head of its digits make it a number that fits.
pub proof fn law_i64_too_long(s: Seq<char>, digits: Seq<char>)
    requires
        s == digits || s == seq!['-'] + digits || s == seq!['+'] + digits,
        all_digits(digits),
        digits.len() == decimal(i64::MAX as nat).len() + 1,
        digits[0] != '0' || numeral_value(s) < i64::MIN || numeral_value(s) > i64::MAX,
    ensures
        i64_spec(s) == refused::<Seq<char>, i64>(s, ErrorKind::Digit),
        complete_spec(i64_spec(s)) matches Err(e) && e.code == ErrorKind::Digit,
{
    lemma_signed_too_long(s, digits, i64::MAX as nat);
}

/// Every `i128` is decoded from its own text, all of which is consumed.
pub proof fn law_i128_round_trip(v: i128)
    ensures
        i128_spec(integer_text(v as int)) == decoded(Seq::<char>::empty(), v),
        complete_spec(i128_spec(integer_text(v as int))) == Ok::<i128, Error<Seq<char>>>(v),
{
    lemma_signed_round_trip(v as int, i128::MIN as int, i128::MAX as int);
}

/// A numeral, with or without a sign, whose digits are one more than those
/// of `i128::MAX` is refused as an `i128`, with an error of kind `Digit`, unless
/// zeros at the head of its digits make it a number that fits.
pub proof fn law_i128_too_long(s: Seq<char>, digits: Seq<char>)
    requires
        s == digits || s == seq!['-'] + digits || s == seq!['+'] + digits,
        all_digits(digits),
        digits.len() == decimal(i128::MAX as nat).len() + 1,
        digits[0] != '0' || numeral_value(s) < i128::MIN || numeral_value(s) > i128::MAX,
    ensures
        i128_spec(s) == refused::<Seq<char>, i128>(s, ErrorKind::Digit),
        complete_spec(i128_spec(s)) matches Err(e) && e.code == ErrorKind::Digit,
{
    lemma_signed_too_long(s, digits, i128::MAX as nat);
}

} // verus!
