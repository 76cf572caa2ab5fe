//! The decoding rule of an array `[T; N]`: exactly `N` elements, separated by
//! commas.

use crate::error::{decoded, IResult};
use crate::input::Input;
use crate::lexeme::{is_suffix, lemma_suffix_refl, lemma_suffix_trans};
use crate::list::lemma_push_deep_view;
use crate::parse::ParseFrom;
use crate::sequence::{after_separator, separator};
use vstd::pervasive::unreached;
use vstd::prelude::*;

verus! {

/// The literal `,`.
pub open spec fn comma_literal() -> Seq<char> {
    seq![',']
}

/// What decoding the first `n` elements of an array returns on `input`.
///
/// Nothing is consumed for no element. The first element is decoded by the
/// rule of `T` from the head of `input`; each further one follows a comma,
/// which may have spaces and tabs before and after it. The first error, of a
/// separator or of an element, is the error of the whole, as it stands.
pub open spec fn array_spec<I: Input, T: ParseFrom<I>>(input: Seq<char>, n: nat) -> IResult<
    Seq<char>,
    Seq<T::V>,
>
    decreases n,
{
    if n == 0 {
        Ok((input, Seq::empty()))
    } else {
        match array_spec::<I, T>(input, (n - 1) as nat) {
            Err(e) => Err(e),
            Ok((after_items, items)) => {
                let separated = if n == 1 {
                    Ok(after_items)
                } else {
                    after_separator(after_items, comma_literal())
                };
                match separated {
                    Err(e) => Err(e),
                    Ok(at) => match T::parse_spec(at) {
                        Err(e) => Err(e),
                        Ok((rest, item)) => Ok((rest, items.push(item))),
                    },
                }
            },
        }
    }
}

/// Where the first `n` elements are decoded, there are `n` of them.
pub proof fn law_array_len<I: Input, T: ParseFrom<I>>(input: Seq<char>, n: nat)
    ensures
        array_spec::<I, T>(input, n) matches Ok((_, items)) ==> items.len() == n,
    decreases n,
{
    if n > 0 {
        law_array_len::<I, T>(input, (n - 1) as nat);
    }
}

/// An error among the first `n` elements is the error of any longer array.
pub proof fn lemma_array_error<I: Input, T: ParseFrom<I>>(input: Seq<char>, n: nat, m: nat)
    requires
        n <= m,
        array_spec::<I, T>(input, n) is Err,
    ensures
        array_spec::<I, T>(input, m) == array_spec::<I, T>(input, n),
    decreases m,
{
    if n < m {
        lemma_array_error::<I, T>(input, n, (m - 1) as nat);
    }
}

/// `<[T; N] as TryFrom<Vec<T>>>::try_from` of the standard library. It gives
/// the elements of the vector as an array, in their order, where there are
/// exactly `N` of them, and no array otherwise.
#[verifier::external_body]
fn vec_into_array<T, const N: usize>(items: Vec<T>) -> (r: Option<[T; N]>)
    ensures
        r is Some <==> items@.len() == N,
        r matches Some(array) ==> array@ == items@,
{
    <[T; N]>::try_from(items).ok()
}

impl<I: Input, T: ParseFrom<I>, const N: usize> ParseFrom<I> for [T; N] {
    open spec fn obeys_parse_spec() -> bool {
        T::obeys_parse_spec()
    }

    open spec fn parse_spec(input: Seq<char>) -> IResult<Seq<char>, Seq<T::V>> {
        array_spec::<I, T>(input, N as nat)
    }

    /// The elements are gathered in a vector, which becomes the array once
    /// all `N` are there. Where a separator or an element fails, the vector is
    /// dropped with the elements decoded so far, and no others.
    fn parse(input: I) -> (r: IResult<I, [T; N]>) {
        let mut items: Vec<T> = Vec::new();
        let mut cur: I = input;
        let mut filled: usize = 0;
        proof {
            lemma_suffix_refl(input.elems());
            assert(items.deep_view() =~= Seq::<T::V>::empty());
        }
        while filled < N
            invariant
                filled <= N,
                items@.len() == filled,
                is_suffix(cur.elems(), input.elems()),
                T::obeys_parse_spec() ==> array_spec::<I, T>(input.elems(), filled as nat)
                    == decoded(cur.elems(), items.deep_view()),
            decreases N - filled,
        {
            let at: I = if filled == 0 {
                cur
            } else {
                proof {
                    reveal_strlit(",");
                    assert(","@ =~= comma_literal());
                }
                match separator(cur, ",") {
                    Ok(rest) => rest,
                    Err(e) => {
                        proof {
                            if T::obeys_parse_spec() {
                                lemma_array_error::<I, T>(
                                    input.elems(),
                                    (filled + 1) as nat,
                                    N as nat,
                                );
                            }
                        }
                        return Err(e);
                    },
                }
            };
            match T::parse(at) {
                Ok((rest, item)) => {
                    let ghost before = items;
                    let ghost pushed = item;
                    proof {
                        lemma_suffix_refl(cur.elems());
                        lemma_suffix_trans(at.elems(), cur.elems(), input.elems());
                        lemma_suffix_trans(rest.elems(), at.elems(), input.elems());
                    }
                    items.push(item);
                    cur = rest;
                    proof {
                        lemma_push_deep_view(before, items, pushed);
                    }
                },
                Err(e) => {
                    proof {
                        if T::obeys_parse_spec() {
                            lemma_array_error::<I, T>(
                                input.elems(),
                                (filled + 1) as nat,
                                N as nat,
                            );
                        }
                    }
                    return Err(e);
                },
            }
            filled += 1;
        }
        match vec_into_array::<T, N>(items) {
            Some(array) => {
                proof {
                    assert(array.deep_view() =~= items.deep_view());
                }
                Ok((cur, array))
            },
            None => unreached(),
        }
    }
}

} // verus!
