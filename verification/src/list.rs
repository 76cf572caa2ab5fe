//! The decoding rule of `Vec`: the elements of a list, one on each line.

use crate::error::{ErrMode, IResult};
use crate::input::Input;
use crate::lexeme::{after_line_ending, is_suffix, lemma_suffix_refl, lemma_suffix_trans};
use crate::parse::ParseFrom;
use vstd::prelude::*;

verus! {

/// What decoding a list returns on `input`: the elements that the rule of
/// `T` decodes one after another, each but the first after a line ending.
///
/// The list may be empty: where no first element can be decoded, nothing is
/// consumed. It ends before the first line ending that no element follows,
/// or where no line ending follows an element; the result is then what is
/// left there. An error of an element that is a failure is the error of the
/// list.
pub open spec fn list_spec<I: Input, T: ParseFrom<I>>(input: Seq<char>) -> IResult<
    Seq<char>,
    Seq<T::V>,
> {
    match T::parse_spec(input) {
        Ok((rest, first)) => list_tail_spec::<I, T>(rest, seq![first]),
        Err(ErrMode::Error(_)) => Ok((input, Seq::empty())),
        Err(ErrMode::Failure(e)) => Err(ErrMode::Failure(e)),
    }
}

/// What decoding a list returns once the elements `items` are decoded and
/// `input` is left: see `list_spec`.
///
/// An element is decoded from what follows a line ending and leaves a suffix
/// of it, so that less is left after each element; the test on the lengths
/// serves to show that this definition ends.
pub open spec fn list_tail_spec<I: Input, T: ParseFrom<I>>(
    input: Seq<char>,
    items: Seq<T::V>,
) -> IResult<Seq<char>, Seq<T::V>>
    decreases input.len(),
{
    match after_line_ending(input) {
        None => Ok((input, items)),
        Some(line) => match T::parse_spec(line) {
            Ok((rest, item)) => if rest.len() < input.len() {
                list_tail_spec::<I, T>(rest, items.push(item))
            } else {
                Ok((input, items))
            },
            Err(ErrMode::Error(_)) => Ok((input, items)),
            Err(ErrMode::Failure(e)) => Err(ErrMode::Failure(e)),
        },
    }
}

/// A list is never refused: an element that is refused ends the list, which
/// is then what was decoded before it. A list fails only where an element
/// fails with an error that is no recoverable one.
pub proof fn law_list_is_never_refused<I: Input, T: ParseFrom<I>>(input: Seq<char>)
    ensures
        !(list_spec::<I, T>(input) matches Err(ErrMode::Error(_))),
{
    if let Ok((rest, first)) = T::parse_spec(input) {
        lemma_list_tail_is_never_refused::<I, T>(rest, seq![first]);
    }
}

/// See `law_list_is_never_refused`.
pub proof fn lemma_list_tail_is_never_refused<I: Input, T: ParseFrom<I>>(
    input: Seq<char>,
    items: Seq<T::V>,
)
    ensures
        !(list_tail_spec::<I, T>(input, items) matches Err(ErrMode::Error(_))),
    decreases input.len(),
{
    if let Some(line) = after_line_ending(input) {
        if let Ok((rest, item)) = T::parse_spec(line) {
            if rest.len() < input.len() {
                lemma_list_tail_is_never_refused::<I, T>(rest, items.push(item));
            }
        }
    }
}

/// The deep view of a vector after a push is that before it, with the deep
/// view of what was pushed at its end.
pub proof fn lemma_push_deep_view<T: DeepView>(before: Vec<T>, after: Vec<T>, item: T)
    requires
        after@ == before@.push(item),
    ensures
        after.deep_view() == before.deep_view().push(item.deep_view()),
{
    assert(after.deep_view() =~= before.deep_view().push(item.deep_view()));
}

impl<I: Input, T: ParseFrom<I>> ParseFrom<I> for Vec<T> {
    open spec fn obeys_parse_spec() -> bool {
        T::obeys_parse_spec()
    }

    open spec fn parse_spec(input: Seq<char>) -> IResult<Seq<char>, Seq<T::V>> {
        list_spec::<I, T>(input)
    }

    fn parse(input: I) -> (r: IResult<I, Vec<T>>) {
        let mut items: Vec<T> = Vec::new();
        let mut cur: I = input;
        proof {
            lemma_suffix_refl(input.elems());
        }
        match T::parse(input) {
            Ok((rest, first)) => {
                let ghost before = items;
                let ghost pushed = first;
                items.push(first);
                cur = rest;
                proof {
                    lemma_push_deep_view(before, items, pushed);
                    assert(items.deep_view() =~= seq![pushed.deep_view()]);
                }
            },
            Err(ErrMode::Error(_)) => {
                assert(items.deep_view() =~= Seq::<T::V>::empty());
                return Ok((input, items));
            },
            Err(ErrMode::Failure(e)) => {
                return Err(ErrMode::Failure(e));
            },
        }
        loop
            invariant
                is_suffix(cur.elems(), input.elems()),
                T::obeys_parse_spec() ==> list_spec::<I, T>(input.elems()) == list_tail_spec::<
                    I,
                    T,
                >(cur.elems(), items.deep_view()),
            decreases cur.elems().len(),
        {
            let line = match cur.line_ending() {
                Some(line) => line,
                None => {
                    return Ok((cur, items));
                },
            };
            match T::parse(line) {
                Ok((rest, item)) => {
                    let ghost before = items;
                    let ghost pushed = item;
                    proof {
                        lemma_suffix_trans(rest.elems(), line.elems(), cur.elems());
                        lemma_suffix_trans(rest.elems(), cur.elems(), input.elems());
                    }
                    items.push(item);
                    cur = rest;
                    proof {
                        lemma_push_deep_view(before, items, pushed);
                    }
                },
                Err(ErrMode::Error(_)) => {
                    return Ok((cur, items));
                },
                Err(ErrMode::Failure(e)) => {
                    return Err(ErrMode::Failure(e));
                },
            }
        }
    }
}

} // verus!
