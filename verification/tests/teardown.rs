use nom_parse_trait::{DeepView, ErrMode, Error, ErrorKind, IResult, ParseFrom, ParseFromExt};
use std::sync::atomic::{AtomicUsize, Ordering};
use std::sync::{Mutex, MutexGuard};

static MADE: AtomicUsize = AtomicUsize::new(0);
static DROPPED: AtomicUsize = AtomicUsize::new(0);
static ONE_AT_A_TIME: Mutex<()> = Mutex::new(());

fn reset() -> MutexGuard<'static, ()> {
    let guard = match ONE_AT_A_TIME.lock() {
        Ok(guard) => guard,
        Err(poisoned) => poisoned.into_inner(),
    };
    MADE.store(0, Ordering::SeqCst);
    DROPPED.store(0, Ordering::SeqCst);
    guard
}

fn made() -> usize {
    MADE.load(Ordering::SeqCst)
}

fn dropped() -> usize {
    DROPPED.load(Ordering::SeqCst)
}

#[derive(Debug, PartialEq)]
struct Counted(u32);

impl Drop for Counted {
    fn drop(&mut self) {
        DROPPED.fetch_add(1, Ordering::SeqCst);
    }
}

impl DeepView for Counted {
    type V = u32;

    fn deep_view(&self) -> u32 {
        self.0
    }
}

impl<'a> ParseFrom<&'a str> for Counted {
    fn parse(input: &'a str) -> IResult<&'a str, Self> {
        match u32::parse(input) {
            Ok((rest, value)) => {
                MADE.fetch_add(1, Ordering::SeqCst);
                Ok((rest, Counted(value)))
            }
            Err(e) => Err(e),
        }
    }
}

#[test]
fn failed_array_drops_what_it_made_and_no_more() {
    let _guard = reset();
    let r = <[Counted; 5]>::parse_complete("1, 2, x, 4, 5");
    assert_eq!(Err(Error::new("x, 4, 5", ErrorKind::Digit)), r);
    assert_eq!(made(), 2);
    assert_eq!(dropped(), 2);
}

#[test]
fn failed_separator_drops_what_was_made() {
    let _guard = reset();
    let r = <[Counted; 4]>::parse("1, 2, 3 4");
    assert_eq!(Err(ErrMode::Error(Error::new("4", ErrorKind::Tag))), r);
    assert_eq!(made(), 3);
    assert_eq!(dropped(), 3);
}

#[test]
fn failed_first_element_drops_nothing() {
    let _guard = reset();
    let r = <[Counted; 3]>::parse("x");
    assert_eq!(Err(ErrMode::Error(Error::new("x", ErrorKind::Digit))), r);
    assert_eq!(made(), 0);
    assert_eq!(dropped(), 0);
}

#[test]
fn decoded_array_owns_its_elements() {
    let _guard = reset();
    {
        let r = <[Counted; 5]>::parse_complete("1, 2, 3, 4, 5");
        assert_eq!(made(), 5);
        assert_eq!(dropped(), 0);
        assert_eq!(
            Ok([Counted(1), Counted(2), Counted(3), Counted(4), Counted(5)]),
            r
        );
        assert_eq!(dropped(), 5);
    }
    assert_eq!(made(), 5);
    assert_eq!(dropped(), 10);
}

#[test]
fn left_over_input_drops_the_decoded_array() {
    let _guard = reset();
    let r = <[Counted; 2]>::parse_complete("1, 2, 3");
    assert_eq!(Err(Error::new(", 3", ErrorKind::Eof)), r);
    assert_eq!(made(), 2);
    assert_eq!(dropped(), 2);
}

#[test]
fn list_of_counted_elements() {
    let _guard = reset();
    {
        let r = Vec::<Counted>::parse("1\n2\nx");
        assert_eq!(made(), 2);
        assert_eq!(dropped(), 0);
        assert!(matches!(r, Ok(("\nx", _))));
    }
    assert_eq!(dropped(), 2);
}
