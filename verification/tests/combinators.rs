use combinators::adapt::{MapErr, MapErrWithSpan, MapErrWithState, OrElse};
use combinators::choice::{AndIs, Not, Or, OrNot, RecoverWith, Rewind};
use combinators::error::{Located, Simple};
use combinators::exact::{RepeatedExactly, SeparatedByExactly};
use combinators::fold::{Foldl, Foldr};
use combinators::input::{InputRef, Span};
use combinators::mode::{Check, Emit, Mode};
use combinators::parser::{parse, parse_with_state, Parser};
use combinators::primitive::{any, end, just, Any, Just, Lazy};
use combinators::repeat::{Repeated, SeparatedBy};
use combinators::sequence::{DelimitedBy, IgnoreThen, PaddedBy, Then, ThenIgnore, ThenWith};
use std::rc::Rc;
use combinators::transform::{
    Filter, Ignored, MapSlice, MapWithSpan, MapWithState, Mapped, To, ToSlice, TryMap,
    TryMapWithState,
};

type In = &'static [char];
type Failure = Simple<char>;

fn chars(s: &str) -> In {
    Box::leak(s.chars().collect::<Vec<char>>().into_boxed_slice())
}

fn start<S>(s: &str, state: S) -> InputRef<In, Failure, S>
where
    S: combinators::model::Modeled,
{
    InputRef::new(chars(s), state)
}

type Pair = Then<Just<char>, Just<char>, char, char, Failure, ()>;

fn pair(first: char, second: char) -> Pair {
    Then::new(just(first), just(second))
}

fn span(start: usize, end: usize) -> Span {
    Span { start, end }
}

fn unexpected(
    at: usize,
    expected: Vec<Option<char>>,
    found: Option<char>,
    end: usize,
) -> Located<Failure> {
    Located { pos: at, err: Simple { span: span(at, end), expected, found } }
}

fn same_error(a: &Located<Failure>, b: &Located<Failure>) -> bool {
    a.pos == b.pos && a.err == b.err
}

/// Runs `p` on `s` for its output: the output or the error, and the offset
/// at which the run stopped.
fn run<O, P: Parser<In, O, Failure, ()>>(p: &P, s: &str) -> (Result<O, Located<Failure>>, usize)
where
    O: combinators::model::Modeled,
{
    let mut inp = start(s, ());
    let r = p.go::<Emit>(&mut inp);
    (r.map(|o| o.unwrap()), inp.save())
}

fn digit() -> Filter<Any, char, fn(&char) -> bool> {
    Filter::new(any(), (|c: &char| c.is_ascii_digit()) as fn(&char) -> bool)
}

#[test]
fn any_reads_one_token() {
    let (r, at) = run(&any(), "ab");
    assert_eq!(r.ok(), Some('a'));
    assert_eq!(at, 1);
}

#[test]
fn any_fails_at_the_end() {
    let (r, at) = run(&any(), "");
    assert!(same_error(&r.unwrap_err(), &unexpected(0, vec![], None, 0)));
    assert_eq!(at, 0);
}

#[test]
fn just_accepts_its_token_only() {
    let (r, at) = run(&just('a'), "ab");
    assert_eq!(r.ok(), Some('a'));
    assert_eq!(at, 1);

    let (r, at) = run(&just('a'), "ba");
    assert!(same_error(&r.unwrap_err(), &unexpected(0, vec![Some('a')], Some('b'), 1)));
    assert_eq!(at, 1);

    let (r, at) = run(&just('a'), "");
    assert!(same_error(&r.unwrap_err(), &unexpected(0, vec![Some('a')], None, 0)));
    assert_eq!(at, 0);
}

#[test]
fn end_accepts_the_end_only() {
    let (r, at) = run(&end(), "");
    assert_eq!(r.ok(), Some(()));
    assert_eq!(at, 0);

    let (r, at) = run(&end(), "x");
    assert!(same_error(&r.unwrap_err(), &unexpected(0, vec![None], Some('x'), 1)));
    assert_eq!(at, 1);
}

#[test]
fn lazy_drops_what_follows() {
    let p = Lazy::new(just('a'));
    let (r, at) = run(&p, "abcd");
    assert_eq!(r.ok(), Some('a'));
    assert_eq!(at, 4);
    let whole: (Option<char>, Vec<Failure>) = parse(&p, chars("abcd"));
    assert_eq!(whole.0, Some('a'));
    let whole: (Option<char>, Vec<Failure>) = parse(&just('a'), chars("abcd"));
    assert_eq!(whole.0, None);
}

#[test]
fn parse_wants_all_of_the_input() {
    let (out, errs): (Option<char>, Vec<Failure>) = parse(&just('a'), chars("a"));
    assert_eq!(out, Some('a'));
    assert!(errs.is_empty());

    let (out, errs): (Option<char>, Vec<Failure>) = parse(&just('a'), chars("ab"));
    assert_eq!(out, None);
    assert_eq!(errs, vec![Simple { span: span(1, 2), expected: vec![None], found: Some('b') }]);

    let (out, errs): (Option<char>, Vec<Failure>) = parse(&just('a'), chars("b"));
    assert_eq!(out, None);
    let expected = Simple { span: span(0, 1), expected: vec![Some('a')], found: Some('b') };
    assert_eq!(errs, vec![expected]);
}

#[test]
fn modes_move_alike() {
    let list: SeparatedBy<Just<char>, Just<char>, char, char, In, Vec<char>, Failure, ()> =
        SeparatedBy::new(just('-'), just(',')).at_least(2).collect();
    for text in ["-,-,-", "-", "", "-,-,", ",-", "-,x"] {
        let mut checked = start(text, ());
        let mut emitted = start(text, ());
        let c = list.go::<Check>(&mut checked);
        let e = list.go::<Emit>(&mut emitted);
        assert_eq!(checked.save(), emitted.save());
        assert_eq!(c.is_ok(), e.is_ok());
        match (c, e) {
            (Ok(c), Ok(e)) => {
                assert!(c.is_none());
                assert!(e.is_some());
            }
            (Err(c), Err(e)) => assert!(same_error(&c, &e)),
            _ => unreachable!(),
        }
    }
}

#[test]
fn mode_functions() {
    assert_eq!(Emit::bind(|| 3), Some(3));
    assert_eq!(Check::bind(|| 3), None);
    assert_eq!(Emit::map(Some(3), |x: i32| x + 1), Some(4));
    assert_eq!(Check::map(None, |x: i32| x + 1), None);
    assert_eq!(Emit::combine(Some(3), Some(4), |x: i32, y: i32| x * y), Some(12));
    assert_eq!(Check::combine(None, None, |x: i32, y: i32| x * y), None);
}

#[test]
fn rewind_then_run_again() {
    let p = pair('a', 'b');
    for text in ["ab", "ax", "", "abab"] {
        let mut inp = start(text, ());
        let checkpoint = inp.save();
        let first = p.go::<Emit>(&mut inp);
        let stopped = inp.save();
        inp.rewind(checkpoint);
        assert_eq!(inp.save(), checkpoint);
        let second = p.go::<Emit>(&mut inp);
        assert_eq!(inp.save(), stopped);
        match (first, second) {
            (Ok(a), Ok(b)) => assert_eq!(a, b),
            (Err(a), Err(b)) => assert!(same_error(&a, &b)),
            _ => unreachable!(),
        }
    }
}

#[test]
fn rewind_then_recover_again() {
    let p: RecoverWith<Just<char>, Just<char>> = RecoverWith::new(just('a'), just('b'));
    let mut inp = start("b", ());
    let checkpoint = inp.save();
    assert_eq!(p.go::<Emit>(&mut inp).ok(), Some(Some('b')));
    let stopped = inp.save();
    inp.rewind(checkpoint);
    assert_eq!(p.go::<Emit>(&mut inp).ok(), Some(Some('b')));
    assert_eq!(inp.save(), stopped);
    let ((), errors) = inp.finish();
    let expected = Simple { span: span(0, 1), expected: vec![Some('a')], found: Some('b') };
    assert_eq!(errors, vec![expected.clone(), expected]);
}

#[test]
fn rewind_keeps_the_state() {
    let bump = MapWithState::new(just('a'), |c: char, _: Span, n: &u32| (c, *n + 1));
    let mut inp: InputRef<In, Failure, u32> = start("a", 0);
    let checkpoint = inp.save();
    assert!(bump.go::<Emit>(&mut inp).is_ok());
    inp.rewind(checkpoint);
    assert_eq!(inp.save(), 0);
    let (state, _) = inp.finish();
    assert_eq!(state, 1);
}

#[test]
fn input_ref_reads_and_spans() {
    let mut inp = start("ab", ());
    assert_eq!(inp.save(), 0);
    assert_eq!(inp.next(), (0, Some('a')));
    assert_eq!(inp.last_pos(), 1);
    assert_eq!(inp.span_since(0), span(0, 1));
    assert_eq!(inp.next(), (1, Some('b')));
    assert_eq!(inp.next(), (2, None));
    assert_eq!(inp.save(), 2);
    assert_eq!(inp.slice(0, 2), &['a', 'b'][..]);
    assert_eq!(inp.slice(1, 1), &[][..]);
    assert_eq!(inp.slice_from(1), &['b'][..]);
    assert_eq!(inp.slice_from(2), &[][..]);
    assert_eq!(inp.full_slice(), &['a', 'b'][..]);
    inp.emit(Simple { span: span(0, 0), expected: vec![], found: None });
    let ((), errors) = inp.finish();
    assert_eq!(errors.len(), 1);
}

#[test]
fn input_ref_state() {
    let mut inp: InputRef<In, Failure, u32> = start("", 7);
    assert_eq!(*inp.state_ref(), 7);
    *inp.state() += 1;
    assert_eq!(*inp.state_ref(), 8);
    let (state, _) = inp.finish();
    assert_eq!(state, 8);
}

#[test]
fn prioritize_prefers_the_further_error() {
    let near = unexpected(1, vec![Some('a')], Some('x'), 2);
    let far = unexpected(3, vec![Some('b')], Some('y'), 4);
    let r = copy(&near).prioritize::<In>(copy(&far));
    assert!(same_error(&r, &far));
    let r = copy(&far).prioritize::<In>(copy(&near));
    assert!(same_error(&r, &far));
}

#[test]
fn prioritize_merges_errors_at_one_offset() {
    let a = unexpected(1, vec![Some('a')], Some('x'), 2);
    let b = unexpected(1, vec![Some('b')], Some('x'), 2);
    let r = a.prioritize::<In>(b);
    assert!(same_error(&r, &unexpected(1, vec![Some('a'), Some('b')], Some('x'), 2)));
}

fn copy(e: &Located<Failure>) -> Located<Failure> {
    Located { pos: e.pos, err: e.err.clone() }
}

#[test]
fn map_changes_the_output() {
    let p = Mapped::new(just('a'), |c: char| c.to_ascii_uppercase());
    let (r, at) = run(&p, "a");
    assert_eq!(r.ok(), Some('A'));
    assert_eq!(at, 1);
    let (r, _) = run(&p, "b");
    assert!(r.is_err());
}

#[test]
fn map_with_span_gets_the_span() {
    let two = pair('a', 'b');
    let three: Then<Pair, Just<char>, (char, char), char, Failure, ()> = Then::new(two, just('c'));
    let p = MapWithSpan::new(three, |_: ((char, char), char), s: Span| s);
    let (r, at) = run(&p, "abc");
    assert_eq!(r.ok(), Some(span(0, 3)));
    assert_eq!(at, 3);
}

#[test]
fn map_with_state_threads_the_state() {
    let p = MapWithState::new(just('a'), |c: char, s: Span, n: &u32| ((c, s.end), *n + 10));
    let (out, errs, state): (Option<(char, usize)>, Vec<Failure>, u32) =
        parse_with_state(&p, chars("a"), 5);
    assert_eq!(out, Some(('a', 1)));
    assert!(errs.is_empty());
    assert_eq!(state, 15);
}

#[test]
fn map_with_state_leaves_the_state_when_checking() {
    let p = MapWithState::new(just('a'), |c: char, _: Span, n: &u32| (c, *n + 1));
    let mut inp: InputRef<In, Failure, u32> = start("a", 0);
    assert_eq!(p.go::<Check>(&mut inp).ok(), Some(None));
    assert_eq!(inp.save(), 1);
    assert_eq!(inp.finish().0, 0);

    let mut inp: InputRef<In, Failure, u32> = start("a", 0);
    assert_eq!(p.go::<Emit>(&mut inp).ok(), Some(Some('a')));
    assert_eq!(inp.save(), 1);
    assert_eq!(inp.finish().0, 1);
}

#[test]
fn modes_part_ways_over_the_state() {
    let count = MapWithState::new(any(), |c: char, _: Span, n: &u32| (c, *n + 1));
    let once = TryMapWithState::new(any(), |c: char, s: Span, n: &u32| {
        if *n == 0 {
            (Ok(c), *n)
        } else {
            (Err(Simple { span: s, expected: vec![], found: Some(c) }), *n)
        }
    });
    let p: Then<_, _, char, char, Failure, u32> = Then::new(count, once);
    let mut inp: InputRef<In, Failure, u32> = start("ab", 0);
    assert!(p.go::<Check>(&mut inp).is_ok());
    let mut inp: InputRef<In, Failure, u32> = start("ab", 0);
    assert!(p.go::<Emit>(&mut inp).is_err());
}

#[test]
fn try_map_places_its_error_after_what_was_read() {
    let p = TryMap::new(any(), |c: char, s: Span| {
        if c == 'a' {
            Ok(1u32)
        } else {
            Err(Simple { span: s, expected: vec![Some('a')], found: Some(c) })
        }
    });
    let (r, at) = run(&p, "a");
    assert_eq!(r.ok(), Some(1));
    assert_eq!(at, 1);
    let (r, at) = run(&p, "b");
    let e = r.unwrap_err();
    assert_eq!(e.pos, 1);
    assert_eq!(e.err, Simple { span: span(0, 1), expected: vec![Some('a')], found: Some('b') });
    assert_eq!(at, 1);
}

#[test]
fn try_map_with_state_keeps_the_state_of_a_rejection() {
    let p = TryMapWithState::new(any(), |c: char, s: Span, n: &u32| {
        if c == 'a' {
            (Ok(c), *n + 1)
        } else {
            (Err(Simple { span: s, expected: vec![], found: Some(c) }), *n + 100)
        }
    });
    let (out, _, state): (Option<char>, Vec<Failure>, u32) = parse_with_state(&p, chars("a"), 0);
    assert_eq!((out, state), (Some('a'), 1));
    let (out, errs, state): (Option<char>, Vec<Failure>, u32) = parse_with_state(&p, chars("b"), 0);
    assert_eq!((out, state), (None, 100));
    assert_eq!(errs, vec![Simple { span: span(0, 1), expected: vec![], found: Some('b') }]);
}

#[test]
fn filter_places_its_error_where_it_started() {
    let two: Then<Any, Any, char, char, Failure, ()> = Then::new(any(), any());
    let p = Filter::new(two, |pair: &(char, char)| pair.0 == pair.1);
    let (r, at) = run(&p, "aa");
    assert_eq!(r.ok(), Some(('a', 'a')));
    assert_eq!(at, 2);
    let (r, at) = run(&p, "ab");
    assert!(same_error(&r.unwrap_err(), &unexpected(0, vec![], None, 2)));
    assert_eq!(at, 2);
}

#[test]
fn to_gives_its_value() {
    let p: To<Just<char>, char, u8, Failure, ()> = To::new(just('a'), 9);
    let (r, at) = run(&p, "a");
    assert_eq!(r.ok(), Some(9));
    assert_eq!(at, 1);
    let ignored: Ignored<Just<char>, char, Failure, ()> = Ignored::new(just('a'), ());
    assert_eq!(run(&ignored, "a").0.ok(), Some(()));
    assert!(run(&ignored, "b").0.is_err());
}

#[test]
fn slices_hold_what_was_read() {
    let two = pair('a', 'b');
    let p: ToSlice<_, (char, char)> = ToSlice::new(two);
    let (r, at) = run(&p, "abc");
    assert_eq!(r.ok(), Some(&['a', 'b'][..]));
    assert_eq!(at, 2);

    let two = pair('a', 'b');
    let p: MapSlice<_, _, In, usize, Failure, ()> =
        MapSlice::new(Mapped::new(two, |_: (char, char)| 0usize), |s: In| s.len());
    let (r, at) = run(&p, "abc");
    assert_eq!(r.ok(), Some(2));
    assert_eq!(at, 2);
}

#[test]
fn then_runs_one_after_the_other() {
    let p = pair('a', 'b');
    let (r, at) = run(&p, "ab");
    assert_eq!(r.ok(), Some(('a', 'b')));
    assert_eq!(at, 2);
    let (r, at) = run(&p, "xb");
    assert!(same_error(&r.unwrap_err(), &unexpected(0, vec![Some('a')], Some('x'), 1)));
    assert_eq!(at, 1);
    let (r, at) = run(&p, "ax");
    assert!(same_error(&r.unwrap_err(), &unexpected(1, vec![Some('b')], Some('x'), 2)));
    assert_eq!(at, 2);
}

#[test]
fn ignore_then_and_then_ignore() {
    let p: IgnoreThen<Just<char>, Just<char>, char, Failure, ()> =
        IgnoreThen::new(just('a'), just('b'));
    let (r, at) = run(&p, "ab");
    assert_eq!(r.ok(), Some('b'));
    assert_eq!(at, 2);
    assert!(run(&p, "bb").0.is_err());

    let p: ThenIgnore<Just<char>, Just<char>, char, Failure, ()> =
        ThenIgnore::new(just('a'), just('b'));
    let (r, at) = run(&p, "ab");
    assert_eq!(r.ok(), Some('a'));
    assert_eq!(at, 2);
    let (r, at) = run(&p, "aa");
    assert!(r.is_err());
    assert_eq!(at, 2);
}

#[test]
fn delimited_and_padded() {
    let p: DelimitedBy<Just<char>, Just<char>, Just<char>, char, char> =
        DelimitedBy::new(just('x'), just('('), just(')'));
    let (r, at) = run(&p, "(x)");
    assert_eq!(r.ok(), Some('x'));
    assert_eq!(at, 3);
    let (r, at) = run(&p, "(x]");
    assert!(same_error(&r.unwrap_err(), &unexpected(2, vec![Some(')')], Some(']'), 3)));
    assert_eq!(at, 3);
    let (r, at) = run(&p, "x)");
    assert!(r.is_err());
    assert_eq!(at, 1);

    let p: PaddedBy<Just<char>, Just<char>, char> = PaddedBy::new(just('x'), just('_'));
    let (r, at) = run(&p, "_x_");
    assert_eq!(r.ok(), Some('x'));
    assert_eq!(at, 3);
    assert!(run(&p, "_x").0.is_err());
}

#[test]
fn then_with_goes_back_to_the_start() {
    let p: ThenWith<Any, Just<char>, char, _, In, Failure, ()> =
        ThenWith::new(any(), |c: char| just(c));
    let (r, at) = run(&p, "aa");
    assert_eq!(r.ok(), Some('a'));
    assert_eq!(at, 2);
    let (r, at) = run(&p, "ab");
    assert!(same_error(&r.unwrap_err(), &unexpected(1, vec![Some('a')], Some('b'), 2)));
    assert_eq!(at, 0);
    let (r, at) = run(&p, "");
    assert!(r.is_err());
    assert_eq!(at, 0);
}

#[test]
fn or_takes_the_first_that_succeeds() {
    let p: Or<Just<char>, Just<char>, char> = Or::new(just('a'), just('b'));
    assert_eq!(run(&p, "a").0.ok(), Some('a'));
    assert_eq!(run(&p, "b").0.ok(), Some('b'));
    let (r, at) = run(&p, "c");
    assert!(same_error(&r.unwrap_err(), &unexpected(0, vec![Some('a'), Some('b')], Some('c'), 1)));
    assert_eq!(at, 1);
}

#[test]
fn or_fails_with_the_further_error() {
    let long = pair('a', 'b');
    let short = pair('x', 'y');
    let p: Or<_, _, (char, char)> = Or::new(long, short);
    let (r, _) = run(&p, "ac");
    assert!(same_error(&r.unwrap_err(), &unexpected(1, vec![Some('b')], Some('c'), 2)));
}

#[test]
fn or_does_not_run_the_second_after_a_success() {
    let first = MapWithState::new(any(), |c: char, _: Span, n: &u32| (c, *n));
    let second = MapWithState::new(any(), |c: char, _: Span, n: &u32| (c, *n + 1));
    let p: Or<_, _, char> = Or::new(first, second);
    let (out, _, state): (Option<char>, Vec<Failure>, u32) = parse_with_state(&p, chars("a"), 0);
    assert_eq!(out, Some('a'));
    assert_eq!(state, 0);

    let first = MapWithState::new(just('b'), |c: char, _: Span, n: &u32| (c, *n));
    let second = MapWithState::new(any(), |c: char, _: Span, n: &u32| (c, *n + 1));
    let p: Or<_, _, char> = Or::new(first, second);
    let (out, _, state): (Option<char>, Vec<Failure>, u32) = parse_with_state(&p, chars("a"), 0);
    assert_eq!(out, Some('a'));
    assert_eq!(state, 1);
}

#[test]
fn or_not_is_optional() {
    let p: OrNot<Just<char>> = OrNot::new(just('a'));
    let (r, at) = run(&p, "a");
    assert_eq!(r.ok(), Some(Some('a')));
    assert_eq!(at, 1);
    let (r, at) = run(&p, "b");
    assert_eq!(r.ok(), Some(None));
    assert_eq!(at, 0);
}

#[test]
fn not_inverts_and_reads_nothing() {
    let p: Not<Just<char>, char> = Not::new(just('a'));
    let (r, at) = run(&p, "b");
    assert_eq!(r.ok(), Some(()));
    assert_eq!(at, 0);
    let (r, at) = run(&p, "ab");
    assert!(same_error(&r.unwrap_err(), &unexpected(0, vec![], Some('a'), 1)));
    assert_eq!(at, 0);
    let (r, at) = run(&p, "");
    assert_eq!(r.ok(), Some(()));
    assert_eq!(at, 0);

    let anything: Not<OrNot<Just<char>>, Option<char>> = Not::new(OrNot::new(just('a')));
    let (r, at) = run(&anything, "");
    assert!(same_error(&r.unwrap_err(), &unexpected(0, vec![], None, 0)));
    assert_eq!(at, 0);

    let then: Then<Not<Just<char>, char>, Any, (), char, Failure, ()> =
        Then::new(Not::new(just('a')), any());
    assert_eq!(run(&then, "b").0.ok(), Some(((), 'b')));
    assert_eq!(run(&then, "a").1, 0);
}

#[test]
fn and_is_guards() {
    let two: Then<Any, Any, char, char, Failure, ()> = Then::new(any(), any());
    let p: AndIs<_, Just<char>, char> = AndIs::new(two, just('a'));
    let (r, at) = run(&p, "ab");
    assert_eq!(r.ok(), Some(('a', 'b')));
    assert_eq!(at, 2);
    let (r, at) = run(&p, "bb");
    assert!(same_error(&r.unwrap_err(), &unexpected(0, vec![Some('a')], Some('b'), 1)));
    assert_eq!(at, 0);
    let (r, at) = run(&p, "a");
    assert!(r.is_err());
    assert_eq!(at, 0);
}

#[test]
fn rewind_reads_nothing() {
    let p: Rewind<Just<char>> = Rewind::new(just('a'));
    let (r, at) = run(&p, "a");
    assert_eq!(r.ok(), Some('a'));
    assert_eq!(at, 0);
    let (r, at) = run(&p, "b");
    assert!(r.is_err());
    assert_eq!(at, 1);
}

#[test]
fn recover_with_keeps_the_error() {
    let p: RecoverWith<Just<char>, Just<char>> = RecoverWith::new(just('a'), just('b'));
    let mut inp = start("b", ());
    assert_eq!(p.go::<Emit>(&mut inp).ok(), Some(Some('b')));
    assert_eq!(inp.save(), 1);
    let ((), errors) = inp.finish();
    let expected = Simple { span: span(0, 1), expected: vec![Some('a')], found: Some('b') };
    assert_eq!(errors, vec![expected]);

    let mut inp = start("a", ());
    assert_eq!(p.go::<Emit>(&mut inp).ok(), Some(Some('a')));
    assert!(inp.finish().1.is_empty());

    let mut inp = start("c", ());
    let e = p.go::<Emit>(&mut inp).unwrap_err();
    assert!(same_error(&e, &unexpected(0, vec![Some('a')], Some('c'), 1)));
    assert!(inp.finish().1.is_empty());
}

#[test]
fn or_else_may_recover() {
    let p = OrElse::new(just('a'), |e: Failure| match e.found {
        Some('b') => Ok('z'),
        _ => Err(e),
    });
    assert_eq!(run(&p, "a").0.ok(), Some('a'));
    let (r, at) = run(&p, "b");
    assert_eq!(r.ok(), Some('z'));
    assert_eq!(at, 1);
    let (r, _) = run(&p, "c");
    assert!(same_error(&r.unwrap_err(), &unexpected(0, vec![Some('a')], Some('c'), 1)));
}

#[test]
fn map_err_changes_the_error_only() {
    let p = MapErr::new(just('a'), |e: Failure| Simple { found: None, ..e });
    assert_eq!(run(&p, "a").0.ok(), Some('a'));
    let (r, at) = run(&p, "b");
    assert!(same_error(&r.unwrap_err(), &unexpected(0, vec![Some('a')], None, 1)));
    assert_eq!(at, 1);

    let two = pair('a', 'b');
    let p = MapErrWithSpan::new(two, |e: Failure, s: Span| Simple { span: s, ..e });
    let (r, _) = run(&p, "ac");
    let e = r.unwrap_err();
    assert_eq!(e.pos, 1);
    assert_eq!(e.err.span, span(0, 2));

    let p = MapErrWithState::new(just('a'), |e: Failure, _: Span, n: &u32| (e, *n + 1));
    let (out, errs, state): (Option<char>, Vec<Failure>, u32) = parse_with_state(&p, chars("b"), 0);
    assert_eq!(out, None);
    assert_eq!(errs.len(), 1);
    assert_eq!(state, 1);
    let (_, _, state): (Option<char>, Vec<Failure>, u32) = parse_with_state(&p, chars("a"), 0);
    assert_eq!(state, 0);
}

#[test]
fn folds() {
    let digits: Repeated<_, char, In, Vec<char>, Failure, ()> = Repeated::new(digit()).collect();
    let head = Mapped::new(digit(), |c: char| c.to_digit(10).unwrap());
    let pair: Then<_, _, u32, Vec<char>, Failure, ()> = Then::new(head, digits);
    let p = Foldl::new(pair, |n: u32, c: char| n * 10 + c.to_digit(10).unwrap());
    assert_eq!(run(&p, "1234").0.ok(), Some(1234));
    assert_eq!(run(&p, "7").0.ok(), Some(7));

    let minuses = dashes(0, None);
    let tail = Mapped::new(digit(), |c: char| c.to_string());
    let pair: Then<_, _, Vec<char>, String, Failure, ()> = Then::new(minuses, tail);
    let p = Foldr::new(pair, |c: char, s: String| format!("({}{})", c, s));
    assert_eq!(run(&p, "--5").0.ok(), Some("(-(-5))".to_string()));
    assert_eq!(run(&p, "5").0.ok(), Some("5".to_string()));
}

type Dashes = Repeated<Just<char>, char, In, Vec<char>, Failure, ()>;

fn dashes(at_least: usize, at_most: Option<usize>) -> Dashes {
    let r = Repeated::new(just('-')).at_least(at_least);
    match at_most {
        Some(m) => r.at_most(m).collect(),
        None => r.collect(),
    }
}

#[test]
fn repeated_bounds() {
    for k in 0..6usize {
        let text = "-".repeat(k) + "x";
        for n in 0..4usize {
            for m in n..5usize {
                let (r, at) = run(&dashes(n, Some(m)), &text);
                if n <= k {
                    assert_eq!(r.ok(), Some(vec!['-'; k.min(m)]));
                    assert_eq!(at, k.min(m));
                } else {
                    let expected = unexpected(k, vec![Some('-')], Some('x'), k + 1);
                    assert!(same_error(&r.unwrap_err(), &expected));
                    assert_eq!(at, k);
                }
            }
            let (r, at) = run(&dashes(n, None), &text);
            assert_eq!(r.is_ok(), n <= k);
            assert_eq!(at, k);
        }
    }
}

#[test]
fn repeated_with_a_bound_of_zero_reads_nothing() {
    let (r, at) = run(&dashes(0, Some(0)), "---");
    assert_eq!(r.ok(), Some(vec![]));
    assert_eq!(at, 0);
    let (r, at) = run(&dashes(0, Some(0)), "x");
    assert_eq!(r.ok(), Some(vec![]));
    assert_eq!(at, 0);

    let counted: Repeated<_, char, In, (), Failure, u32> = Repeated::new(MapWithState::new(
        just('-'),
        |c: char, _: Span, n: &u32| (c, *n + 1),
    ));
    let (out, _, runs): (Option<()>, Vec<Failure>, u32) =
        parse_with_state(&Lazy::new(counted.clone().at_most(0)), chars("---"), 0);
    assert_eq!((out, runs), (Some(()), 0));
    let (out, _, runs): (Option<()>, Vec<Failure>, u32) =
        parse_with_state(&Lazy::new(counted.at_most(2)), chars("---"), 0);
    assert_eq!((out, runs), (Some(()), 2));
}

#[test]
fn repeated_exactly_builder() {
    let p: Dashes = Repeated::new(just('-')).exactly(2).collect();
    assert_eq!(run(&p, "---").0.ok(), Some(vec!['-', '-']));
    assert!(run(&p, "-").0.is_err());
    assert_eq!((p.at_least, p.at_most), (2, Some(2)));
}

fn list() -> SeparatedBy<Just<char>, Just<char>, char, char, In, Vec<char>, Failure, ()> {
    SeparatedBy::new(just('-'), just(',')).collect()
}

#[test]
fn separated_by_round_trip() {
    for n in 1..5usize {
        let text = vec!["-"; n].join(",");
        let (r, at) = run(&list(), &text);
        assert_eq!(r.ok(), Some(vec!['-'; n]));
        assert_eq!(at, 2 * n - 1);

        let (r, at) = run(&list(), &(text.clone() + ","));
        assert_eq!(r.ok(), Some(vec!['-'; n]));
        assert_eq!(at, 2 * n - 1);

        let (r, at) = run(&list().allow_trailing(), &(text.clone() + ","));
        assert_eq!(r.ok(), Some(vec!['-'; n]));
        assert_eq!(at, 2 * n);

        let (r, at) = run(&list().allow_trailing(), &text);
        assert_eq!(r.ok(), Some(vec!['-'; n]));
        assert_eq!(at, 2 * n - 1);

        let (r, at) = run(&list().allow_leading(), &(",".to_string() + &text));
        assert_eq!(r.ok(), Some(vec!['-'; n]));
        assert_eq!(at, 2 * n);
    }
}

#[test]
fn separated_by_of_nothing() {
    let (r, at) = run(&list(), "x");
    assert_eq!(r.ok(), Some(vec![]));
    assert_eq!(at, 0);
    let (r, at) = run(&list().at_least(1), "x");
    assert!(same_error(&r.unwrap_err(), &unexpected(0, vec![Some('-')], Some('x'), 1)));
    assert_eq!(at, 0);
    let (r, at) = run(&list().allow_leading(), ",x");
    assert_eq!(r.ok(), Some(vec![]));
    assert_eq!(at, 1);
}

#[test]
fn separated_by_reports_what_is_missing() {
    let (r, at) = run(&list().at_least(3), "-,-");
    assert!(same_error(&r.unwrap_err(), &unexpected(3, vec![Some(',')], None, 3)));
    assert_eq!(at, 3);
    let (r, at) = run(&list().at_least(3), "-,-,x");
    assert!(same_error(&r.unwrap_err(), &unexpected(4, vec![Some('-')], Some('x'), 5)));
    assert_eq!(at, 3);
}

#[test]
fn separated_by_stops_at_its_upper_bound() {
    let (r, at) = run(&list().at_most(2), "-,-,-");
    assert_eq!(r.ok(), Some(vec!['-', '-']));
    assert_eq!(at, 3);
    let (r, at) = run(&list().at_most(2).allow_trailing(), "-,-,-");
    assert_eq!(r.ok(), Some(vec!['-', '-']));
    assert_eq!(at, 4);
    let (r, at) = run(&list().exactly(2), "-,-,-");
    assert_eq!(r.ok(), Some(vec!['-', '-']));
    assert_eq!(at, 3);
    assert!(run(&list().exactly(2), "-").0.is_err());
}

#[test]
fn repeated_exactly_fills_an_array() {
    let p: RepeatedExactly<Any, char, [char; 3], 3> = RepeatedExactly::new(any()).collect();
    let (r, at) = run(&p, "abcd");
    assert_eq!(r.ok(), Some(['a', 'b', 'c']));
    assert_eq!(at, 3);
    let unit: RepeatedExactly<Any, char, (), 3> = RepeatedExactly::new(any());
    let (r, at) = run(&unit, "abcd");
    assert_eq!(r.ok(), Some(()));
    assert_eq!(at, 3);
}

#[test]
fn repeated_exactly_fails_on_fewer() {
    let p: RepeatedExactly<Just<char>, char, [char; 3], 3> =
        RepeatedExactly::new(just('-')).collect();
    for k in 0..3usize {
        let text = "-".repeat(k);
        let (r, at) = run(&p, &text);
        assert!(same_error(&r.unwrap_err(), &unexpected(k, vec![Some('-')], None, k)));
        assert_eq!(at, k);
        let mut inp = start(&text, ());
        assert!(p.go::<Check>(&mut inp).is_err());
        assert_eq!(inp.save(), k);
    }
}

#[test]
fn repeated_exactly_releases_what_it_collected() {
    let witness = Rc::new(());
    let held = witness.clone();
    let item = Mapped::new(just('-'), move |_: char| Held(held.clone()));
    let p: RepeatedExactly<_, Held, [Held; 3], 3> = RepeatedExactly::new(item).collect();
    let (r, _) = run(&p, "--x");
    assert!(r.is_err());
    assert_eq!(Rc::strong_count(&witness), 2);
    let (r, _) = run(&p, "---");
    let array = r.ok().unwrap();
    assert_eq!(Rc::strong_count(&witness), 5);
    drop(array);
    assert_eq!(Rc::strong_count(&witness), 2);
}

struct Held(Rc<()>);

impl combinators::model::Modeled for Held {
    type Model = ();

    fn model(&self) {}
}

#[test]
fn separated_by_exactly() {
    let p: SeparatedByExactly<Any, Just<char>, char, (), 2> =
        SeparatedByExactly::new(any(), just(','));
    let (r, at) = run(&p, "a,b,");
    assert_eq!(r.ok(), Some(['a', 'b']));
    assert_eq!(at, 3);
    let (r, at) = run(&p, "a");
    assert!(same_error(&r.unwrap_err(), &unexpected(1, vec![Some(',')], None, 1)));
    assert_eq!(at, 1);
    let (r, at) = run(&p, "a,");
    assert!(same_error(&r.unwrap_err(), &unexpected(2, vec![], None, 2)));
    assert_eq!(at, 2);

    let p: SeparatedByExactly<Any, Just<char>, char, [char; 2], 2> =
        SeparatedByExactly::new(any(), just(',')).allow_leading().allow_trailing().collect();
    let (r, at) = run(&p, ",a,b,");
    assert_eq!(r.ok(), Some(['a', 'b']));
    assert_eq!(at, 5);
}

#[test]
fn copies_parse_alike() {
    let p = list().at_least(2).allow_trailing();
    let q = p.clone();
    let copied = p;
    for text in ["-,-,", "-", "-,-,-"] {
        let (a, at) = run(&p, text);
        let (b, bt) = run(&q, text);
        let (c, ct) = run(&copied, text);
        assert_eq!((a.is_ok(), at), (b.is_ok(), bt));
        assert_eq!((a.ok(), at), (c.ok(), ct));
    }
    let mapped = Mapped::new(just('a'), |c: char| c as u32);
    assert_eq!(run(&mapped.clone(), "a").0.ok(), Some(97));
    let to: To<Just<char>, char, String, Failure, ()> = To::new(just('a'), "x".to_string());
    assert_eq!(run(&to.clone(), "a").0.ok(), Some("x".to_string()));
}
