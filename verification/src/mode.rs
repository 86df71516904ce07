//! The two ways of running a parser.
//!
//! A parser runs either to validate its input or to produce a value. A
//! combinator is written once, against [`Mode`], and serves both: what it
//! does to an output, it does through the mode, which does it only where
//! there is an output.
//!
//! The two runs move through the input in the same way and fail on the same
//! inputs, as long as nothing in the parser acts on the user's state in the
//! one and not in the other: see `Parser::mode_free`.

use vstd::prelude::*;

verus! {

/// A strategy for running a parser: [`Check`] or [`Emit`].
///
/// The output of a run in mode `M` is an `Option`: it holds a value exactly
/// when `M` emits.
pub trait Mode {
    /// Whether a run in this mode hands values back.
    spec fn emits() -> bool;

    /// Makes an output from a computation, which runs only if the mode emits.
    fn bind<T, F: FnOnce() -> T>(f: F) -> (r: Option<T>)
        requires
            f.requires(()),
        ensures
            r is Some <==> Self::emits(),
            r is Some ==> f.ensures((), r->0),
    ;

    /// Transforms an output, if there is one to transform.
    fn map<T, U, F: FnOnce(T) -> U>(x: Option<T>, f: F) -> (r: Option<U>)
        requires
            x is Some <==> Self::emits(),
            x is Some ==> f.requires((x->0,)),
        ensures
            r is Some <==> Self::emits(),
            r is Some ==> f.ensures((x->0,), r->0),
    ;

    /// Joins two outputs into one, if there are outputs to join.
    fn combine<T, U, V, F: FnOnce(T, U) -> V>(x: Option<T>, y: Option<U>, f: F) -> (r: Option<V>)
        requires
            x is Some <==> Self::emits(),
            y is Some <==> Self::emits(),
            x is Some ==> f.requires((x->0, y->0)),
        ensures
            r is Some <==> Self::emits(),
            r is Some ==> f.ensures((x->0, y->0), r->0),
    ;
}

/// Runs a parser for its value.
pub struct Emit;

/// Runs a parser only to learn whether it succeeds and where it stops.
pub struct Check;

impl Mode for Emit {
    open spec fn emits() -> bool {
        true
    }

    fn bind<T, F: FnOnce() -> T>(f: F) -> (r: Option<T>) {
        Some(f())
    }

    fn map<T, U, F: FnOnce(T) -> U>(x: Option<T>, f: F) -> (r: Option<U>) {
        match x {
            Some(v) => Some(f(v)),
            None => None,
        }
    }

    fn combine<T, U, V, F: FnOnce(T, U) -> V>(x: Option<T>, y: Option<U>, f: F) -> (r: Option<V>) {
        match (x, y) {
            (Some(a), Some(b)) => Some(f(a, b)),
            _ => None,
        }
    }
}

impl Mode for Check {
    open spec fn emits() -> bool {
        false
    }

    fn bind<T, F: FnOnce() -> T>(f: F) -> (r: Option<T>) {
        None
    }

    fn map<T, U, F: FnOnce(T) -> U>(x: Option<T>, f: F) -> (r: Option<U>) {
        None
    }

    fn combine<T, U, V, F: FnOnce(T, U) -> V>(x: Option<T>, y: Option<U>, f: F) -> (r: Option<V>) {
        None
    }
}

} // verus!
