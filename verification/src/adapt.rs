//! Error adaptation: the error that a parser fails with, changed by a
//! function.

use crate::error::{Error, Located};
use crate::function::{computes1, computes2, computes3, model1, model2, model3};
use crate::input::{Cursor, Input, InputRef, Span};
use crate::mode::Mode;
use crate::model::Modeled;
use crate::parser::{Outcome, PResult, Parser};
use core::marker::PhantomData;
use vstd::pervasive::cloned;
use vstd::prelude::*;

verus! {

/// A parser whose error is changed by a function. See `spec_go`.
pub struct MapErr<A, E: Modeled, F> {
    /// The parser.
    pub parser: A,
    /// The function.
    pub mapper: F,
    /// What `mapper` computes, on models.
    pub model: Ghost<spec_fn(E::Model) -> E::Model>,
    /// The types that the parser is about.
    pub phantom: PhantomData<E>,
}

impl<A, E: Modeled, F: Fn(E) -> E> MapErr<A, E, F> {
    /// `parser`, with `mapper` applied to its error.
    pub fn new(parser: A, mapper: F) -> (r: Self)
        ensures
            r.parser == parser,
            r.mapper == mapper,
            r.model@ == |e: E::Model| model1::<F, E, E>(mapper, e),
    {
        let ghost model = |e: E::Model| model1::<F, E, E>(mapper, e);
        MapErr { parser, mapper, model: Ghost(model), phantom: PhantomData }
    }

    /// As [`MapErr::new`], where `model` says what `mapper` computes.
    pub fn with_model(
        parser: A,
        mapper: F,
        model: Ghost<spec_fn(E::Model) -> E::Model>,
    ) -> (r: Self)
        ensures
            r.parser == parser,
            r.mapper == mapper,
            r.model == model,
    {
        MapErr { parser, mapper, model, phantom: PhantomData }
    }
}

impl<I, O, E, S, A, F> Parser<I, O, E, S> for MapErr<A, E, F> where
    I: Input,
    O: Modeled,
    E: Error<I>,
    S: Modeled,
    A: Parser<I, O, E, S>,
    F: Fn(E) -> E,
 {
    /// The parser can be run, and `model` says what the function computes.
    open spec fn wf(&self) -> bool {
        self.parser.wf() && computes1::<F, E, E>(self.mapper, self.model@)
    }

    /// The run is the parser's run, with the function applied to the error
    /// if it fails. The error stays at its offset.
    open spec fn spec_go(&self, emit: bool, c: Cursor<I, E, S>) -> Outcome<I, O::Model, E, S> {
        let a = self.parser.spec_go(emit, c);
        Outcome {
            cursor: a.cursor,
            result: match a.result {
                Ok(v) => Ok(v),
                Err(e) => Err(Located { pos: e.pos, err: (self.model@)( e.err) }),
            },
        }
    }

    proof fn lemma_spec_go(&self, emit: bool, c: Cursor<I, E, S>) {
        self.parser.lemma_spec_go(emit, c);
    }

    proof fn lemma_recovered(&self, emit: bool, c: Cursor<I, E, S>, errors: Seq<E::Model>) {
        self.parser.lemma_recovered(emit, c, errors);
    }

    /// A run does not depend on its kind if a run of the parser does not.
    open spec fn mode_free(&self) -> bool {
        self.parser.mode_free()
    }

    proof fn lemma_modes(&self, c: Cursor<I, E, S>) {
        self.parser.lemma_modes(c);
    }

    fn go<M: Mode>(&self, inp: &mut InputRef<I, E, S>) -> (r: PResult<O, E>) {
        match self.parser.go::<M>(inp) {
            Ok(o) => Ok(o),
            Err(e) => {
                let Located { pos, err } = e;
                Err(Located { pos, err: (self.mapper)(err) })
            },
        }
    }
}

/// A parser whose error is changed by a function that also gets the span
/// of what was read. See `spec_go`.
pub struct MapErrWithSpan<A, E: Modeled, F> {
    /// The parser.
    pub parser: A,
    /// The function.
    pub mapper: F,
    /// What `mapper` computes, on models.
    pub model: Ghost<spec_fn(E::Model, Span) -> E::Model>,
    /// The types that the parser is about.
    pub phantom: PhantomData<E>,
}

impl<A, E: Modeled, F: Fn(E, Span) -> E> MapErrWithSpan<A, E, F> {
    /// `parser`, with `mapper` applied to its error and span.
    pub fn new(parser: A, mapper: F) -> (r: Self)
        ensures
            r.parser == parser,
            r.mapper == mapper,
            r.model@ == |e: E::Model, span: Span| model2::<F, E, Span, E>(mapper, e, span),
    {
        let ghost model = |e: E::Model, span: Span| model2::<F, E, Span, E>(mapper, e, span);
        MapErrWithSpan { parser, mapper, model: Ghost(model), phantom: PhantomData }
    }

    /// As [`MapErrWithSpan::new`], where `model` says what `mapper` computes.
    pub fn with_model(
        parser: A,
        mapper: F,
        model: Ghost<spec_fn(E::Model, Span) -> E::Model>,
    ) -> (r: Self)
        ensures
            r.parser == parser,
            r.mapper == mapper,
            r.model == model,
    {
        MapErrWithSpan { parser, mapper, model, phantom: PhantomData }
    }
}

impl<I, O, E, S, A, F> Parser<I, O, E, S> for MapErrWithSpan<A, E, F> where
    I: Input,
    O: Modeled,
    E: Error<I>,
    S: Modeled,
    A: Parser<I, O, E, S>,
    F: Fn(E, Span) -> E,
 {
    /// The parser can be run, and `model` says what the function computes.
    open spec fn wf(&self) -> bool {
        self.parser.wf() && computes2::<F, E, Span, E>(self.mapper, self.model@)
    }

    /// The run is the parser's run, with the function applied, if it
    /// fails, to the error and to the span from where the run started to
    /// where the failure left the cursor. The error stays at its offset.
    open spec fn spec_go(&self, emit: bool, c: Cursor<I, E, S>) -> Outcome<I, O::Model, E, S> {
        let a = self.parser.spec_go(emit, c);
        Outcome {
            cursor: a.cursor,
            result: match a.result {
                Ok(v) => Ok(v),
                Err(e) => Err(
                    Located {
                        pos: e.pos,
                        err: (self.model@)(
                            e.err,
                            a.cursor.span_since(c.offset),
                        ),
                    },
                ),
            },
        }
    }

    proof fn lemma_spec_go(&self, emit: bool, c: Cursor<I, E, S>) {
        self.parser.lemma_spec_go(emit, c);
    }

    proof fn lemma_recovered(&self, emit: bool, c: Cursor<I, E, S>, errors: Seq<E::Model>) {
        self.parser.lemma_recovered(emit, c, errors);
    }

    /// A run does not depend on its kind if a run of the parser does not.
    open spec fn mode_free(&self) -> bool {
        self.parser.mode_free()
    }

    proof fn lemma_modes(&self, c: Cursor<I, E, S>) {
        self.parser.lemma_modes(c);
    }

    fn go<M: Mode>(&self, inp: &mut InputRef<I, E, S>) -> (r: PResult<O, E>) {
        let start = inp.save();
        match self.parser.go::<M>(inp) {
            Ok(o) => Ok(o),
            Err(e) => {
                let span = inp.span_since(start);
                let Located { pos, err } = e;
                Err(Located { pos, err: (self.mapper)(err, span) })
            },
        }
    }
}

/// A parser whose error is changed by a function that also gets the span
/// of what was read and the user's state, and gives the state back: the
/// function reads the state through `&S` and returns the new state beside
/// the error. See `spec_go`.
pub struct MapErrWithState<A, E: Modeled, S: Modeled, F> {
    /// The parser.
    pub parser: A,
    /// The function.
    pub mapper: F,
    /// What `mapper` computes, on models.
    pub model: Ghost<spec_fn(E::Model, Span, S::Model) -> (E::Model, S::Model)>,
    /// The types that the parser is about.
    pub phantom: PhantomData<(E, S)>,
}

impl<A, E: Modeled, S: Modeled, F: Fn(E, Span, &S) -> (E, S)> MapErrWithState<A, E, S, F> {
    /// `parser`, with `mapper` applied to its error, its span and the
    /// state.
    pub fn new(parser: A, mapper: F) -> (r: Self)
        ensures
            r.parser == parser,
            r.mapper == mapper,
            r.model@ == |e: E::Model, span: Span, s: S::Model| {
                model3::<F, E, Span, &S, (E, S)>(mapper, e, span, s)
            },
    {
        let ghost model = |e: E::Model, span: Span, s: S::Model| {
            model3::<F, E, Span, &S, (E, S)>(mapper, e, span, s)
        };
        MapErrWithState { parser, mapper, model: Ghost(model), phantom: PhantomData }
    }

    /// As [`MapErrWithState::new`], where `model` says what `mapper` computes.
    pub fn with_model(
        parser: A,
        mapper: F,
        model: Ghost<spec_fn(E::Model, Span, S::Model) -> (E::Model, S::Model)>,
    ) -> (r: Self)
        ensures
            r.parser == parser,
            r.mapper == mapper,
            r.model == model,
    {
        MapErrWithState { parser, mapper, model, phantom: PhantomData }
    }
}

impl<I, O, E, S, A, F> Parser<I, O, E, S> for MapErrWithState<A, E, S, F> where
    I: Input,
    O: Modeled,
    E: Error<I>,
    S: Modeled,
    A: Parser<I, O, E, S>,
    F: Fn(E, Span, &S) -> (E, S),
 {
    /// The parser can be run, and `model` says what the function computes.
    open spec fn wf(&self) -> bool {
        self.parser.wf() && computes3::<F, E, Span, &S, (E, S)>(self.mapper, self.model@)
    }

    /// The run is the parser's run if it succeeds. If it fails, the
    /// function is applied to the error, to the span from where the run
    /// started to where the failure left the cursor, and to the state: the
    /// run fails with the first part of what it gives, at the same offset,
    /// and the second part is the state from then on.
    open spec fn spec_go(&self, emit: bool, c: Cursor<I, E, S>) -> Outcome<I, O::Model, E, S> {
        let a = self.parser.spec_go(emit, c);
        match a.result {
            Ok(_) => a,
            Err(e) => {
                let r = (self.model@)(
                    e.err,
                    a.cursor.span_since(c.offset),
                    a.cursor.state,
                );
                Outcome {
                    cursor: a.cursor.with_state(r.1),
                    result: Err(Located { pos: e.pos, err: r.0 }),
                }
            },
        }
    }

    proof fn lemma_spec_go(&self, emit: bool, c: Cursor<I, E, S>) {
        self.parser.lemma_spec_go(emit, c);
    }

    proof fn lemma_recovered(&self, emit: bool, c: Cursor<I, E, S>, errors: Seq<E::Model>) {
        self.parser.lemma_recovered(emit, c, errors);
    }

    /// A run does not depend on its kind if a run of the parser does not.
    open spec fn mode_free(&self) -> bool {
        self.parser.mode_free()
    }

    proof fn lemma_modes(&self, c: Cursor<I, E, S>) {
        self.parser.lemma_modes(c);
    }

    fn go<M: Mode>(&self, inp: &mut InputRef<I, E, S>) -> (r: PResult<O, E>) {
        let start = inp.save();
        match self.parser.go::<M>(inp) {
            Ok(o) => Ok(o),
            Err(e) => {
                let span = inp.span_since(start);
                let Located { pos, err } = e;
                let state = inp.state();
                let (err, s) = (self.mapper)(err, span, &*state);
                *state = s;
                Err(Located { pos, err })
            },
        }
    }
}

/// A parser whose failure a function may turn into a success. See
/// `spec_go`.
pub struct OrElse<A, O: Modeled, E: Modeled, F> {
    /// The parser.
    pub parser: A,
    /// The function.
    pub or_else: F,
    /// What `or_else` computes, on models.
    pub model: Ghost<spec_fn(E::Model) -> Result<O::Model, E::Model>>,
    /// The types that the parser is about.
    pub phantom: PhantomData<(O, E)>,
}

impl<A, O: Modeled, E: Modeled, F: Fn(E) -> Result<O, E>> OrElse<A, O, E, F> {
    /// `parser`, or else what `or_else` makes of its error.
    pub fn new(parser: A, or_else: F) -> (r: Self)
        ensures
            r.parser == parser,
            r.or_else == or_else,
            r.model@ == |e: E::Model| model1::<F, E, Result<O, E>>(or_else, e),
    {
        let ghost model = |e: E::Model| model1::<F, E, Result<O, E>>(or_else, e);
        OrElse { parser, or_else, model: Ghost(model), phantom: PhantomData }
    }

    /// As [`OrElse::new`], where `model` says what `or_else` computes.
    pub fn with_model(
        parser: A,
        or_else: F,
        model: Ghost<spec_fn(E::Model) -> Result<O::Model, E::Model>>,
    ) -> (r: Self)
        ensures
            r.parser == parser,
            r.or_else == or_else,
            r.model == model,
    {
        OrElse { parser, or_else, model, phantom: PhantomData }
    }
}

impl<I, O, E, S, A, F> Parser<I, O, E, S> for OrElse<A, O, E, F> where
    I: Input,
    O: Modeled,
    E: Error<I>,
    S: Modeled,
    A: Parser<I, O, E, S>,
    F: Fn(E) -> Result<O, E>,
 {
    /// The parser can be run, and `model` says what the function computes.
    open spec fn wf(&self) -> bool {
        self.parser.wf() && computes1::<F, E, Result<O, E>>(self.or_else, self.model@)
    }

    /// The run is the parser's run if it succeeds. If it fails, the
    /// function is applied to the error: the run succeeds with the output
    /// that the function gives, or fails with the error that it gives, at
    /// the offset of the parser's error. The cursor stays where the failure
    /// left it either way.
    open spec fn spec_go(&self, emit: bool, c: Cursor<I, E, S>) -> Outcome<I, O::Model, E, S> {
        let a = self.parser.spec_go(emit, c);
        Outcome {
            cursor: a.cursor,
            result: match a.result {
                Ok(v) => Ok(v),
                Err(err) => match (self.model@)( err.err) {
                    Ok(o) => Ok(o),
                    Err(e) => Err(Located { pos: err.pos, err: e }),
                },
            },
        }
    }

    proof fn lemma_spec_go(&self, emit: bool, c: Cursor<I, E, S>) {
        self.parser.lemma_spec_go(emit, c);
    }

    proof fn lemma_recovered(&self, emit: bool, c: Cursor<I, E, S>, errors: Seq<E::Model>) {
        self.parser.lemma_recovered(emit, c, errors);
    }

    /// A run does not depend on its kind if a run of the parser does not.
    open spec fn mode_free(&self) -> bool {
        self.parser.mode_free()
    }

    proof fn lemma_modes(&self, c: Cursor<I, E, S>) {
        self.parser.lemma_modes(c);
    }

    fn go<M: Mode>(&self, inp: &mut InputRef<I, E, S>) -> (r: PResult<O, E>) {
        match self.parser.go::<M>(inp) {
            Ok(o) => Ok(o),
            Err(err) => {
                let Located { pos, err } = err;
                match (self.or_else)(err) {
                    Err(e) => Err(Located { pos, err: e }),
                    Ok(out) => Ok(M::bind(|| -> (r: O)
                        ensures
                            r == out,
                        { out })),
                }
            },
        }
    }
}

impl<A: Clone, E: Modeled, F: Clone> Clone for MapErr<A, E, F> {
    /// A copy of the parser, made of copies of its parts.
    fn clone(&self) -> (r: Self)
        ensures
            cloned(self.parser, r.parser),
            cloned(self.mapper, r.mapper),
            r.model == self.model,
    {
        MapErr {
            parser: self.parser.clone(),
            mapper: self.mapper.clone(),
            model: self.model,
            phantom: PhantomData,
        }
    }
}

impl<A: Copy, E: Modeled, F: Copy> Copy for MapErr<A, E, F> {
}

impl<A: Clone, E: Modeled, F: Clone> Clone for MapErrWithSpan<A, E, F> {
    /// A copy of the parser, made of copies of its parts.
    fn clone(&self) -> (r: Self)
        ensures
            cloned(self.parser, r.parser),
            cloned(self.mapper, r.mapper),
            r.model == self.model,
    {
        MapErrWithSpan {
            parser: self.parser.clone(),
            mapper: self.mapper.clone(),
            model: self.model,
            phantom: PhantomData,
        }
    }
}

impl<A: Copy, E: Modeled, F: Copy> Copy for MapErrWithSpan<A, E, F> {
}

impl<A: Clone, E: Modeled, S: Modeled, F: Clone> Clone for MapErrWithState<A, E, S, F> {
    /// A copy of the parser, made of copies of its parts.
    fn clone(&self) -> (r: Self)
        ensures
            cloned(self.parser, r.parser),
            cloned(self.mapper, r.mapper),
            r.model == self.model,
    {
        MapErrWithState {
            parser: self.parser.clone(),
            mapper: self.mapper.clone(),
            model: self.model,
            phantom: PhantomData,
        }
    }
}

impl<A: Copy, E: Modeled, S: Modeled, F: Copy> Copy for MapErrWithState<A, E, S, F> {
}

impl<A: Clone, O: Modeled, E: Modeled, F: Clone> Clone for OrElse<A, O, E, F> {
    /// A copy of the parser, made of copies of its parts.
    fn clone(&self) -> (r: Self)
        ensures
            cloned(self.parser, r.parser),
            cloned(self.or_else, r.or_else),
            r.model == self.model,
    {
        OrElse {
            parser: self.parser.clone(),
            or_else: self.or_else.clone(),
            model: self.model,
            phantom: PhantomData,
        }
    }
}

impl<A: Copy, O: Modeled, E: Modeled, F: Copy> Copy for OrElse<A, O, E, F> {
}

} // verus!
