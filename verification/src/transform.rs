//! Transformation: what a parser gives, changed by a function.

use crate::error::{Error, Located};
use crate::function::{computes1, computes2, computes3, model1, model2, model3};
use crate::input::{Cursor, Input, InputRef, SliceInput, Span};
use crate::mode::{Check, Emit, Mode};
use crate::model::{lemma_models_empty, Modeled};
use crate::parser::{Outcome, PResult, Parser};
use core::marker::PhantomData;
use vstd::pervasive::cloned;
use vstd::prelude::*;

verus! {

/// A parser whose output is changed by a function. See `spec_go`.
pub struct Mapped<A, OA: Modeled, O: Modeled, F> {
    /// The parser.
    pub parser: A,
    /// The function.
    pub mapper: F,
    /// What `mapper` computes, on models.
    pub model: Ghost<spec_fn(OA::Model) -> O::Model>,
    /// The types that the parser is about.
    pub phantom: PhantomData<(OA, O)>,
}

impl<A, OA: Modeled, O: Modeled, F: Fn(OA) -> O> Mapped<A, OA, O, F> {
    /// `parser`, with `mapper` applied to its output.
    pub fn new(parser: A, mapper: F) -> (r: Self)
        ensures
            r.parser == parser,
            r.mapper == mapper,
            r.model@ == |v: OA::Model| model1::<F, OA, O>(mapper, v),
    {
        let ghost model = |v: OA::Model| model1::<F, OA, O>(mapper, v);
        Mapped { parser, mapper, model: Ghost(model), phantom: PhantomData }
    }

    /// `parser`, with `mapper` applied to its output, where `model` says
    /// what `mapper` computes.
    pub fn with_model(parser: A, mapper: F, model: Ghost<spec_fn(OA::Model) -> O::Model>) -> (r:
        Self)
        ensures
            r.parser == parser,
            r.mapper == mapper,
            r.model == model,
    {
        Mapped { parser, mapper, model, phantom: PhantomData }
    }
}

impl<I, O, E, S, A, OA, F> Parser<I, O, E, S> for Mapped<A, OA, O, F> where
    I: Input,
    O: Modeled,
    OA: Modeled,
    E: Error<I>,
    S: Modeled,
    A: Parser<I, OA, E, S>,
    F: Fn(OA) -> O,
 {
    /// The parser can be run, and `model` says what the function computes.
    open spec fn wf(&self) -> bool {
        self.parser.wf() && computes1::<F, OA, O>(self.mapper, self.model@)
    }

    /// The run is the parser's run, with the function applied to the
    /// output.
    open spec fn spec_go(&self, emit: bool, c: Cursor<I, E, S>) -> Outcome<I, O::Model, E, S> {
        let a = self.parser.spec_go(emit, c);
        Outcome {
            cursor: a.cursor,
            result: match a.result {
                Ok(v) => Ok((self.model@)(v)),
                Err(e) => Err(e),
            },
        }
    }

    proof fn lemma_spec_go(&self, emit: bool, c: Cursor<I, E, S>) {
        self.parser.lemma_spec_go(emit, c);
    }

    proof fn lemma_recovered(&self, emit: bool, c: Cursor<I, E, S>, errors: Seq<E::Model>) {
        self.parser.lemma_recovered(emit, c, errors);
    }

    /// A run does not depend on its kind if a run of the parser does not.
    open spec fn mode_free(&self) -> bool {
        self.parser.mode_free()
    }

    proof fn lemma_modes(&self, c: Cursor<I, E, S>) {
        self.parser.lemma_modes(c);
    }

    fn go<M: Mode>(&self, inp: &mut InputRef<I, E, S>) -> (r: PResult<O, E>) {
        let out = self.parser.go::<M>(inp)?;
        Ok(M::map(out, |a: OA| -> (o: O)
            ensures
                call_ensures(self.mapper, (a,), o),
            { (self.mapper)(a) }))
    }
}

/// A parser whose output is changed by a function that also gets the span
/// of what was read. See `spec_go`.
pub struct MapWithSpan<A, OA: Modeled, O: Modeled, F> {
    /// The parser.
    pub parser: A,
    /// The function.
    pub mapper: F,
    /// What `mapper` computes, on models.
    pub model: Ghost<spec_fn(OA::Model, Span) -> O::Model>,
    /// The types that the parser is about.
    pub phantom: PhantomData<(OA, O)>,
}

impl<A, OA: Modeled, O: Modeled, F: Fn(OA, Span) -> O> MapWithSpan<A, OA, O, F> {
    /// `parser`, with `mapper` applied to its output and span.
    pub fn new(parser: A, mapper: F) -> (r: Self)
        ensures
            r.parser == parser,
            r.mapper == mapper,
            r.model@ == |v: OA::Model, span: Span| model2::<F, OA, Span, O>(mapper, v, span),
    {
        let ghost model = |v: OA::Model, span: Span| model2::<F, OA, Span, O>(mapper, v, span);
        MapWithSpan { parser, mapper, model: Ghost(model), phantom: PhantomData }
    }

    /// As [`MapWithSpan::new`], where `model` says what `mapper` computes.
    pub fn with_model(
        parser: A,
        mapper: F,
        model: Ghost<spec_fn(OA::Model, Span) -> O::Model>,
    ) -> (r: Self)
        ensures
            r.parser == parser,
            r.mapper == mapper,
            r.model == model,
    {
        MapWithSpan { parser, mapper, model, phantom: PhantomData }
    }
}

impl<I, O, E, S, A, OA, F> Parser<I, O, E, S> for MapWithSpan<A, OA, O, F> where
    I: Input,
    O: Modeled,
    OA: Modeled,
    E: Error<I>,
    S: Modeled,
    A: Parser<I, OA, E, S>,
    F: Fn(OA, Span) -> O,
 {
    /// The parser can be run, and `model` says what the function computes.
    open spec fn wf(&self) -> bool {
        self.parser.wf() && computes2::<F, OA, Span, O>(self.mapper, self.model@)
    }

    /// The run is the parser's run, with the function applied to the output
    /// and to the span from where the run started to where it stopped.
    open spec fn spec_go(&self, emit: bool, c: Cursor<I, E, S>) -> Outcome<I, O::Model, E, S> {
        let a = self.parser.spec_go(emit, c);
        Outcome {
            cursor: a.cursor,
            result: match a.result {
                Ok(v) => Ok(
                    (self.model@)( v, a.cursor.span_since(c.offset)),
                ),
                Err(e) => Err(e),
            },
        }
    }

    proof fn lemma_spec_go(&self, emit: bool, c: Cursor<I, E, S>) {
        self.parser.lemma_spec_go(emit, c);
    }

    proof fn lemma_recovered(&self, emit: bool, c: Cursor<I, E, S>, errors: Seq<E::Model>) {
        self.parser.lemma_recovered(emit, c, errors);
    }

    /// A run does not depend on its kind if a run of the parser does not.
    open spec fn mode_free(&self) -> bool {
        self.parser.mode_free()
    }

    proof fn lemma_modes(&self, c: Cursor<I, E, S>) {
        self.parser.lemma_modes(c);
    }

    fn go<M: Mode>(&self, inp: &mut InputRef<I, E, S>) -> (r: PResult<O, E>) {
        let before = inp.save();
        let out = self.parser.go::<M>(inp)?;
        let span = inp.span_since(before);
        Ok(M::map(out, |a: OA| -> (o: O)
            ensures
                call_ensures(self.mapper, (a, span), o),
            { (self.mapper)(a, span) }))
    }
}

/// A parser whose output is changed by a function that also gets the span
/// of what was read and the user's state, and gives the state back: the
/// function reads the state through `&S` and returns the new state beside
/// its result. See `spec_go`.
pub struct MapWithState<A, OA: Modeled, O: Modeled, S: Modeled, F> {
    /// The parser.
    pub parser: A,
    /// The function.
    pub mapper: F,
    /// What `mapper` computes, on models.
    pub model: Ghost<spec_fn(OA::Model, Span, S::Model) -> (O::Model, S::Model)>,
    /// The types that the parser is about.
    pub phantom: PhantomData<(OA, O, S)>,
}

impl<A, OA, O, S, F> MapWithState<A, OA, O, S, F> where
    OA: Modeled,
    O: Modeled,
    S: Modeled,
    F: Fn(OA, Span, &S) -> (O, S),
 {
    /// `parser`, with `mapper` applied to its output, its span and the
    /// state.
    pub fn new(parser: A, mapper: F) -> (r: Self)
        ensures
            r.parser == parser,
            r.mapper == mapper,
            r.model@ == |v: OA::Model, span: Span, s: S::Model| {
                model3::<F, OA, Span, &S, (O, S)>(mapper, v, span, s)
            },
    {
        let ghost model = |v: OA::Model, span: Span, s: S::Model| {
            model3::<F, OA, Span, &S, (O, S)>(mapper, v, span, s)
        };
        MapWithState { parser, mapper, model: Ghost(model), phantom: PhantomData }
    }

    /// As [`MapWithState::new`], where `model` says what `mapper` computes.
    pub fn with_model(
        parser: A,
        mapper: F,
        model: Ghost<spec_fn(OA::Model, Span, S::Model) -> (O::Model, S::Model)>,
    ) -> (r: Self)
        ensures
            r.parser == parser,
            r.mapper == mapper,
            r.model == model,
    {
        MapWithState { parser, mapper, model, phantom: PhantomData }
    }
}

impl<I, O, E, S, A, OA, F> Parser<I, O, E, S> for MapWithState<A, OA, O, S, F> where
    I: Input,
    O: Modeled,
    OA: Modeled,
    E: Error<I>,
    S: Modeled,
    A: Parser<I, OA, E, S>,
    F: Fn(OA, Span, &S) -> (O, S),
 {
    /// The parser can be run, and `model` says what the function computes.
    open spec fn wf(&self) -> bool {
        self.parser.wf() && computes3::<F, OA, Span, &S, (O, S)>(self.mapper, self.model@)
    }

    /// The parser runs for its output. If it succeeds, the run succeeds.
    /// Where the run is for its output, the function is applied to the
    /// parser's output, to the span from where the run started to where it
    /// stopped, and to the state: the first part of what it gives is the
    /// output, and the second part is the state from then on. Where the run
    /// is only to validate, the function is not applied, and the state
    /// stays as the parser left it.
    open spec fn spec_go(&self, emit: bool, c: Cursor<I, E, S>) -> Outcome<I, O::Model, E, S> {
        let a = self.parser.spec_go(true, c);
        match a.result {
            Err(e) => Outcome { cursor: a.cursor, result: Err(e) },
            Ok(v) => {
                let r = (self.model@)(v, a.cursor.span_since(c.offset), a.cursor.state);
                Outcome {
                    cursor: if emit {
                        a.cursor.with_state(r.1)
                    } else {
                        a.cursor
                    },
                    result: Ok(r.0),
                }
            },
        }
    }

    proof fn lemma_spec_go(&self, emit: bool, c: Cursor<I, E, S>) {
        self.parser.lemma_spec_go(true, c);
    }

    proof fn lemma_recovered(&self, emit: bool, c: Cursor<I, E, S>, errors: Seq<E::Model>) {
        self.parser.lemma_recovered(true, c, errors);
    }

    /// A run does not depend on its kind if the function leaves the state
    /// as it is.
    open spec fn mode_free(&self) -> bool {
        forall|v: OA::Model, span: Span, s: S::Model| #[trigger] (self.model@)(v, span, s).1 == s
    }

    proof fn lemma_modes(&self, c: Cursor<I, E, S>) {
        let a = self.parser.spec_go(true, c);
        if let Ok(v) = a.result {
            let r = (self.model@)(v, a.cursor.span_since(c.offset), a.cursor.state);
            assert(a.cursor.with_state(r.1) == a.cursor);
        }
    }

    fn go<M: Mode>(&self, inp: &mut InputRef<I, E, S>) -> (r: PResult<O, E>) {
        let before = inp.save();
        let out = self.parser.go::<Emit>(inp)?.unwrap();
        let span = inp.span_since(before);
        let state = inp.state_ref();
        let made = M::bind(|| -> (r: (O, S))
            ensures
                call_ensures(self.mapper, (out, span, state), r),
            { (self.mapper)(out, span, state) });
        match made {
            Some((o, s)) => {
                *inp.state() = s;
                Ok(Some(o))
            },
            None => Ok(None),
        }
    }
}

/// A parser whose output is changed by a function that may reject it. See
/// `spec_go`.
pub struct TryMap<A, OA: Modeled, O: Modeled, E: Modeled, F> {
    /// The parser.
    pub parser: A,
    /// The function.
    pub mapper: F,
    /// What `mapper` computes, on models.
    pub model: Ghost<spec_fn(OA::Model, Span) -> Result<O::Model, E::Model>>,
    /// The types that the parser is about.
    pub phantom: PhantomData<(OA, O, E)>,
}

impl<A, OA, O, E, F> TryMap<A, OA, O, E, F> where
    OA: Modeled,
    O: Modeled,
    E: Modeled,
    F: Fn(OA, Span) -> Result<O, E>,
 {
    /// `parser`, with `mapper` applied to its output and span.
    pub fn new(parser: A, mapper: F) -> (r: Self)
        ensures
            r.parser == parser,
            r.mapper == mapper,
            r.model@ == |v: OA::Model, span: Span| {
                model2::<F, OA, Span, Result<O, E>>(mapper, v, span)
            },
    {
        let ghost model = |v: OA::Model, span: Span| {
            model2::<F, OA, Span, Result<O, E>>(mapper, v, span)
        };
        TryMap { parser, mapper, model: Ghost(model), phantom: PhantomData }
    }

    /// As [`TryMap::new`], where `model` says what `mapper` computes.
    pub fn with_model(
        parser: A,
        mapper: F,
        model: Ghost<spec_fn(OA::Model, Span) -> Result<O::Model, E::Model>>,
    ) -> (r: Self)
        ensures
            r.parser == parser,
            r.mapper == mapper,
            r.model == model,
    {
        TryMap { parser, mapper, model, phantom: PhantomData }
    }
}

impl<I, O, E, S, A, OA, F> Parser<I, O, E, S> for TryMap<A, OA, O, E, F> where
    I: Input,
    O: Modeled,
    OA: Modeled,
    E: Error<I>,
    S: Modeled,
    A: Parser<I, OA, E, S>,
    F: Fn(OA, Span) -> Result<O, E>,
 {
    /// The parser can be run, and `model` says what the function computes.
    open spec fn wf(&self) -> bool {
        self.parser.wf() && computes2::<F, OA, Span, Result<O, E>>(self.mapper, self.model@)
    }

    /// The parser runs for its output. If it succeeds, the function is
    /// applied to the output and to the span from where the run started to
    /// where it stopped. The run succeeds with what the function accepts,
    /// and fails with the error that the function gives, raised at the
    /// offset at which the parser stopped; the cursor stays there.
    open spec fn spec_go(&self, emit: bool, c: Cursor<I, E, S>) -> Outcome<I, O::Model, E, S> {
        let a = self.parser.spec_go(true, c);
        Outcome {
            cursor: a.cursor,
            result: match a.result {
                Err(e) => Err(e),
                Ok(v) => match (self.model@)(
                    v,
                    a.cursor.span_since(c.offset),
                ) {
                    Ok(o) => Ok(o),
                    Err(e) => Err(Located { pos: a.cursor.offset as usize, err: e }),
                },
            },
        }
    }

    proof fn lemma_spec_go(&self, emit: bool, c: Cursor<I, E, S>) {
        self.parser.lemma_spec_go(true, c);
    }

    proof fn lemma_recovered(&self, emit: bool, c: Cursor<I, E, S>, errors: Seq<E::Model>) {
        self.parser.lemma_recovered(true, c, errors);
    }

    /// Both kinds of run run the parser in the same way.
    open spec fn mode_free(&self) -> bool {
        true
    }

    proof fn lemma_modes(&self, c: Cursor<I, E, S>) {
    }

    fn go<M: Mode>(&self, inp: &mut InputRef<I, E, S>) -> (r: PResult<O, E>) {
        let before = inp.save();
        let out = self.parser.go::<Emit>(inp)?;
        let span = inp.span_since(before);
        match (self.mapper)(out.unwrap(), span) {
            Ok(o) => Ok(M::bind(|| -> (r: O)
                ensures
                    r == o,
                { o })),
            Err(e) => Err(Located::at(inp.last_pos(), e)),
        }
    }
}

/// A parser whose output is changed by a function that may reject it, and
/// that also gets the user's state and gives it back: the function reads
/// the state through `&S` and returns the new state beside its result. See
/// `spec_go`.
pub struct TryMapWithState<A, OA: Modeled, O: Modeled, E: Modeled, S: Modeled, F> {
    /// The parser.
    pub parser: A,
    /// The function.
    pub mapper: F,
    /// What `mapper` computes, on models.
    pub model: Ghost<spec_fn(OA::Model, Span, S::Model) -> (Result<O::Model, E::Model>, S::Model)>,
    /// The types that the parser is about.
    pub phantom: PhantomData<(OA, O, E, S)>,
}

impl<A, OA, O, E, S, F> TryMapWithState<A, OA, O, E, S, F> where
    OA: Modeled,
    O: Modeled,
    E: Modeled,
    S: Modeled,
    F: Fn(OA, Span, &S) -> (Result<O, E>, S),
 {
    /// `parser`, with `mapper` applied to its output, its span and the
    /// state.
    pub fn new(parser: A, mapper: F) -> (r: Self)
        ensures
            r.parser == parser,
            r.mapper == mapper,
            r.model@ == |v: OA::Model, span: Span, s: S::Model| {
                model3::<F, OA, Span, &S, (Result<O, E>, S)>(mapper, v, span, s)
            },
    {
        let ghost model = |v: OA::Model, span: Span, s: S::Model| {
            model3::<F, OA, Span, &S, (Result<O, E>, S)>(mapper, v, span, s)
        };
        TryMapWithState { parser, mapper, model: Ghost(model), phantom: PhantomData }
    }

    /// As [`TryMapWithState::new`], where `model` says what `mapper` computes.
    pub fn with_model(
        parser: A,
        mapper: F,
        model: Ghost<spec_fn(OA::Model, Span, S::Model) -> (Result<O::Model, E::Model>, S::Model)>,
    ) -> (r: Self)
        ensures
            r.parser == parser,
            r.mapper == mapper,
            r.model == model,
    {
        TryMapWithState { parser, mapper, model, phantom: PhantomData }
    }
}

impl<I, O, E, S, A, OA, F> Parser<I, O, E, S> for TryMapWithState<A, OA, O, E, S, F> where
    I: Input,
    O: Modeled,
    OA: Modeled,
    E: Error<I>,
    S: Modeled,
    A: Parser<I, OA, E, S>,
    F: Fn(OA, Span, &S) -> (Result<O, E>, S),
 {
    /// The parser can be run, and `model` says what the function computes.
    open spec fn wf(&self) -> bool {
        self.parser.wf() && computes3::<F, OA, Span, &S, (Result<O, E>, S)>(
            self.mapper,
            self.model@,
        )
    }

    /// As for [`TryMap`], with a function that also gets the state: the
    /// second part of what it gives is the state from then on, whether it
    /// accepted the output or not.
    open spec fn spec_go(&self, emit: bool, c: Cursor<I, E, S>) -> Outcome<I, O::Model, E, S> {
        let a = self.parser.spec_go(true, c);
        match a.result {
            Err(e) => Outcome { cursor: a.cursor, result: Err(e) },
            Ok(v) => {
                let r = (self.model@)(
                    v,
                    a.cursor.span_since(c.offset),
                    a.cursor.state,
                );
                Outcome {
                    cursor: a.cursor.with_state(r.1),
                    result: match r.0 {
                        Ok(o) => Ok(o),
                        Err(e) => Err(Located { pos: a.cursor.offset as usize, err: e }),
                    },
                }
            },
        }
    }

    proof fn lemma_spec_go(&self, emit: bool, c: Cursor<I, E, S>) {
        self.parser.lemma_spec_go(true, c);
    }

    proof fn lemma_recovered(&self, emit: bool, c: Cursor<I, E, S>, errors: Seq<E::Model>) {
        self.parser.lemma_recovered(true, c, errors);
    }

    /// Both kinds of run run the parser in the same way.
    open spec fn mode_free(&self) -> bool {
        true
    }

    proof fn lemma_modes(&self, c: Cursor<I, E, S>) {
    }

    fn go<M: Mode>(&self, inp: &mut InputRef<I, E, S>) -> (r: PResult<O, E>) {
        let before = inp.save();
        let out = self.parser.go::<Emit>(inp)?;
        let span = inp.span_since(before);
        let state = inp.state();
        let (res, s) = (self.mapper)(out.unwrap(), span, &*state);
        *state = s;
        match res {
            Ok(o) => Ok(M::bind(|| -> (r: O)
                ensures
                    r == o,
                { o })),
            Err(e) => Err(Located::at(inp.last_pos(), e)),
        }
    }
}

/// A parser whose output is replaced by a fixed value. See `spec_go`.
pub struct To<A, OA, O, E, S> {
    /// The parser.
    pub parser: A,
    /// The value.
    pub to: O,
    /// The types that the parser is about.
    pub phantom: PhantomData<(OA, E, S)>,
}

/// A parser whose output is dropped.
pub type Ignored<A, OA, E, S> = To<A, OA, (), E, S>;

impl<A, OA, O, E, S> To<A, OA, O, E, S> {
    /// `parser`, with the output `to`.
    pub fn new(parser: A, to: O) -> (r: Self)
        ensures
            r.parser == parser,
            r.to == to,
    {
        To { parser, to, phantom: PhantomData }
    }
}

impl<I, O, E, S, A, OA> Parser<I, O, E, S> for To<A, OA, O, E, S> where
    I: Input,
    O: Modeled + Clone,
    OA: Modeled,
    E: Error<I>,
    S: Modeled,
    A: Parser<I, OA, E, S>,
 {
    /// A copy of the value stands for the same as the value.
    open spec fn wf(&self) -> bool {
        &&& self.parser.wf()
        &&& forall|v: O| cloned(self.to, v) ==> v.model() == self.to.model()
    }

    /// The run is the parser's run, with the fixed value for its output.
    open spec fn spec_go(&self, emit: bool, c: Cursor<I, E, S>) -> Outcome<I, O::Model, E, S> {
        let a = self.parser.spec_go(false, c);
        Outcome {
            cursor: a.cursor,
            result: match a.result {
                Ok(_) => Ok(self.to.model()),
                Err(e) => Err(e),
            },
        }
    }

    proof fn lemma_spec_go(&self, emit: bool, c: Cursor<I, E, S>) {
        self.parser.lemma_spec_go(false, c);
    }

    proof fn lemma_recovered(&self, emit: bool, c: Cursor<I, E, S>, errors: Seq<E::Model>) {
        self.parser.lemma_recovered(false, c, errors);
    }

    /// Both kinds of run run the parser in the same way.
    open spec fn mode_free(&self) -> bool {
        true
    }

    proof fn lemma_modes(&self, c: Cursor<I, E, S>) {
    }

    fn go<M: Mode>(&self, inp: &mut InputRef<I, E, S>) -> (r: PResult<O, E>) {
        let _ = self.parser.go::<Check>(inp)?;
        Ok(M::bind(|| -> (r: O)
            ensures
                cloned(self.to, r),
            { self.to.clone() }))
    }
}

/// A parser whose output must pass a test. See `spec_go`.
pub struct Filter<A, O: Modeled, F> {
    /// The parser.
    pub parser: A,
    /// The test.
    pub filter: F,
    /// What `filter` computes, on models.
    pub model: Ghost<spec_fn(O::Model) -> bool>,
    /// The types that the parser is about.
    pub phantom: PhantomData<O>,
}

impl<A, O: Modeled, F: Fn(&O) -> bool> Filter<A, O, F> {
    /// `parser`, where `filter` holds of its output.
    pub fn new(parser: A, filter: F) -> (r: Self)
        ensures
            r.parser == parser,
            r.filter == filter,
            r.model@ == |v: O::Model| model1::<F, &O, bool>(filter, v),
    {
        let ghost model = |v: O::Model| model1::<F, &O, bool>(filter, v);
        Filter { parser, filter, model: Ghost(model), phantom: PhantomData }
    }

    /// As [`Filter::new`], where `model` says what `filter` computes.
    pub fn with_model(parser: A, filter: F, model: Ghost<spec_fn(O::Model) -> bool>) -> (r: Self)
        ensures
            r.parser == parser,
            r.filter == filter,
            r.model == model,
    {
        Filter { parser, filter, model, phantom: PhantomData }
    }
}

impl<I, O, E, S, A, F> Parser<I, O, E, S> for Filter<A, O, F> where
    I: Input,
    O: Modeled,
    E: Error<I>,
    S: Modeled,
    A: Parser<I, O, E, S>,
    F: Fn(&O) -> bool,
 {
    /// The parser can be run, and `model` says what the function computes.
    open spec fn wf(&self) -> bool {
        self.parser.wf() && computes1::<F, &O, bool>(self.filter, self.model@)
    }

    /// The parser runs for its output. If it succeeds, the run succeeds
    /// with the same output where the test holds of it. Where the test does
    /// not hold, the run fails with an error that names nothing expected and
    /// nothing found, raised at the offset at which the run started and
    /// spanning what the parser read; the cursor stays where the parser
    /// stopped.
    open spec fn spec_go(&self, emit: bool, c: Cursor<I, E, S>) -> Outcome<I, O::Model, E, S> {
        let a = self.parser.spec_go(true, c);
        Outcome {
            cursor: a.cursor,
            result: match a.result {
                Err(e) => Err(e),
                Ok(v) => if (self.model@)( v) {
                    Ok(v)
                } else {
                    Err(
                        Located {
                            pos: c.offset as usize,
                            err: E::spec_expected_found(
                                Seq::empty(),
                                None,
                                a.cursor.span_since(c.offset),
                            ),
                        },
                    )
                },
            },
        }
    }

    proof fn lemma_spec_go(&self, emit: bool, c: Cursor<I, E, S>) {
        self.parser.lemma_spec_go(true, c);
    }

    proof fn lemma_recovered(&self, emit: bool, c: Cursor<I, E, S>, errors: Seq<E::Model>) {
        self.parser.lemma_recovered(true, c, errors);
    }

    /// Both kinds of run run the parser in the same way.
    open spec fn mode_free(&self) -> bool {
        true
    }

    proof fn lemma_modes(&self, c: Cursor<I, E, S>) {
    }

    fn go<M: Mode>(&self, inp: &mut InputRef<I, E, S>) -> (r: PResult<O, E>) {
        let before = inp.save();
        let out = self.parser.go::<Emit>(inp)?.unwrap();
        if (self.filter)(&out) {
            Ok(M::bind(|| -> (r: O)
                ensures
                    r == out,
                { out }))
        } else {
            let span = inp.span_since(before);
            proof {
                lemma_models_empty::<Option<I::Token>>();
            }
            Err(Located::at(before, E::expected_found(Vec::new(), None, span)))
        }
    }
}

/// A parser whose output is made from the range of input that it read. See
/// `spec_go`.
pub struct MapSlice<A, F, I: SliceInput, O: Modeled, E, S> {
    /// The parser.
    pub parser: A,
    /// The function.
    pub mapper: F,
    /// What `mapper` computes, on models.
    pub model: Ghost<spec_fn(<I::Slice as Modeled>::Model) -> O::Model>,
    /// The types that the parser is about.
    pub phantom: PhantomData<(I, O, E, S)>,
}

impl<A, F: Fn(I::Slice) -> O, I: SliceInput, O: Modeled, E, S> MapSlice<A, F, I, O, E, S> {
    /// `parser`, with `mapper` applied to what it read.
    pub fn new(parser: A, mapper: F) -> (r: Self)
        ensures
            r.parser == parser,
            r.mapper == mapper,
            r.model@ == |v: <I::Slice as Modeled>::Model| model1::<F, I::Slice, O>(mapper, v),
    {
        let ghost model = |v: <I::Slice as Modeled>::Model| model1::<F, I::Slice, O>(mapper, v);
        MapSlice { parser, mapper, model: Ghost(model), phantom: PhantomData }
    }

    /// As [`MapSlice::new`], where `model` says what `mapper` computes.
    pub fn with_model(
        parser: A,
        mapper: F,
        model: Ghost<spec_fn(<I::Slice as Modeled>::Model) -> O::Model>,
    ) -> (r: Self)
        ensures
            r.parser == parser,
            r.mapper == mapper,
            r.model == model,
    {
        MapSlice { parser, mapper, model, phantom: PhantomData }
    }
}

impl<I, O, E, S, A, F> Parser<I, O, E, S> for MapSlice<A, F, I, O, E, S> where
    I: SliceInput,
    O: Modeled,
    E: Error<I>,
    S: Modeled,
    A: Parser<I, O, E, S>,
    F: Fn(I::Slice) -> O,
 {
    /// The parser can be run, and `model` says what the function computes.
    open spec fn wf(&self) -> bool {
        self.parser.wf() && computes1::<F, I::Slice, O>(self.mapper, self.model@)
    }

    /// The parser runs, not for its output. If it succeeds, the run
    /// succeeds with what the function gives on the range of input from
    /// where the run started to where it stopped.
    open spec fn spec_go(&self, emit: bool, c: Cursor<I, E, S>) -> Outcome<I, O::Model, E, S> {
        let a = self.parser.spec_go(false, c);
        Outcome {
            cursor: a.cursor,
            result: match a.result {
                Err(e) => Err(e),
                Ok(_) => Ok(
                    (self.model@)(
                        c.input.spec_slice(c.offset, a.cursor.offset),
                    ),
                ),
            },
        }
    }

    proof fn lemma_spec_go(&self, emit: bool, c: Cursor<I, E, S>) {
        self.parser.lemma_spec_go(false, c);
    }

    proof fn lemma_recovered(&self, emit: bool, c: Cursor<I, E, S>, errors: Seq<E::Model>) {
        self.parser.lemma_recovered(false, c, errors);
    }

    /// Both kinds of run run the parser in the same way.
    open spec fn mode_free(&self) -> bool {
        true
    }

    proof fn lemma_modes(&self, c: Cursor<I, E, S>) {
    }

    fn go<M: Mode>(&self, inp: &mut InputRef<I, E, S>) -> (r: PResult<O, E>) {
        let before = inp.save();
        proof {
            self.parser.lemma_spec_go(false, inp@);
        }
        let _ = self.parser.go::<Check>(inp)?;
        let after = inp.save();
        let slice = inp.slice(before, after);
        Ok(M::bind(|| -> (r: O)
            ensures
                call_ensures(self.mapper, (slice,), r),
            { (self.mapper)(slice) }))
    }
}

/// A parser whose output is the range of input that it read. See
/// `spec_go`.
pub struct ToSlice<A, OA> {
    /// The parser.
    pub parser: A,
    /// The types that the parser is about.
    pub phantom: PhantomData<OA>,
}

impl<A, OA> ToSlice<A, OA> {
    /// `parser`, for what it read.
    pub fn new(parser: A) -> (r: Self)
        ensures
            r.parser == parser,
    {
        ToSlice { parser, phantom: PhantomData }
    }
}

impl<I, OA, E, S, A> Parser<I, I::Slice, E, S> for ToSlice<A, OA> where
    I: SliceInput,
    OA: Modeled,
    E: Error<I>,
    S: Modeled,
    A: Parser<I, OA, E, S>,
 {
    /// The parser it is made of can be run.
    open spec fn wf(&self) -> bool {
        self.parser.wf()
    }

    /// The parser runs, not for its output. If it succeeds, the run
    /// succeeds with the range of input from where the run started to where
    /// it stopped.
    open spec fn spec_go(&self, emit: bool, c: Cursor<I, E, S>) -> Outcome<
        I,
        <I::Slice as Modeled>::Model,
        E,
        S,
    > {
        let a = self.parser.spec_go(false, c);
        Outcome {
            cursor: a.cursor,
            result: match a.result {
                Err(e) => Err(e),
                Ok(_) => Ok(c.input.spec_slice(c.offset, a.cursor.offset)),
            },
        }
    }

    proof fn lemma_spec_go(&self, emit: bool, c: Cursor<I, E, S>) {
        self.parser.lemma_spec_go(false, c);
    }

    proof fn lemma_recovered(&self, emit: bool, c: Cursor<I, E, S>, errors: Seq<E::Model>) {
        self.parser.lemma_recovered(false, c, errors);
    }

    /// Both kinds of run run the parser in the same way.
    open spec fn mode_free(&self) -> bool {
        true
    }

    proof fn lemma_modes(&self, c: Cursor<I, E, S>) {
    }

    fn go<M: Mode>(&self, inp: &mut InputRef<I, E, S>) -> (r: PResult<I::Slice, E>) {
        let before = inp.save();
        proof {
            self.parser.lemma_spec_go(false, inp@);
        }
        let _ = self.parser.go::<Check>(inp)?;
        let after = inp.save();
        Ok(M::bind(|| -> (r: I::Slice)
            ensures
                r.model() == inp@.input.spec_slice(before as int, after as int),
            { inp.slice(before, after) }))
    }
}

impl<A: Clone, OA: Modeled, O: Modeled, F: Clone> Clone for Mapped<A, OA, O, F> {
    /// A copy of the parser, made of copies of its parts.
    fn clone(&self) -> (r: Self)
        ensures
            cloned(self.parser, r.parser),
            cloned(self.mapper, r.mapper),
            r.model == self.model,
    {
        Mapped {
            parser: self.parser.clone(),
            mapper: self.mapper.clone(),
            model: self.model,
            phantom: PhantomData,
        }
    }
}

impl<A: Copy, OA: Modeled, O: Modeled, F: Copy> Copy for Mapped<A, OA, O, F> {
}

impl<A: Clone, OA: Modeled, O: Modeled, F: Clone> Clone for MapWithSpan<A, OA, O, F> {
    /// A copy of the parser, made of copies of its parts.
    fn clone(&self) -> (r: Self)
        ensures
            cloned(self.parser, r.parser),
            cloned(self.mapper, r.mapper),
            r.model == self.model,
    {
        MapWithSpan {
            parser: self.parser.clone(),
            mapper: self.mapper.clone(),
            model: self.model,
            phantom: PhantomData,
        }
    }
}

impl<A: Copy, OA: Modeled, O: Modeled, F: Copy> Copy for MapWithSpan<A, OA, O, F> {
}

impl<A, OA, O, S, F> Clone for MapWithState<A, OA, O, S, F> where
    A: Clone,
    OA: Modeled,
    O: Modeled,
    S: Modeled,
    F: Clone,
 {
    /// A copy of the parser, made of copies of its parts.
    fn clone(&self) -> (r: Self)
        ensures
            cloned(self.parser, r.parser),
            cloned(self.mapper, r.mapper),
            r.model == self.model,
    {
        MapWithState {
            parser: self.parser.clone(),
            mapper: self.mapper.clone(),
            model: self.model,
            phantom: PhantomData,
        }
    }
}

impl<A: Copy, OA: Modeled, O: Modeled, S: Modeled, F: Copy> Copy for MapWithState<A, OA, O, S, F> {
}

impl<A: Clone, OA: Modeled, O: Modeled, E: Modeled, F: Clone> Clone for TryMap<A, OA, O, E, F> {
    /// A copy of the parser, made of copies of its parts.
    fn clone(&self) -> (r: Self)
        ensures
            cloned(self.parser, r.parser),
            cloned(self.mapper, r.mapper),
            r.model == self.model,
    {
        TryMap {
            parser: self.parser.clone(),
            mapper: self.mapper.clone(),
            model: self.model,
            phantom: PhantomData,
        }
    }
}

impl<A: Copy, OA: Modeled, O: Modeled, E: Modeled, F: Copy> Copy for TryMap<A, OA, O, E, F> {
}

impl<A, OA, O, E, S, F> Clone for TryMapWithState<A, OA, O, E, S, F> where
    A: Clone,
    OA: Modeled,
    O: Modeled,
    E: Modeled,
    S: Modeled,
    F: Clone,
 {
    /// A copy of the parser, made of copies of its parts.
    fn clone(&self) -> (r: Self)
        ensures
            cloned(self.parser, r.parser),
            cloned(self.mapper, r.mapper),
            r.model == self.model,
    {
        TryMapWithState {
            parser: self.parser.clone(),
            mapper: self.mapper.clone(),
            model: self.model,
            phantom: PhantomData,
        }
    }
}

impl<A, OA, O, E, S, F> Copy for TryMapWithState<A, OA, O, E, S, F> where
    A: Copy,
    OA: Modeled,
    O: Modeled,
    E: Modeled,
    S: Modeled,
    F: Copy,
 {
}

impl<A: Clone, OA, O: Clone, E, S> Clone for To<A, OA, O, E, S> {
    /// A copy of the parser, made of copies of its parts.
    fn clone(&self) -> (r: Self)
        ensures
            cloned(self.parser, r.parser),
            cloned(self.to, r.to),
    {
        To { parser: self.parser.clone(), to: self.to.clone(), phantom: PhantomData }
    }
}

impl<A: Copy, OA, O: Copy, E, S> Copy for To<A, OA, O, E, S> {
}

impl<A: Clone, O: Modeled, F: Clone> Clone for Filter<A, O, F> {
    /// A copy of the parser, made of copies of its parts.
    fn clone(&self) -> (r: Self)
        ensures
            cloned(self.parser, r.parser),
            cloned(self.filter, r.filter),
            r.model == self.model,
    {
        Filter {
            parser: self.parser.clone(),
            filter: self.filter.clone(),
            model: self.model,
            phantom: PhantomData,
        }
    }
}

impl<A: Copy, O: Modeled, F: Copy> Copy for Filter<A, O, F> {
}

impl<A: Clone, F: Clone, I: SliceInput, O: Modeled, E, S> Clone for MapSlice<A, F, I, O, E, S> {
    /// A copy of the parser, made of copies of its parts.
    fn clone(&self) -> (r: Self)
        ensures
            cloned(self.parser, r.parser),
            cloned(self.mapper, r.mapper),
            r.model == self.model,
    {
        MapSlice {
            parser: self.parser.clone(),
            mapper: self.mapper.clone(),
            model: self.model,
            phantom: PhantomData,
        }
    }
}

impl<A: Copy, F: Copy, I: SliceInput, O: Modeled, E, S> Copy for MapSlice<A, F, I, O, E, S> {
}

impl<A: Clone, OA> Clone for ToSlice<A, OA> {
    /// A copy of the parser, made of copies of its parts.
    fn clone(&self) -> (r: Self)
        ensures
            cloned(self.parser, r.parser),
    {
        ToSlice { parser: self.parser.clone(), phantom: PhantomData }
    }
}

impl<A: Copy, OA> Copy for ToSlice<A, OA> {
}

} // verus!
