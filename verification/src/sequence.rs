//! Sequencing: one parser after another.

use crate::error::{Error, Located};
use crate::input::{Cursor, Input, InputRef, Span};
use crate::mode::{Check, Emit, Mode};
use crate::model::Modeled;
use crate::parser::{lemma_recovered_after, Outcome, PResult, Parser};
use core::marker::PhantomData;
use vstd::pervasive::cloned;
use vstd::prelude::*;

verus! {

/// Two parsers, one after the other, with the outputs of both. See
/// `spec_go`.
pub struct Then<A, B, OA, OB, E, S> {
    /// The first parser.
    pub parser_a: A,
    /// The second parser.
    pub parser_b: B,
    /// The types that the parser is about.
    pub phantom: PhantomData<(OA, OB, E, S)>,
}

impl<A, B, OA, OB, E, S> Then<A, B, OA, OB, E, S> {
    /// `parser_a`, then `parser_b`.
    pub fn new(parser_a: A, parser_b: B) -> (r: Self)
        ensures
            r.parser_a == parser_a,
            r.parser_b == parser_b,
    {
        Then { parser_a, parser_b, phantom: PhantomData }
    }
}

impl<I, E, S, A, B, OA, OB> Parser<I, (OA, OB), E, S> for Then<A, B, OA, OB, E, S> where
    I: Input,
    OA: Modeled,
    OB: Modeled,
    E: Error<I>,
    S: Modeled,
    A: Parser<I, OA, E, S>,
    B: Parser<I, OB, E, S>,
 {
    /// The parsers it is made of can be run.
    open spec fn wf(&self) -> bool {
        self.parser_a.wf() && self.parser_b.wf()
    }

    /// The second parser runs from where the first one stopped. The run
    /// succeeds with both outputs if both succeed. It fails with the error
    /// of the first that fails, the cursor left where that failure left
    /// it; the second parser is not run if the first fails.
    open spec fn spec_go(&self, emit: bool, c: Cursor<I, E, S>) -> Outcome<
        I,
        (OA::Model, OB::Model),
        E,
        S,
    > {
        let a = self.parser_a.spec_go(emit, c);
        match a.result {
            Err(e) => Outcome { cursor: a.cursor, result: Err(e) },
            Ok(va) => {
                let b = self.parser_b.spec_go(emit, a.cursor);
                match b.result {
                    Err(e) => Outcome { cursor: b.cursor, result: Err(e) },
                    Ok(vb) => Outcome { cursor: b.cursor, result: Ok((va, vb)) },
                }
            },
        }
    }

    proof fn lemma_spec_go(&self, emit: bool, c: Cursor<I, E, S>) {
        self.parser_a.lemma_spec_go(emit, c);
        self.parser_b.lemma_spec_go(emit, self.parser_a.spec_go(emit, c).cursor);
    }

    proof fn lemma_recovered(&self, emit: bool, c: Cursor<I, E, S>, errors: Seq<E::Model>) {
        self.parser_a.lemma_recovered(emit, c, errors);
        self.parser_a.lemma_spec_go(emit, c);
        let a = self.parser_a.spec_go(emit, c);
        let a2 = self.parser_a.spec_go(emit, c.with_errors(errors));
        lemma_recovered_after(&self.parser_b, emit, a.cursor, c.errors, a2.cursor, errors);
    }

    /// A run does not depend on its kind if runs of the two parsers do not.
    open spec fn mode_free(&self) -> bool {
        self.parser_a.mode_free() && self.parser_b.mode_free()
    }

    proof fn lemma_modes(&self, c: Cursor<I, E, S>) {
        self.parser_a.lemma_modes(c);
        self.parser_a.lemma_spec_go(true, c);
        self.parser_b.lemma_modes(self.parser_a.spec_go(true, c).cursor);
    }

    fn go<M: Mode>(&self, inp: &mut InputRef<I, E, S>) -> (r: PResult<(OA, OB), E>) {
        let a = self.parser_a.go::<M>(inp)?;
        let b = self.parser_b.go::<M>(inp)?;
        Ok(M::combine(a, b, |a: OA, b: OB| -> (r: (OA, OB))
            ensures
                r == (a, b),
            { (a, b) }))
    }
}

/// Two parsers, one after the other, with the output of the second. See
/// `spec_go`.
pub struct IgnoreThen<A, B, OA, E, S> {
    /// The first parser.
    pub parser_a: A,
    /// The second parser.
    pub parser_b: B,
    /// The types that the parser is about.
    pub phantom: PhantomData<(OA, E, S)>,
}

impl<A, B, OA, E, S> IgnoreThen<A, B, OA, E, S> {
    /// `parser_a`, then `parser_b`, for the output of `parser_b`.
    pub fn new(parser_a: A, parser_b: B) -> (r: Self)
        ensures
            r.parser_a == parser_a,
            r.parser_b == parser_b,
    {
        IgnoreThen { parser_a, parser_b, phantom: PhantomData }
    }
}

impl<I, E, S, A, B, OA, OB> Parser<I, OB, E, S> for IgnoreThen<A, B, OA, E, S> where
    I: Input,
    OA: Modeled,
    OB: Modeled,
    E: Error<I>,
    S: Modeled,
    A: Parser<I, OA, E, S>,
    B: Parser<I, OB, E, S>,
 {
    /// The parsers it is made of can be run.
    open spec fn wf(&self) -> bool {
        self.parser_a.wf() && self.parser_b.wf()
    }

    /// As for [`Then`], but the output is that of the second parser alone.
    open spec fn spec_go(&self, emit: bool, c: Cursor<I, E, S>) -> Outcome<I, OB::Model, E, S> {
        let a = self.parser_a.spec_go(false, c);
        match a.result {
            Err(e) => Outcome { cursor: a.cursor, result: Err(e) },
            Ok(_) => self.parser_b.spec_go(emit, a.cursor),
        }
    }

    proof fn lemma_spec_go(&self, emit: bool, c: Cursor<I, E, S>) {
        self.parser_a.lemma_spec_go(false, c);
        self.parser_b.lemma_spec_go(emit, self.parser_a.spec_go(false, c).cursor);
    }

    proof fn lemma_recovered(&self, emit: bool, c: Cursor<I, E, S>, errors: Seq<E::Model>) {
        self.parser_a.lemma_recovered(false, c, errors);
        self.parser_a.lemma_spec_go(false, c);
        let a = self.parser_a.spec_go(false, c);
        let a2 = self.parser_a.spec_go(false, c.with_errors(errors));
        lemma_recovered_after(&self.parser_b, emit, a.cursor, c.errors, a2.cursor, errors);
    }

    /// A run does not depend on its kind if a run of the second parser does not.
    open spec fn mode_free(&self) -> bool {
        self.parser_b.mode_free()
    }

    proof fn lemma_modes(&self, c: Cursor<I, E, S>) {
        self.parser_a.lemma_spec_go(false, c);
        self.parser_b.lemma_modes(self.parser_a.spec_go(false, c).cursor);
    }

    fn go<M: Mode>(&self, inp: &mut InputRef<I, E, S>) -> (r: PResult<OB, E>) {
        let _a = self.parser_a.go::<Check>(inp)?;
        let b = self.parser_b.go::<M>(inp)?;
        Ok(b)
    }
}

/// Two parsers, one after the other, with the output of the first. See
/// `spec_go`.
pub struct ThenIgnore<A, B, OB, E, S> {
    /// The first parser.
    pub parser_a: A,
    /// The second parser.
    pub parser_b: B,
    /// The types that the parser is about.
    pub phantom: PhantomData<(OB, E, S)>,
}

impl<A, B, OB, E, S> ThenIgnore<A, B, OB, E, S> {
    /// `parser_a`, then `parser_b`, for the output of `parser_a`.
    pub fn new(parser_a: A, parser_b: B) -> (r: Self)
        ensures
            r.parser_a == parser_a,
            r.parser_b == parser_b,
    {
        ThenIgnore { parser_a, parser_b, phantom: PhantomData }
    }
}

impl<I, E, S, A, B, OA, OB> Parser<I, OA, E, S> for ThenIgnore<A, B, OB, E, S> where
    I: Input,
    OA: Modeled,
    OB: Modeled,
    E: Error<I>,
    S: Modeled,
    A: Parser<I, OA, E, S>,
    B: Parser<I, OB, E, S>,
 {
    /// The parsers it is made of can be run.
    open spec fn wf(&self) -> bool {
        self.parser_a.wf() && self.parser_b.wf()
    }

    /// As for [`Then`], but the output is that of the first parser alone.
    open spec fn spec_go(&self, emit: bool, c: Cursor<I, E, S>) -> Outcome<I, OA::Model, E, S> {
        let a = self.parser_a.spec_go(emit, c);
        match a.result {
            Err(_) => a,
            Ok(va) => {
                let b = self.parser_b.spec_go(false, a.cursor);
                match b.result {
                    Err(e) => Outcome { cursor: b.cursor, result: Err(e) },
                    Ok(_) => Outcome { cursor: b.cursor, result: Ok(va) },
                }
            },
        }
    }

    proof fn lemma_spec_go(&self, emit: bool, c: Cursor<I, E, S>) {
        self.parser_a.lemma_spec_go(emit, c);
        self.parser_b.lemma_spec_go(false, self.parser_a.spec_go(emit, c).cursor);
    }

    proof fn lemma_recovered(&self, emit: bool, c: Cursor<I, E, S>, errors: Seq<E::Model>) {
        self.parser_a.lemma_recovered(emit, c, errors);
        self.parser_a.lemma_spec_go(emit, c);
        let a = self.parser_a.spec_go(emit, c);
        let a2 = self.parser_a.spec_go(emit, c.with_errors(errors));
        lemma_recovered_after(&self.parser_b, false, a.cursor, c.errors, a2.cursor, errors);
    }

    /// A run does not depend on its kind if a run of the first parser does not.
    open spec fn mode_free(&self) -> bool {
        self.parser_a.mode_free()
    }

    proof fn lemma_modes(&self, c: Cursor<I, E, S>) {
        self.parser_a.lemma_modes(c);
    }

    fn go<M: Mode>(&self, inp: &mut InputRef<I, E, S>) -> (r: PResult<OA, E>) {
        let a = self.parser_a.go::<M>(inp)?;
        let _b = self.parser_b.go::<Check>(inp)?;
        Ok(a)
    }
}

/// A parser between an opening and a closing delimiter. See `spec_go`.
pub struct DelimitedBy<A, B, C, OB, OC> {
    /// The parser.
    pub parser: A,
    /// The parser of the opening delimiter.
    pub start: B,
    /// The parser of the closing delimiter.
    pub end: C,
    /// The types that the parser is about.
    pub phantom: PhantomData<(OB, OC)>,
}

impl<A, B, C, OB, OC> DelimitedBy<A, B, C, OB, OC> {
    /// `parser`, between `start` and `end`.
    pub fn new(parser: A, start: B, end: C) -> (r: Self)
        ensures
            r.parser == parser,
            r.start == start,
            r.end == end,
    {
        DelimitedBy { parser, start, end, phantom: PhantomData }
    }
}

impl<I, E, S, A, B, C, OA, OB, OC> Parser<I, OA, E, S> for DelimitedBy<A, B, C, OB, OC> where
    I: Input,
    OA: Modeled,
    OB: Modeled,
    OC: Modeled,
    E: Error<I>,
    S: Modeled,
    A: Parser<I, OA, E, S>,
    B: Parser<I, OB, E, S>,
    C: Parser<I, OC, E, S>,
 {
    /// The parsers it is made of can be run.
    open spec fn wf(&self) -> bool {
        self.parser.wf() && self.start.wf() && self.end.wf()
    }

    /// The opening delimiter, the parser and the closing delimiter run one
    /// after the other. The run succeeds with the parser's output if all
    /// three succeed, and fails with the error of the first that fails, the
    /// cursor left where that failure left it.
    open spec fn spec_go(&self, emit: bool, c: Cursor<I, E, S>) -> Outcome<I, OA::Model, E, S> {
        let s = self.start.spec_go(false, c);
        match s.result {
            Err(e) => Outcome { cursor: s.cursor, result: Err(e) },
            Ok(_) => {
                let a = self.parser.spec_go(emit, s.cursor);
                match a.result {
                    Err(_) => a,
                    Ok(va) => {
                        let e = self.end.spec_go(false, a.cursor);
                        match e.result {
                            Err(err) => Outcome { cursor: e.cursor, result: Err(err) },
                            Ok(_) => Outcome { cursor: e.cursor, result: Ok(va) },
                        }
                    },
                }
            },
        }
    }

    proof fn lemma_spec_go(&self, emit: bool, c: Cursor<I, E, S>) {
        self.start.lemma_spec_go(false, c);
        self.parser.lemma_spec_go(emit, self.start.spec_go(false, c).cursor);
        self.end.lemma_spec_go(
            false,
            self.parser.spec_go(emit, self.start.spec_go(false, c).cursor).cursor,
        );
    }

    proof fn lemma_recovered(&self, emit: bool, c: Cursor<I, E, S>, errors: Seq<E::Model>) {
        self.start.lemma_recovered(false, c, errors);
        self.start.lemma_spec_go(false, c);
        let s = self.start.spec_go(false, c);
        let s2 = self.start.spec_go(false, c.with_errors(errors));
        lemma_recovered_after(&self.parser, emit, s.cursor, c.errors, s2.cursor, errors);
        self.parser.lemma_spec_go(emit, s.cursor);
        let a = self.parser.spec_go(emit, s.cursor);
        let a2 = self.parser.spec_go(emit, s2.cursor);
        lemma_recovered_after(&self.end, false, a.cursor, c.errors, a2.cursor, errors);
    }

    /// A run does not depend on its kind if a run of the parser does not.
    open spec fn mode_free(&self) -> bool {
        self.parser.mode_free()
    }

    proof fn lemma_modes(&self, c: Cursor<I, E, S>) {
        self.start.lemma_spec_go(false, c);
        self.parser.lemma_modes(self.start.spec_go(false, c).cursor);
    }

    fn go<M: Mode>(&self, inp: &mut InputRef<I, E, S>) -> (r: PResult<OA, E>) {
        let _ = self.start.go::<Check>(inp)?;
        let a = self.parser.go::<M>(inp)?;
        let _ = self.end.go::<Check>(inp)?;
        Ok(a)
    }
}

/// A parser with the same padding before and after it. See `spec_go`.
pub struct PaddedBy<A, B, OB> {
    /// The parser.
    pub parser: A,
    /// The parser of the padding.
    pub padding: B,
    /// The types that the parser is about.
    pub phantom: PhantomData<OB>,
}

impl<A, B, OB> PaddedBy<A, B, OB> {
    /// `parser`, between two runs of `padding`.
    pub fn new(parser: A, padding: B) -> (r: Self)
        ensures
            r.parser == parser,
            r.padding == padding,
    {
        PaddedBy { parser, padding, phantom: PhantomData }
    }
}

impl<I, E, S, A, B, OA, OB> Parser<I, OA, E, S> for PaddedBy<A, B, OB> where
    I: Input,
    OA: Modeled,
    OB: Modeled,
    E: Error<I>,
    S: Modeled,
    A: Parser<I, OA, E, S>,
    B: Parser<I, OB, E, S>,
 {
    /// The parsers it is made of can be run.
    open spec fn wf(&self) -> bool {
        self.parser.wf() && self.padding.wf()
    }

    /// The padding, the parser and the padding again run one after the
    /// other. The run succeeds with the parser's output if all three
    /// succeed, and fails with the error of the first that fails, the cursor
    /// left where that failure left it.
    open spec fn spec_go(&self, emit: bool, c: Cursor<I, E, S>) -> Outcome<I, OA::Model, E, S> {
        let s = self.padding.spec_go(false, c);
        match s.result {
            Err(e) => Outcome { cursor: s.cursor, result: Err(e) },
            Ok(_) => {
                let a = self.parser.spec_go(emit, s.cursor);
                match a.result {
                    Err(_) => a,
                    Ok(va) => {
                        let e = self.padding.spec_go(false, a.cursor);
                        match e.result {
                            Err(err) => Outcome { cursor: e.cursor, result: Err(err) },
                            Ok(_) => Outcome { cursor: e.cursor, result: Ok(va) },
                        }
                    },
                }
            },
        }
    }

    proof fn lemma_spec_go(&self, emit: bool, c: Cursor<I, E, S>) {
        self.padding.lemma_spec_go(false, c);
        self.parser.lemma_spec_go(emit, self.padding.spec_go(false, c).cursor);
        self.padding.lemma_spec_go(
            false,
            self.parser.spec_go(emit, self.padding.spec_go(false, c).cursor).cursor,
        );
    }

    proof fn lemma_recovered(&self, emit: bool, c: Cursor<I, E, S>, errors: Seq<E::Model>) {
        self.padding.lemma_recovered(false, c, errors);
        self.padding.lemma_spec_go(false, c);
        let s = self.padding.spec_go(false, c);
        let s2 = self.padding.spec_go(false, c.with_errors(errors));
        lemma_recovered_after(&self.parser, emit, s.cursor, c.errors, s2.cursor, errors);
        self.parser.lemma_spec_go(emit, s.cursor);
        let a = self.parser.spec_go(emit, s.cursor);
        let a2 = self.parser.spec_go(emit, s2.cursor);
        lemma_recovered_after(&self.padding, false, a.cursor, c.errors, a2.cursor, errors);
    }

    /// A run does not depend on its kind if a run of the parser does not.
    open spec fn mode_free(&self) -> bool {
        self.parser.mode_free()
    }

    proof fn lemma_modes(&self, c: Cursor<I, E, S>) {
        self.padding.lemma_spec_go(false, c);
        self.parser.lemma_modes(self.padding.spec_go(false, c).cursor);
    }

    fn go<M: Mode>(&self, inp: &mut InputRef<I, E, S>) -> (r: PResult<OA, E>) {
        let _ = self.padding.go::<Check>(inp)?;
        let a = self.parser.go::<M>(inp)?;
        let _ = self.padding.go::<Check>(inp)?;
        Ok(a)
    }
}

/// A parser followed by a parser made from its output. See `spec_go`.
pub struct ThenWith<A, B, OA: Modeled, F, I, E, S> {
    /// The parser.
    pub parser: A,
    /// The function that makes the second parser.
    pub make: F,
    /// The parser that `make` makes, from the model of an output.
    pub model: Ghost<spec_fn(OA::Model) -> B>,
    /// The types that the parser is about.
    pub phantom: PhantomData<(B, OA, E, S, I)>,
}

impl<A, B, OA: Modeled, F: Fn(OA) -> B, I, E, S> ThenWith<A, B, OA, F, I, E, S> {
    /// Whether the function can make the parser `b` from an output whose
    /// model is `va`.
    pub open spec fn makes(make: F, va: OA::Model, b: B) -> bool {
        exists|a: OA| a.model() == va && #[trigger] call_ensures(make, (a,), b)
    }

    /// A parser that the function makes from an output whose model is `va`.
    pub open spec fn made(make: F, va: OA::Model) -> B {
        choose|b: B| Self::makes(make, va, b)
    }

    /// `parser`, then the parser that `make` makes from its output.
    pub fn new(parser: A, make: F) -> (r: Self)
        ensures
            r.parser == parser,
            r.make == make,
            r.model@ == |va: OA::Model| Self::made(make, va),
    {
        let ghost model = |va: OA::Model| Self::made(make, va);
        ThenWith { parser, make, model: Ghost(model), phantom: PhantomData }
    }

    /// As [`ThenWith::new`], where `model` says which parser `make` makes.
    pub fn with_model(parser: A, make: F, model: Ghost<spec_fn(OA::Model) -> B>) -> (r: Self)
        ensures
            r.parser == parser,
            r.make == make,
            r.model == model,
    {
        ThenWith { parser, make, model, phantom: PhantomData }
    }
}

impl<I, E, S, A, B, OA, OB, F> Parser<I, OB, E, S> for ThenWith<A, B, OA, F, I, E, S> where
    I: Input,
    OA: Modeled,
    OB: Modeled,
    E: Error<I>,
    S: Modeled,
    A: Parser<I, OA, E, S>,
    B: Parser<I, OB, E, S>,
    F: Fn(OA) -> B,
 {
    /// The function is defined on every output, the parsers that it makes
    /// can be run, and they run as the parser that `model` gives for the
    /// output.
    open spec fn wf(&self) -> bool {
        &&& self.parser.wf()
        &&& forall|a: OA| call_requires(self.make, (a,))
        &&& forall|a: OA, b: B| #[trigger]
            call_ensures(self.make, (a,), b) ==> b.wf() && (self.model@)(a.model()).wf()
        &&& forall|a: OA, b: B, emit: bool, c: Cursor<I, E, S>|
            #![trigger call_ensures(self.make, (a,), b), b.spec_go(emit, c)]
            call_ensures(self.make, (a,), b) ==> b.spec_go(emit, c) == (self.model@)(
                a.model(),
            ).spec_go(emit, c)
    }

    /// The first parser runs for its output, and the parser made from the
    /// output runs from where the first one stopped. The run succeeds with
    /// the second parser's output if both succeed. If either fails, the run
    /// fails with its error, the cursor back at the offset at which the run
    /// started.
    ///
    /// (Where `model` gives a parser that cannot be run, which it does for
    /// no output that the first parser can give, the run fails where it
    /// started, with an error that names nothing.)
    open spec fn spec_go(&self, emit: bool, c: Cursor<I, E, S>) -> Outcome<I, OB::Model, E, S> {
        let a = self.parser.spec_go(true, c);
        match a.result {
            Err(e) => Outcome { cursor: a.cursor.rewind(c.offset), result: Err(e) },
            Ok(va) => if (self.model@)(va).wf() {
                let b = (self.model@)(va).spec_go(emit, a.cursor);
                match b.result {
                    Ok(_) => b,
                    Err(e) => Outcome { cursor: b.cursor.rewind(c.offset), result: Err(e) },
                }
            } else {
                Outcome {
                    cursor: a.cursor.rewind(c.offset),
                    result: Err(
                        Located {
                            pos: c.offset as usize,
                            err: E::spec_expected_found(
                                Seq::empty(),
                                None,
                                a.cursor.span_since(c.offset),
                            ),
                        },
                    ),
                }
            },
        }
    }

    proof fn lemma_spec_go(&self, emit: bool, c: Cursor<I, E, S>) {
        self.parser.lemma_spec_go(true, c);
        let a = self.parser.spec_go(true, c);
        if let Ok(va) = a.result {
            if (self.model@)(va).wf() {
                (self.model@)(va).lemma_spec_go(emit, a.cursor);
            }
        }
    }

    proof fn lemma_recovered(&self, emit: bool, c: Cursor<I, E, S>, errors: Seq<E::Model>) {
        self.parser.lemma_recovered(true, c, errors);
        self.parser.lemma_spec_go(true, c);
        let a = self.parser.spec_go(true, c);
        let a2 = self.parser.spec_go(true, c.with_errors(errors));
        if let Ok(va) = a.result {
            if (self.model@)(va).wf() {
                lemma_recovered_after(
                    &(self.model@)(va),
                    emit,
                    a.cursor,
                    c.errors,
                    a2.cursor,
                    errors,
                );
            }
        }
    }

    /// A run does not depend on its kind if runs of the parsers made do
    /// not.
    open spec fn mode_free(&self) -> bool {
        forall|va: OA::Model| #[trigger] (self.model@)(va).wf() ==> (self.model@)(va).mode_free()
    }

    proof fn lemma_modes(&self, c: Cursor<I, E, S>) {
        self.parser.lemma_spec_go(true, c);
        let a = self.parser.spec_go(true, c);
        if let Ok(va) = a.result {
            if (self.model@)(va).wf() {
                (self.model@)(va).lemma_modes(a.cursor);
            }
        }
    }

    fn go<M: Mode>(&self, inp: &mut InputRef<I, E, S>) -> (r: PResult<OB, E>) {
        let ghost emit = M::emits();
        let before = inp.save();
        proof {
            self.parser.lemma_spec_go(true, inp@);
        }
        match self.parser.go::<Emit>(inp) {
            Ok(output) => {
                let output = output.unwrap();
                let ghost va = output.model();
                let second = (self.make)(output);
                proof {
                    second.lemma_spec_go(emit, inp@);
                }
                match second.go::<M>(inp) {
                    Ok(output) => Ok(output),
                    Err(e) => {
                        inp.rewind(before);
                        Err(e)
                    },
                }
            },
            Err(e) => {
                inp.rewind(before);
                Err(e)
            },
        }
    }
}

impl<A: Clone, B: Clone, OA, OB, E, S> Clone for Then<A, B, OA, OB, E, S> {
    /// A copy of the parser, made of copies of its parts.
    fn clone(&self) -> (r: Self)
        ensures
            cloned(self.parser_a, r.parser_a),
            cloned(self.parser_b, r.parser_b),
    {
        Then {
            parser_a: self.parser_a.clone(),
            parser_b: self.parser_b.clone(),
            phantom: PhantomData,
        }
    }
}

impl<A: Copy, B: Copy, OA, OB, E, S> Copy for Then<A, B, OA, OB, E, S> {
}

impl<A: Clone, B: Clone, OA, E, S> Clone for IgnoreThen<A, B, OA, E, S> {
    /// A copy of the parser, made of copies of its parts.
    fn clone(&self) -> (r: Self)
        ensures
            cloned(self.parser_a, r.parser_a),
            cloned(self.parser_b, r.parser_b),
    {
        IgnoreThen {
            parser_a: self.parser_a.clone(),
            parser_b: self.parser_b.clone(),
            phantom: PhantomData,
        }
    }
}

impl<A: Copy, B: Copy, OA, E, S> Copy for IgnoreThen<A, B, OA, E, S> {
}

impl<A: Clone, B: Clone, OB, E, S> Clone for ThenIgnore<A, B, OB, E, S> {
    /// A copy of the parser, made of copies of its parts.
    fn clone(&self) -> (r: Self)
        ensures
            cloned(self.parser_a, r.parser_a),
            cloned(self.parser_b, r.parser_b),
    {
        ThenIgnore {
            parser_a: self.parser_a.clone(),
            parser_b: self.parser_b.clone(),
            phantom: PhantomData,
        }
    }
}

impl<A: Copy, B: Copy, OB, E, S> Copy for ThenIgnore<A, B, OB, E, S> {
}

impl<A: Clone, B: Clone, C: Clone, OB, OC> Clone for DelimitedBy<A, B, C, OB, OC> {
    /// A copy of the parser, made of copies of its parts.
    fn clone(&self) -> (r: Self)
        ensures
            cloned(self.parser, r.parser),
            cloned(self.start, r.start),
            cloned(self.end, r.end),
    {
        DelimitedBy {
            parser: self.parser.clone(),
            start: self.start.clone(),
            end: self.end.clone(),
            phantom: PhantomData,
        }
    }
}

impl<A: Copy, B: Copy, C: Copy, OB, OC> Copy for DelimitedBy<A, B, C, OB, OC> {
}

impl<A: Clone, B: Clone, OB> Clone for PaddedBy<A, B, OB> {
    /// A copy of the parser, made of copies of its parts.
    fn clone(&self) -> (r: Self)
        ensures
            cloned(self.parser, r.parser),
            cloned(self.padding, r.padding),
    {
        PaddedBy {
            parser: self.parser.clone(),
            padding: self.padding.clone(),
            phantom: PhantomData,
        }
    }
}

impl<A: Copy, B: Copy, OB> Copy for PaddedBy<A, B, OB> {
}

impl<A: Clone, B, OA: Modeled, F: Clone, I, E, S> Clone for ThenWith<A, B, OA, F, I, E, S> {
    /// A copy of the parser, made of copies of its parts.
    fn clone(&self) -> (r: Self)
        ensures
            cloned(self.parser, r.parser),
            cloned(self.make, r.make),
            r.model == self.model,
    {
        ThenWith {
            parser: self.parser.clone(),
            make: self.make.clone(),
            model: self.model,
            phantom: PhantomData,
        }
    }
}

impl<A: Copy, B, OA: Modeled, F: Copy, I, E, S> Copy for ThenWith<A, B, OA, F, I, E, S> {
}

} // verus!
