//! Choice and lookahead: alternatives, optional parsers, and parsers that
//! test the input without reading it.

use crate::error::{spec_prioritize, Error, Located};
use crate::input::{Cursor, Input, InputRef};
use crate::mode::{Check, Mode};
use crate::model::{lemma_models_empty, Modeled};
use crate::parser::{lemma_alike_emit, lemma_recovered_after, Outcome, PResult, Parser};
use crate::primitive::unexpected;
use core::marker::PhantomData;
use vstd::pervasive::cloned;
use vstd::prelude::*;

verus! {

/// The first of two parsers that succeeds. See `spec_go`.
pub struct Or<A, B, O> {
    /// The first parser.
    pub parser_a: A,
    /// The second parser.
    pub parser_b: B,
    /// The types that the parser is about.
    pub phantom: PhantomData<O>,
}

impl<A, B, O> Or<A, B, O> {
    /// `parser_a`, or else `parser_b`.
    pub fn new(parser_a: A, parser_b: B) -> (r: Self)
        ensures
            r.parser_a == parser_a,
            r.parser_b == parser_b,
    {
        Or { parser_a, parser_b, phantom: PhantomData }
    }
}

impl<I, O, E, S, A, B> Parser<I, O, E, S> for Or<A, B, O> where
    I: Input,
    O: Modeled,
    E: Error<I>,
    S: Modeled,
    A: Parser<I, O, E, S>,
    B: Parser<I, O, E, S>,
 {
    /// The parsers it is made of can be run.
    open spec fn wf(&self) -> bool {
        self.parser_a.wf() && self.parser_b.wf()
    }

    /// If the first parser succeeds, the run is the first parser's run, and
    /// the second parser is not run at all. Otherwise the cursor goes back
    /// to the offset at which the run started and the second parser runs:
    /// its success is the run's success, and if it fails too, the run fails
    /// with the error that was raised further into the input, or with the
    /// merge of the two if they were raised at the same offset.
    open spec fn spec_go(&self, emit: bool, c: Cursor<I, E, S>) -> Outcome<I, O::Model, E, S> {
        let a = self.parser_a.spec_go(emit, c);
        match a.result {
            Ok(_) => a,
            Err(ea) => {
                let b = self.parser_b.spec_go(emit, a.cursor.rewind(c.offset));
                match b.result {
                    Ok(_) => b,
                    Err(eb) => Outcome {
                        cursor: b.cursor,
                        result: Err(spec_prioritize::<I, E>(ea, eb)),
                    },
                }
            },
        }
    }

    proof fn lemma_spec_go(&self, emit: bool, c: Cursor<I, E, S>) {
        self.parser_a.lemma_spec_go(emit, c);
        self.parser_b.lemma_spec_go(emit, self.parser_a.spec_go(emit, c).cursor.rewind(c.offset));
    }

    proof fn lemma_recovered(&self, emit: bool, c: Cursor<I, E, S>, errors: Seq<E::Model>) {
        self.parser_a.lemma_recovered(emit, c, errors);
        self.parser_a.lemma_spec_go(emit, c);
        let a = self.parser_a.spec_go(emit, c);
        let a2 = self.parser_a.spec_go(emit, c.with_errors(errors));
        lemma_recovered_after(
            &self.parser_b,
            emit,
            a.cursor.rewind(c.offset),
            c.errors,
            a2.cursor.rewind(c.offset),
            errors,
        );
    }

    /// A run does not depend on its kind if runs of the two parsers do not.
    open spec fn mode_free(&self) -> bool {
        self.parser_a.mode_free() && self.parser_b.mode_free()
    }

    proof fn lemma_modes(&self, c: Cursor<I, E, S>) {
        self.parser_a.lemma_modes(c);
        self.parser_a.lemma_spec_go(true, c);
        self.parser_b.lemma_modes(self.parser_a.spec_go(true, c).cursor.rewind(c.offset));
    }

    fn go<M: Mode>(&self, inp: &mut InputRef<I, E, S>) -> (r: PResult<O, E>) {
        let ghost emit = M::emits();
        let before = inp.save();
        proof {
            self.parser_a.lemma_spec_go(emit, inp@);
        }
        match self.parser_a.go::<M>(inp) {
            Ok(out) => Ok(out),
            Err(ea) => {
                inp.rewind(before);
                match self.parser_b.go::<M>(inp) {
                    Ok(out) => Ok(out),
                    Err(eb) => Err(ea.prioritize::<I>(eb)),
                }
            },
        }
    }
}

/// A parser whose failure is recovered from by another. See `spec_go`.
pub struct RecoverWith<A, F> {
    /// The parser.
    pub parser: A,
    /// The parser to fall back on.
    pub fallback: F,
}

impl<A, F> RecoverWith<A, F> {
    /// `parser`, recovered from by `fallback`.
    pub fn new(parser: A, fallback: F) -> (r: Self)
        ensures
            r.parser == parser,
            r.fallback == fallback,
    {
        RecoverWith { parser, fallback }
    }
}

impl<I, O, E, S, A, F> Parser<I, O, E, S> for RecoverWith<A, F> where
    I: Input,
    O: Modeled,
    E: Error<I>,
    S: Modeled,
    A: Parser<I, O, E, S>,
    F: Parser<I, O, E, S>,
 {
    /// The parsers it is made of can be run.
    open spec fn wf(&self) -> bool {
        self.parser.wf() && self.fallback.wf()
    }

    /// If the parser succeeds, the run is the parser's run. Otherwise the
    /// cursor goes back to the offset at which the run started and the
    /// fallback runs. If it succeeds, the run succeeds with the fallback's
    /// output, and the parser's error is kept among the recovered errors.
    /// If it fails, the run fails with the parser's error, not the
    /// fallback's.
    open spec fn spec_go(&self, emit: bool, c: Cursor<I, E, S>) -> Outcome<I, O::Model, E, S> {
        let a = self.parser.spec_go(emit, c);
        match a.result {
            Ok(_) => a,
            Err(e) => {
                let f = self.fallback.spec_go(emit, a.cursor.rewind(c.offset));
                match f.result {
                    Ok(v) => Outcome { cursor: f.cursor.emit(e.err), result: Ok(v) },
                    Err(_) => Outcome { cursor: f.cursor, result: Err(e) },
                }
            },
        }
    }

    proof fn lemma_spec_go(&self, emit: bool, c: Cursor<I, E, S>) {
        self.parser.lemma_spec_go(emit, c);
        self.fallback.lemma_spec_go(emit, self.parser.spec_go(emit, c).cursor.rewind(c.offset));
    }

    proof fn lemma_recovered(&self, emit: bool, c: Cursor<I, E, S>, errors: Seq<E::Model>) {
        self.parser.lemma_recovered(emit, c, errors);
        self.parser.lemma_spec_go(emit, c);
        let a = self.parser.spec_go(emit, c);
        let a2 = self.parser.spec_go(emit, c.with_errors(errors));
        lemma_recovered_after(
            &self.fallback,
            emit,
            a.cursor.rewind(c.offset),
            c.errors,
            a2.cursor.rewind(c.offset),
            errors,
        );
        if let Err(e) = a.result {
            let f = self.fallback.spec_go(emit, a.cursor.rewind(c.offset));
            let f2 = self.fallback.spec_go(emit, a2.cursor.rewind(c.offset));
            lemma_alike_emit(f.cursor, c.errors, f2.cursor, errors, e.err);
        }
    }

    /// A run does not depend on its kind if runs of the two parsers do not.
    open spec fn mode_free(&self) -> bool {
        self.parser.mode_free() && self.fallback.mode_free()
    }

    proof fn lemma_modes(&self, c: Cursor<I, E, S>) {
        self.parser.lemma_modes(c);
        self.parser.lemma_spec_go(true, c);
        self.fallback.lemma_modes(self.parser.spec_go(true, c).cursor.rewind(c.offset));
    }

    fn go<M: Mode>(&self, inp: &mut InputRef<I, E, S>) -> (r: PResult<O, E>) {
        let ghost emit = M::emits();
        let before = inp.save();
        proof {
            self.parser.lemma_spec_go(emit, inp@);
        }
        match self.parser.go::<M>(inp) {
            Ok(out) => Ok(out),
            Err(e) => {
                inp.rewind(before);
                match self.fallback.go::<M>(inp) {
                    Ok(out) => {
                        let Located { pos, err } = e;
                        inp.emit(err);
                        Ok(out)
                    },
                    Err(_) => Err(e),
                }
            },
        }
    }
}

/// A parser that may be absent. See `spec_go`.
pub struct OrNot<A> {
    /// The parser.
    pub parser: A,
}

impl<A> OrNot<A> {
    /// `parser`, or nothing.
    pub fn new(parser: A) -> (r: Self)
        ensures
            r.parser == parser,
    {
        OrNot { parser }
    }
}

impl<I, O, E, S, A> Parser<I, Option<O>, E, S> for OrNot<A> where
    I: Input,
    O: Modeled,
    E: Error<I>,
    S: Modeled,
    A: Parser<I, O, E, S>,
 {
    /// The parser it is made of can be run.
    open spec fn wf(&self) -> bool {
        self.parser.wf()
    }

    /// The run always succeeds: with the parser's output if the parser
    /// succeeds, and else with `None`, the cursor back at the offset at which
    /// the run started.
    open spec fn spec_go(&self, emit: bool, c: Cursor<I, E, S>) -> Outcome<
        I,
        Option<O::Model>,
        E,
        S,
    > {
        let a = self.parser.spec_go(emit, c);
        match a.result {
            Ok(v) => Outcome { cursor: a.cursor, result: Ok(Some(v)) },
            Err(_) => Outcome { cursor: a.cursor.rewind(c.offset), result: Ok(None) },
        }
    }

    proof fn lemma_spec_go(&self, emit: bool, c: Cursor<I, E, S>) {
        self.parser.lemma_spec_go(emit, c);
    }

    proof fn lemma_recovered(&self, emit: bool, c: Cursor<I, E, S>, errors: Seq<E::Model>) {
        self.parser.lemma_recovered(emit, c, errors);
    }

    /// A run does not depend on its kind if a run of the parser does not.
    open spec fn mode_free(&self) -> bool {
        self.parser.mode_free()
    }

    proof fn lemma_modes(&self, c: Cursor<I, E, S>) {
        self.parser.lemma_modes(c);
    }

    fn go<M: Mode>(&self, inp: &mut InputRef<I, E, S>) -> (r: PResult<Option<O>, E>) {
        let ghost emit = M::emits();
        let before = inp.save();
        proof {
            self.parser.lemma_spec_go(emit, inp@);
        }
        match self.parser.go::<M>(inp) {
            Ok(o) => Ok(M::map(o, |v: O| -> (r: Option<O>)
                ensures
                    r == Some(v),
                { Some(v) })),
            Err(_) => {
                inp.rewind(before);
                Ok(M::bind(|| -> (r: Option<O>)
                    ensures
                        r is None,
                    { None }))
            },
        }
    }
}

/// A parser that succeeds where another fails. See `spec_go`.
pub struct Not<A, OA> {
    /// The parser.
    pub parser: A,
    /// The types that the parser is about.
    pub phantom: PhantomData<OA>,
}

impl<A, OA> Not<A, OA> {
    /// What `parser` does not accept.
    pub fn new(parser: A) -> (r: Self)
        ensures
            r.parser == parser,
    {
        Not { parser, phantom: PhantomData }
    }
}

impl<I, E, S, A, OA> Parser<I, (), E, S> for Not<A, OA> where
    I: Input,
    OA: Modeled,
    E: Error<I>,
    S: Modeled,
    A: Parser<I, OA, E, S>,
 {
    /// The parser it is made of can be run.
    open spec fn wf(&self) -> bool {
        self.parser.wf()
    }

    /// The parser is run, and whatever comes of it, the cursor is left at
    /// the offset at which the run started: nothing is read. If the parser
    /// failed, the run succeeds. If the parser succeeded, the run fails: the
    /// token that comes next is reported as found where nothing was
    /// expected.
    open spec fn spec_go(&self, emit: bool, c: Cursor<I, E, S>) -> Outcome<I, (), E, S> {
        let a = self.parser.spec_go(false, c);
        let back = a.cursor.rewind(c.offset);
        Outcome {
            cursor: back,
            result: match a.result {
                Ok(_) => Err(unexpected(back, Seq::empty())),
                Err(_) => Ok(()),
            },
        }
    }

    proof fn lemma_spec_go(&self, emit: bool, c: Cursor<I, E, S>) {
        self.parser.lemma_spec_go(false, c);
    }

    proof fn lemma_recovered(&self, emit: bool, c: Cursor<I, E, S>, errors: Seq<E::Model>) {
        self.parser.lemma_recovered(false, c, errors);
    }

    /// Both kinds of run run the parser in the same way.
    open spec fn mode_free(&self) -> bool {
        true
    }

    proof fn lemma_modes(&self, c: Cursor<I, E, S>) {
    }

    fn go<M: Mode>(&self, inp: &mut InputRef<I, E, S>) -> (r: PResult<(), E>) {
        let before = inp.save();
        proof {
            self.parser.lemma_spec_go(false, inp@);
        }
        let result = self.parser.go::<Check>(inp);
        inp.rewind(before);
        match result {
            Ok(_) => {
                let (at, tok) = inp.next();
                let span = inp.span_since(before);
                inp.rewind(before);
                proof {
                    lemma_models_empty::<Option<I::Token>>();
                }
                Err(Located::at(at, E::expected_found(Vec::new(), tok, span)))
            },
            Err(_) => Ok(M::bind(|| -> (r: ()) { () })),
        }
    }
}

/// A parser guarded by another that must accept the same input. See
/// `spec_go`.
pub struct AndIs<A, B, OB> {
    /// The first parser.
    pub parser_a: A,
    /// The second parser.
    pub parser_b: B,
    /// The types that the parser is about.
    pub phantom: PhantomData<OB>,
}

impl<A, B, OB> AndIs<A, B, OB> {
    /// `parser_a`, where `parser_b` succeeds too.
    pub fn new(parser_a: A, parser_b: B) -> (r: Self)
        ensures
            r.parser_a == parser_a,
            r.parser_b == parser_b,
    {
        AndIs { parser_a, parser_b, phantom: PhantomData }
    }
}

impl<I, E, S, A, B, OA, OB> Parser<I, OA, E, S> for AndIs<A, B, OB> where
    I: Input,
    OA: Modeled,
    OB: Modeled,
    E: Error<I>,
    S: Modeled,
    A: Parser<I, OA, E, S>,
    B: Parser<I, OB, E, S>,
 {
    /// The parsers it is made of can be run.
    open spec fn wf(&self) -> bool {
        self.parser_a.wf() && self.parser_b.wf()
    }

    /// Both parsers run from the offset at which the run started, the
    /// first one first. If both succeed, the run succeeds with the first
    /// parser's output, the cursor at the offset at which the first parser
    /// stopped. If either fails, the run fails with its error, the cursor
    /// back at the offset at which the run started; the second parser is
    /// not run if the first fails.
    open spec fn spec_go(&self, emit: bool, c: Cursor<I, E, S>) -> Outcome<I, OA::Model, E, S> {
        let a = self.parser_a.spec_go(emit, c);
        match a.result {
            Err(e) => Outcome { cursor: a.cursor.rewind(c.offset), result: Err(e) },
            Ok(v) => {
                let b = self.parser_b.spec_go(false, a.cursor.rewind(c.offset));
                match b.result {
                    Ok(_) => Outcome { cursor: b.cursor.rewind(a.cursor.offset), result: Ok(v) },
                    Err(e) => Outcome { cursor: b.cursor.rewind(c.offset), result: Err(e) },
                }
            },
        }
    }

    proof fn lemma_spec_go(&self, emit: bool, c: Cursor<I, E, S>) {
        self.parser_a.lemma_spec_go(emit, c);
        self.parser_b.lemma_spec_go(false, self.parser_a.spec_go(emit, c).cursor.rewind(c.offset));
    }

    proof fn lemma_recovered(&self, emit: bool, c: Cursor<I, E, S>, errors: Seq<E::Model>) {
        self.parser_a.lemma_recovered(emit, c, errors);
        self.parser_a.lemma_spec_go(emit, c);
        let a = self.parser_a.spec_go(emit, c);
        let a2 = self.parser_a.spec_go(emit, c.with_errors(errors));
        lemma_recovered_after(
            &self.parser_b,
            false,
            a.cursor.rewind(c.offset),
            c.errors,
            a2.cursor.rewind(c.offset),
            errors,
        );
    }

    /// A run does not depend on its kind if a run of the first parser does not.
    open spec fn mode_free(&self) -> bool {
        self.parser_a.mode_free()
    }

    proof fn lemma_modes(&self, c: Cursor<I, E, S>) {
        self.parser_a.lemma_modes(c);
    }

    fn go<M: Mode>(&self, inp: &mut InputRef<I, E, S>) -> (r: PResult<OA, E>) {
        let ghost emit = M::emits();
        let before = inp.save();
        proof {
            self.parser_a.lemma_spec_go(emit, inp@);
            self.parser_b.lemma_spec_go(
                false,
                self.parser_a.spec_go(emit, inp@).cursor.rewind(inp@.offset),
            );
        }
        match self.parser_a.go::<M>(inp) {
            Ok(out) => {
                let after = inp.save();
                inp.rewind(before);
                match self.parser_b.go::<Check>(inp) {
                    Ok(_) => {
                        inp.rewind(after);
                        Ok(out)
                    },
                    Err(e) => {
                        inp.rewind(before);
                        Err(e)
                    },
                }
            },
            Err(e) => {
                inp.rewind(before);
                Err(e)
            },
        }
    }
}

/// A parser that looks ahead: it gives its output without reading the
/// input. See `spec_go`.
pub struct Rewind<A> {
    /// The parser.
    pub parser: A,
}

impl<A> Rewind<A> {
    /// `parser`, which reads nothing where it succeeds.
    pub fn new(parser: A) -> (r: Self)
        ensures
            r.parser == parser,
    {
        Rewind { parser }
    }
}

impl<I, O, E, S, A> Parser<I, O, E, S> for Rewind<A> where
    I: Input,
    O: Modeled,
    E: Error<I>,
    S: Modeled,
    A: Parser<I, O, E, S>,
 {
    /// The parser it is made of can be run.
    open spec fn wf(&self) -> bool {
        self.parser.wf()
    }

    /// If the parser succeeds, the run succeeds with its output, the cursor
    /// back at the offset at which the run started. If it fails, the run is
    /// the parser's run: the cursor stays where the failure left it.
    open spec fn spec_go(&self, emit: bool, c: Cursor<I, E, S>) -> Outcome<I, O::Model, E, S> {
        let a = self.parser.spec_go(emit, c);
        match a.result {
            Ok(v) => Outcome { cursor: a.cursor.rewind(c.offset), result: Ok(v) },
            Err(_) => a,
        }
    }

    proof fn lemma_spec_go(&self, emit: bool, c: Cursor<I, E, S>) {
        self.parser.lemma_spec_go(emit, c);
    }

    proof fn lemma_recovered(&self, emit: bool, c: Cursor<I, E, S>, errors: Seq<E::Model>) {
        self.parser.lemma_recovered(emit, c, errors);
    }

    /// A run does not depend on its kind if a run of the parser does not.
    open spec fn mode_free(&self) -> bool {
        self.parser.mode_free()
    }

    proof fn lemma_modes(&self, c: Cursor<I, E, S>) {
        self.parser.lemma_modes(c);
    }

    fn go<M: Mode>(&self, inp: &mut InputRef<I, E, S>) -> (r: PResult<O, E>) {
        let ghost emit = M::emits();
        let before = inp.save();
        proof {
            self.parser.lemma_spec_go(emit, inp@);
        }
        match self.parser.go::<M>(inp) {
            Ok(o) => {
                inp.rewind(before);
                Ok(o)
            },
            Err(e) => Err(e),
        }
    }
}

impl<A: Clone, B: Clone, O> Clone for Or<A, B, O> {
    /// A copy of the parser, made of copies of its parts.
    fn clone(&self) -> (r: Self)
        ensures
            cloned(self.parser_a, r.parser_a),
            cloned(self.parser_b, r.parser_b),
    {
        Or {
            parser_a: self.parser_a.clone(),
            parser_b: self.parser_b.clone(),
            phantom: PhantomData,
        }
    }
}

impl<A: Copy, B: Copy, O> Copy for Or<A, B, O> {
}

impl<A: Clone, F: Clone> Clone for RecoverWith<A, F> {
    /// A copy of the parser, made of copies of its parts.
    fn clone(&self) -> (r: Self)
        ensures
            cloned(self.parser, r.parser),
            cloned(self.fallback, r.fallback),
    {
        RecoverWith { parser: self.parser.clone(), fallback: self.fallback.clone() }
    }
}

impl<A: Copy, F: Copy> Copy for RecoverWith<A, F> {
}

impl<A: Clone> Clone for OrNot<A> {
    /// A copy of the parser, made of copies of its parts.
    fn clone(&self) -> (r: Self)
        ensures
            cloned(self.parser, r.parser),
    {
        OrNot { parser: self.parser.clone() }
    }
}

impl<A: Copy> Copy for OrNot<A> {
}

impl<A: Clone, OA> Clone for Not<A, OA> {
    /// A copy of the parser, made of copies of its parts.
    fn clone(&self) -> (r: Self)
        ensures
            cloned(self.parser, r.parser),
    {
        Not { parser: self.parser.clone(), phantom: PhantomData }
    }
}

impl<A: Copy, OA> Copy for Not<A, OA> {
}

impl<A: Clone, B: Clone, OB> Clone for AndIs<A, B, OB> {
    /// A copy of the parser, made of copies of its parts.
    fn clone(&self) -> (r: Self)
        ensures
            cloned(self.parser_a, r.parser_a),
            cloned(self.parser_b, r.parser_b),
    {
        AndIs {
            parser_a: self.parser_a.clone(),
            parser_b: self.parser_b.clone(),
            phantom: PhantomData,
        }
    }
}

impl<A: Copy, B: Copy, OB> Copy for AndIs<A, B, OB> {
}

impl<A: Clone> Clone for Rewind<A> {
    /// A copy of the parser, made of copies of its parts.
    fn clone(&self) -> (r: Self)
        ensures
            cloned(self.parser, r.parser),
    {
        Rewind { parser: self.parser.clone() }
    }
}

impl<A: Copy> Copy for Rewind<A> {
}

} // verus!
