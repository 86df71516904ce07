//! Repetition: a parser run again and again, with or without a separator
//! between the runs.

use crate::container::{empty, Container};
use crate::error::Error;
use crate::input::{Cursor, Input, InputRef};
use crate::mode::{Check, Mode};
use crate::model::Modeled;
use crate::parser::{
    alike, alike_cursors, lemma_alike_still, lemma_recovered_after, productive, Outcome, PResult,
    Parser,
};
use core::marker::PhantomData;
use vstd::pervasive::cloned;
use vstd::prelude::*;

verus! {

/// Where an optional run of `p` from `c` leaves the cursor: where the run
/// ended if it succeeded, and back at the offset of `c` if it failed.
pub open spec fn spec_attempt<I: Input, O: Modeled, E: Error<I>, S: Modeled, P: Parser<I, O, E, S>>(
    p: &P,
    c: Cursor<I, E, S>,
) -> Cursor<I, E, S> {
    let o = p.spec_go(false, c);
    if o.result is Ok {
        o.cursor
    } else {
        o.cursor.rewind(c.offset)
    }
}

/// Runs `p` only to move past what it accepts: a failure moves back to where
/// the run started and is forgotten.
pub fn attempt<I: Input, O: Modeled, E: Error<I>, S: Modeled, P: Parser<I, O, E, S>>(
    p: &P,
    inp: &mut InputRef<I, E, S>,
)
    requires
        p.wf(),
        old(inp).wf(),
    ensures
        final(inp).wf(),
        final(inp)@ == spec_attempt(p, old(inp)@),
{
    let before = inp.save();
    if let Err(_) = p.go::<Check>(inp) {
        proof {
            p.lemma_spec_go(false, old(inp)@);
        }
        inp.rewind(before);
    }
}

/// An optional run leaves the cursor at a boundary of the same input, and not
/// before the offset at which it started.
pub proof fn lemma_attempt<I: Input, O: Modeled, E: Error<I>, S: Modeled, P: Parser<I, O, E, S>>(
    p: &P,
    c: Cursor<I, E, S>,
)
    requires
        p.wf(),
        c.wf(),
    ensures
        spec_attempt(p, c).wf(),
        spec_attempt(p, c).input == c.input,
        spec_attempt(p, c).offset >= c.offset,
{
    p.lemma_spec_go(false, c);
}

/// Optional runs of a parser from cursors that are alike leave cursors that
/// are alike.
pub proof fn lemma_attempt_recovered<I, O, E, S, P>(
    p: &P,
    at: Cursor<I, E, S>,
    before: Seq<E::Model>,
    at2: Cursor<I, E, S>,
    before2: Seq<E::Model>,
) where I: Input, O: Modeled, E: Error<I>, S: Modeled, P: Parser<I, O, E, S>
    requires
        p.wf(),
        at.wf(),
        alike_cursors(at, before, at2, before2),
    ensures
        alike_cursors(spec_attempt(p, at), before, spec_attempt(p, at2), before2),
{
    lemma_recovered_after(p, false, at, before, at2, before2);
}

/// The collection `c` with `item` pushed onto it.
pub fn push_onto<T: Modeled, C: Container<T>>(c: C, item: T) -> (r: C)
    ensures
        r.model() == C::spec_push(c.model(), item.model()),
{
    let mut c = c;
    c.push(item);
    c
}

/// How many more rounds a repetition can make from `c` after `count` items:
/// what is left of the allowance `at_most` if there is one, and else what is
/// left of the input.
pub open spec fn spec_budget<I: Input, E: Modeled, S: Modeled>(
    at_most: Option<usize>,
    c: Cursor<I, E, S>,
    count: nat,
) -> nat {
    match at_most {
        Some(m) => if count < m {
            (m - count) as nat
        } else {
            0
        },
        None => c.remaining(),
    }
}

/// A parser run again and again until it fails or has run `at_most` times.
/// See `spec_go` for what it accepts.
pub struct Repeated<A, OA, I, C, E, S> {
    /// The parser.
    pub parser: A,
    /// The fewest items that the repetition accepts.
    pub at_least: usize,
    /// The most items that the repetition collects, if it is bounded.
    pub at_most: Option<usize>,
    /// The types that the parser is about.
    pub phantom: PhantomData<(OA, C, E, S, I)>,
}

impl<A, OA, I, E, S> Repeated<A, OA, I, (), E, S> {
    /// `parser`, repeated any number of times.
    pub fn new(parser: A) -> (r: Self)
        ensures
            r.parser == parser,
            r.at_least == 0,
            r.at_most is None,
    {
        Repeated { parser, at_least: 0, at_most: None, phantom: PhantomData }
    }
}

impl<A, OA, I, C, E, S> Repeated<A, OA, I, C, E, S> {
    /// The same repetition, which fails unless it collects `at_least` items.
    pub fn at_least(self, at_least: usize) -> (r: Self)
        ensures
            r.parser == self.parser,
            r.at_least == at_least,
            r.at_most == self.at_most,
    {
        Repeated { parser: self.parser, at_least, at_most: self.at_most, phantom: PhantomData }
    }

    /// The same repetition, which stops once it has collected `at_most`
    /// items.
    pub fn at_most(self, at_most: usize) -> (r: Self)
        ensures
            r.parser == self.parser,
            r.at_least == self.at_least,
            r.at_most == Some(at_most),
    {
        Repeated {
            parser: self.parser,
            at_least: self.at_least,
            at_most: Some(at_most),
            phantom: PhantomData,
        }
    }

    /// The same repetition, which collects `exactly` items, no fewer and no
    /// more.
    pub fn exactly(self, exactly: usize) -> (r: Self)
        ensures
            r.parser == self.parser,
            r.at_least == exactly,
            r.at_most == Some(exactly),
    {
        Repeated {
            parser: self.parser,
            at_least: exactly,
            at_most: Some(exactly),
            phantom: PhantomData,
        }
    }

    /// The same repetition, which collects its items into a `D`.
    pub fn collect<D>(self) -> (r: Repeated<A, OA, I, D, E, S>)
        ensures
            r.parser == self.parser,
            r.at_least == self.at_least,
            r.at_most == self.at_most,
    {
        Repeated {
            parser: self.parser,
            at_least: self.at_least,
            at_most: self.at_most,
            phantom: PhantomData,
        }
    }
}

impl<A, OA, I, C, E, S> Repeated<A, OA, I, C, E, S> where
    I: Input,
    E: Error<I>,
    S: Modeled,
    OA: Modeled,
    A: Parser<I, OA, E, S>,
    C: Container<OA>,
 {
    /// The runs from `c` on, with `count` items collected in `acc` so far.
    ///
    /// Once `at_most` items are collected, the repetition ends in success
    /// where it stands, and the parser is not run again: with an upper bound
    /// of 0 it is not run at all. Until then the parser is run. A run that
    /// fails is undone: the cursor goes back to the offset of `c`. It ends
    /// the repetition, in success if `at_least` items were collected, and
    /// with the run's error otherwise. (A run that succeeds without reading,
    /// where there is no upper bound, would end the repetition in success
    /// too: no repetition that can be run has such runs.)
    pub open spec fn spec_rounds(
        &self,
        emit: bool,
        c: Cursor<I, E, S>,
        count: nat,
        acc: C::Model,
    ) -> Outcome<I, C::Model, E, S>
        decreases spec_budget(self.at_most, c, count),
    {
        if self.spec_full(count) {
            Outcome { cursor: c, result: Ok(acc) }
        } else {
            let item = self.parser.spec_go(emit, c);
            match item.result {
                Err(e) => Outcome {
                    cursor: item.cursor.rewind(c.offset),
                    result: if count >= self.at_least {
                        Ok(acc)
                    } else {
                        Err(e)
                    },
                },
                Ok(v) => if spec_budget(self.at_most, item.cursor, count + 1) < spec_budget(
                    self.at_most,
                    c,
                    count,
                ) {
                    self.spec_rounds(emit, item.cursor, count + 1, C::spec_push(acc, v))
                } else {
                    Outcome { cursor: item.cursor, result: Ok(C::spec_push(acc, v)) }
                },
            }
        }
    }

    /// Whether `count` items are as many as the repetition collects.
    pub open spec fn spec_full(&self, count: nat) -> bool {
        self.at_most matches Some(m) && count >= m
    }

    /// The runs do not depend on their kind if a run of the parser does not.
    pub proof fn lemma_rounds_modes(&self, c: Cursor<I, E, S>, count: nat, acc: C::Model)
        requires
            self.parser.wf(),
            self.parser.mode_free(),
            c.wf(),
        ensures
            self.spec_rounds(true, c, count, acc) == self.spec_rounds(false, c, count, acc),
        decreases spec_budget(self.at_most, c, count),
    {
        self.parser.lemma_modes(c);
        self.parser.lemma_spec_go(true, c);
        let item = self.parser.spec_go(true, c);
        if let Ok(v) = item.result {
            if !self.spec_full(count) && spec_budget(self.at_most, item.cursor, count + 1)
                < spec_budget(self.at_most, c, count) {
                self.lemma_rounds_modes(item.cursor, count + 1, C::spec_push(acc, v));
            }
        }
    }

    /// The runs from cursors that are alike are alike.
    pub proof fn lemma_rounds_recovered(
        &self,
        emit: bool,
        c: Cursor<I, E, S>,
        before: Seq<E::Model>,
        c2: Cursor<I, E, S>,
        before2: Seq<E::Model>,
        count: nat,
        acc: C::Model,
    )
        requires
            self.parser.wf(),
            c.wf(),
            alike_cursors(c, before, c2, before2),
        ensures
            alike(
                self.spec_rounds(emit, c, count, acc),
                before,
                self.spec_rounds(emit, c2, count, acc),
                before2,
            ),
        decreases spec_budget(self.at_most, c, count),
    {
        lemma_recovered_after(&self.parser, emit, c, before, c2, before2);
        self.parser.lemma_spec_go(emit, c);
        let item = self.parser.spec_go(emit, c);
        let item2 = self.parser.spec_go(emit, c2);
        if let Ok(v) = item.result {
            if !self.spec_full(count) && spec_budget(self.at_most, item.cursor, count + 1)
                < spec_budget(self.at_most, c, count) {
                self.lemma_rounds_recovered(
                    emit,
                    item.cursor,
                    before,
                    item2.cursor,
                    before2,
                    count + 1,
                    C::spec_push(acc, v),
                );
            }
        }
    }

    /// The runs leave the cursor at a boundary of the same input, and not
    /// before the offset at which they started.
    pub proof fn lemma_rounds(&self, emit: bool, c: Cursor<I, E, S>, count: nat, acc: C::Model)
        requires
            self.parser.wf(),
            c.wf(),
        ensures
            self.spec_rounds(emit, c, count, acc).cursor.wf(),
            self.spec_rounds(emit, c, count, acc).cursor.input == c.input,
            self.spec_rounds(emit, c, count, acc).cursor.offset >= c.offset,
        decreases spec_budget(self.at_most, c, count),
    {
        self.parser.lemma_spec_go(emit, c);
        let item = self.parser.spec_go(emit, c);
        if let Ok(v) = item.result {
            if !self.spec_full(count) && spec_budget(self.at_most, item.cursor, count + 1)
                < spec_budget(self.at_most, c, count) {
                self.lemma_rounds(emit, item.cursor, count + 1, C::spec_push(acc, v));
            }
        }
    }
}

impl<A, OA, I, C, E, S> Parser<I, C, E, S> for Repeated<A, OA, I, C, E, S> where
    I: Input,
    E: Error<I>,
    S: Modeled,
    OA: Modeled,
    A: Parser<I, OA, E, S>,
    C: Container<OA>,
 {
    /// The parser can be run, and the repetition ends: it has an upper
    /// bound, or the parser reads at least one token whenever it succeeds.
    open spec fn wf(&self) -> bool {
        &&& self.parser.wf()
        &&& self.at_most is Some || productive(&self.parser)
    }

    /// The runs start at `c` with nothing collected.
    open spec fn spec_go(&self, emit: bool, c: Cursor<I, E, S>) -> Outcome<I, C::Model, E, S> {
        self.spec_rounds(emit, c, 0, C::spec_empty())
    }

    proof fn lemma_spec_go(&self, emit: bool, c: Cursor<I, E, S>) {
        self.lemma_rounds(emit, c, 0, C::spec_empty());
    }

    proof fn lemma_recovered(&self, emit: bool, c: Cursor<I, E, S>, errors: Seq<E::Model>) {
        lemma_alike_still(c, errors);
        self.lemma_rounds_recovered(
            emit,
            c,
            c.errors,
            c.with_errors(errors),
            errors,
            0,
            C::spec_empty(),
        );
    }

    /// A run does not depend on its kind if a run of the parser does not.
    open spec fn mode_free(&self) -> bool {
        self.parser.mode_free()
    }

    proof fn lemma_modes(&self, c: Cursor<I, E, S>) {
        self.lemma_rounds_modes(c, 0, C::spec_empty());
    }

    fn go<M: Mode>(&self, inp: &mut InputRef<I, E, S>) -> (r: PResult<C, E>) {
        let ghost emit = M::emits();
        let mut count: usize = 0;
        let mut output: Option<C> = M::bind(empty::<OA, C>);
        let ghost mut acc: C::Model = C::spec_empty();
        proof {
            inp.lemma_offset();
            inp@.input.lemma_boundaries(inp@.offset);
        }
        loop
            invariant
                self.wf(),
                emit == M::emits(),
                inp.wf(),
                output is Some <==> M::emits(),
                output is Some ==> output->0.model() == acc,
                self.at_most matches Some(m) ==> count <= m,
                self.at_most is None ==> count <= inp@.offset,
                self.spec_go(emit, old(inp)@) == self.spec_rounds(emit, inp@, count as nat, acc),
            decreases spec_budget(self.at_most, inp@, count as nat),
        {
            if let Some(at_most) = self.at_most {
                if count >= at_most {
                    return Ok(output);
                }
            }
            let ghost here = inp@;
            let before = inp.save();
            proof {
                self.parser.lemma_spec_go(emit, here);
            }
            match self.parser.go::<M>(inp) {
                Ok(out) => {
                    proof {
                        acc = C::spec_push(acc, self.parser.spec_go(emit, here).result->Ok_0);
                        inp.lemma_offset();
                        inp@.input.lemma_boundaries(inp@.offset);
                    }
                    output = M::combine(output, out, push_onto::<OA, C>);
                    count += 1;
                },
                Err(e) => {
                    inp.rewind(before);
                    if count >= self.at_least {
                        return Ok(output);
                    } else {
                        return Err(e);
                    }
                },
            }
        }
    }
}

/// A parser run one or more times with a separator between the runs. See
/// `spec_go` for what it accepts.
pub struct SeparatedBy<A, B, OA, OB, I, C, E, S> {
    /// The parser.
    pub parser: A,
    /// The parser of separators.
    pub separator: B,
    /// The fewest items that the repetition accepts.
    pub at_least: usize,
    /// The most items that the repetition collects, if it is bounded.
    pub at_most: Option<usize>,
    /// Whether a separator may come before the first item.
    pub allow_leading: bool,
    /// Whether a separator may come after the last item.
    pub allow_trailing: bool,
    /// The types that the parser is about.
    pub phantom: PhantomData<(OA, OB, C, E, S, I)>,
}

impl<A, B, OA, OB, I, E, S> SeparatedBy<A, B, OA, OB, I, (), E, S> {
    /// `parser`, repeated any number of times with `separator` in between.
    pub fn new(parser: A, separator: B) -> (r: Self)
        ensures
            r.parser == parser,
            r.separator == separator,
            r.at_least == 0,
            r.at_most is None,
            !r.allow_leading,
            !r.allow_trailing,
    {
        SeparatedBy {
            parser,
            separator,
            at_least: 0,
            at_most: None,
            allow_leading: false,
            allow_trailing: false,
            phantom: PhantomData,
        }
    }
}

impl<A, B, OA, OB, I, C, E, S> SeparatedBy<A, B, OA, OB, I, C, E, S> {
    /// The same repetition, which fails unless it collects `at_least` items.
    pub fn at_least(self, at_least: usize) -> (r: Self)
        ensures
            r.parser == self.parser,
            r.separator == self.separator,
            r.at_least == at_least,
            r.at_most == self.at_most,
            r.allow_leading == self.allow_leading,
            r.allow_trailing == self.allow_trailing,
    {
        SeparatedBy {
            parser: self.parser,
            separator: self.separator,
            at_least,
            at_most: self.at_most,
            allow_leading: self.allow_leading,
            allow_trailing: self.allow_trailing,
            phantom: PhantomData,
        }
    }

    /// The same repetition, which stops once a round has brought it to
    /// `at_most` items.
    pub fn at_most(self, at_most: usize) -> (r: Self)
        ensures
            r.parser == self.parser,
            r.separator == self.separator,
            r.at_least == self.at_least,
            r.at_most == Some(at_most),
            r.allow_leading == self.allow_leading,
            r.allow_trailing == self.allow_trailing,
    {
        SeparatedBy {
            parser: self.parser,
            separator: self.separator,
            at_least: self.at_least,
            at_most: Some(at_most),
            allow_leading: self.allow_leading,
            allow_trailing: self.allow_trailing,
            phantom: PhantomData,
        }
    }

    /// The same repetition, with both bounds set to `exactly`.
    pub fn exactly(self, exactly: usize) -> (r: Self)
        ensures
            r.parser == self.parser,
            r.separator == self.separator,
            r.at_least == exactly,
            r.at_most == Some(exactly),
            r.allow_leading == self.allow_leading,
            r.allow_trailing == self.allow_trailing,
    {
        SeparatedBy {
            parser: self.parser,
            separator: self.separator,
            at_least: exactly,
            at_most: Some(exactly),
            allow_leading: self.allow_leading,
            allow_trailing: self.allow_trailing,
            phantom: PhantomData,
        }
    }

    /// The same repetition, which accepts a separator before the first item.
    pub fn allow_leading(self) -> (r: Self)
        ensures
            r.parser == self.parser,
            r.separator == self.separator,
            r.at_least == self.at_least,
            r.at_most == self.at_most,
            r.allow_leading,
            r.allow_trailing == self.allow_trailing,
    {
        SeparatedBy {
            parser: self.parser,
            separator: self.separator,
            at_least: self.at_least,
            at_most: self.at_most,
            allow_leading: true,
            allow_trailing: self.allow_trailing,
            phantom: PhantomData,
        }
    }

    /// The same repetition, which accepts a separator after the last item.
    pub fn allow_trailing(self) -> (r: Self)
        ensures
            r.parser == self.parser,
            r.separator == self.separator,
            r.at_least == self.at_least,
            r.at_most == self.at_most,
            r.allow_leading == self.allow_leading,
            r.allow_trailing,
    {
        SeparatedBy {
            parser: self.parser,
            separator: self.separator,
            at_least: self.at_least,
            at_most: self.at_most,
            allow_leading: self.allow_leading,
            allow_trailing: true,
            phantom: PhantomData,
        }
    }

    /// The same repetition, which collects its items into a `D`.
    pub fn collect<D>(self) -> (r: SeparatedBy<A, B, OA, OB, I, D, E, S>)
        ensures
            r.parser == self.parser,
            r.separator == self.separator,
            r.at_least == self.at_least,
            r.at_most == self.at_most,
            r.allow_leading == self.allow_leading,
            r.allow_trailing == self.allow_trailing,
    {
        SeparatedBy {
            parser: self.parser,
            separator: self.separator,
            at_least: self.at_least,
            at_most: self.at_most,
            allow_leading: self.allow_leading,
            allow_trailing: self.allow_trailing,
            phantom: PhantomData,
        }
    }
}

impl<A, B, OA, OB, I, C, E, S> SeparatedBy<A, B, OA, OB, I, C, E, S> where
    I: Input,
    E: Error<I>,
    S: Modeled,
    OA: Modeled,
    OB: Modeled,
    A: Parser<I, OA, E, S>,
    B: Parser<I, OB, E, S>,
    C: Container<OA>,
 {
    /// The end of a successful run, with `acc` collected: a trailing
    /// separator is read if one is allowed and there.
    pub open spec fn spec_finish(&self, c: Cursor<I, E, S>, acc: C::Model) -> Outcome<
        I,
        C::Model,
        E,
        S,
    > {
        Outcome {
            cursor: if self.allow_trailing {
                spec_attempt(&self.separator, c)
            } else {
                c
            },
            result: Ok(acc),
        }
    }

    /// The rounds after the first item. Each round reads a separator and an
    /// item from `c`, with `count` items collected in `acc` so far.
    ///
    /// A round in which the separator or the item fails is undone: the
    /// cursor goes back to the offset of `c`. It ends the run, in failure if
    /// fewer than `at_least` items were collected, with the error of what
    /// failed, and in success otherwise. A round that brings the count to
    /// `at_most` ends the run in success. (So would a round that succeeds
    /// without reading, where there is no upper bound: no repetition that
    /// can be run has such rounds.)
    pub open spec fn spec_rounds(
        &self,
        emit: bool,
        c: Cursor<I, E, S>,
        count: nat,
        acc: C::Model,
    ) -> Outcome<I, C::Model, E, S>
        decreases spec_budget(self.at_most, c, count),
    {
        let sep = self.separator.spec_go(false, c);
        match sep.result {
            Err(e) => if count < self.at_least {
                Outcome { cursor: sep.cursor.rewind(c.offset), result: Err(e) }
            } else {
                self.spec_finish(sep.cursor.rewind(c.offset), acc)
            },
            Ok(_) => {
                let item = self.parser.spec_go(emit, sep.cursor);
                match item.result {
                    Err(e) => if count < self.at_least {
                        Outcome { cursor: item.cursor.rewind(c.offset), result: Err(e) }
                    } else {
                        self.spec_finish(item.cursor.rewind(c.offset), acc)
                    },
                    Ok(v) => if spec_budget(self.at_most, item.cursor, count + 1) < spec_budget(
                        self.at_most,
                        c,
                        count,
                    ) && !(self.at_most matches Some(m) && count + 1 >= m) {
                        self.spec_rounds(emit, item.cursor, count + 1, C::spec_push(acc, v))
                    } else {
                        self.spec_finish(item.cursor, C::spec_push(acc, v))
                    },
                }
            },
        }
    }
}

impl<A, B, OA, OB, I, C, E, S> SeparatedBy<A, B, OA, OB, I, C, E, S> where
    I: Input,
    E: Error<I>,
    S: Modeled,
    OA: Modeled,
    OB: Modeled,
    A: Parser<I, OA, E, S>,
    B: Parser<I, OB, E, S>,
    C: Container<OA>,
 {
    /// The rounds do not depend on their kind if a run of the item parser
    /// does not.
    pub proof fn lemma_rounds_modes(&self, c: Cursor<I, E, S>, count: nat, acc: C::Model)
        requires
            self.parser.wf(),
            self.separator.wf(),
            self.parser.mode_free(),
            c.wf(),
        ensures
            self.spec_rounds(true, c, count, acc) == self.spec_rounds(false, c, count, acc),
        decreases spec_budget(self.at_most, c, count),
    {
        self.separator.lemma_spec_go(false, c);
        let sep = self.separator.spec_go(false, c);
        if sep.result is Ok {
            self.parser.lemma_modes(sep.cursor);
            self.parser.lemma_spec_go(true, sep.cursor);
            let item = self.parser.spec_go(true, sep.cursor);
            if let Ok(v) = item.result {
                if spec_budget(self.at_most, item.cursor, count + 1) < spec_budget(
                    self.at_most,
                    c,
                    count,
                ) && !(self.at_most matches Some(m) && count + 1 >= m) {
                    self.lemma_rounds_modes(item.cursor, count + 1, C::spec_push(acc, v));
                }
            }
        }
    }

    /// The ends of runs from cursors that are alike are alike.
    pub proof fn lemma_finish_recovered(
        &self,
        c: Cursor<I, E, S>,
        before: Seq<E::Model>,
        c2: Cursor<I, E, S>,
        before2: Seq<E::Model>,
        acc: C::Model,
    )
        requires
            self.separator.wf(),
            c.wf(),
            alike_cursors(c, before, c2, before2),
        ensures
            alike(self.spec_finish(c, acc), before, self.spec_finish(c2, acc), before2),
    {
        lemma_attempt_recovered(&self.separator, c, before, c2, before2);
    }

    /// The rounds from cursors that are alike are alike.
    pub proof fn lemma_rounds_recovered(
        &self,
        emit: bool,
        c: Cursor<I, E, S>,
        before: Seq<E::Model>,
        c2: Cursor<I, E, S>,
        before2: Seq<E::Model>,
        count: nat,
        acc: C::Model,
    )
        requires
            self.parser.wf(),
            self.separator.wf(),
            c.wf(),
            alike_cursors(c, before, c2, before2),
        ensures
            alike(
                self.spec_rounds(emit, c, count, acc),
                before,
                self.spec_rounds(emit, c2, count, acc),
                before2,
            ),
        decreases spec_budget(self.at_most, c, count),
    {
        lemma_recovered_after(&self.separator, false, c, before, c2, before2);
        self.separator.lemma_spec_go(false, c);
        let sep = self.separator.spec_go(false, c);
        let sep2 = self.separator.spec_go(false, c2);
        match sep.result {
            Err(e) => {
                self.lemma_finish_recovered(
                    sep.cursor.rewind(c.offset),
                    before,
                    sep2.cursor.rewind(c.offset),
                    before2,
                    acc,
                );
            },
            Ok(_) => {
                lemma_recovered_after(&self.parser, emit, sep.cursor, before, sep2.cursor, before2);
                self.parser.lemma_spec_go(emit, sep.cursor);
                let item = self.parser.spec_go(emit, sep.cursor);
                let item2 = self.parser.spec_go(emit, sep2.cursor);
                match item.result {
                    Err(e) => {
                        self.lemma_finish_recovered(
                            item.cursor.rewind(c.offset),
                            before,
                            item2.cursor.rewind(c.offset),
                            before2,
                            acc,
                        );
                    },
                    Ok(v) => {
                        if spec_budget(self.at_most, item.cursor, count + 1) < spec_budget(
                            self.at_most,
                            c,
                            count,
                        ) && !(self.at_most matches Some(m) && count + 1 >= m) {
                            self.lemma_rounds_recovered(
                                emit,
                                item.cursor,
                                before,
                                item2.cursor,
                                before2,
                                count + 1,
                                C::spec_push(acc, v),
                            );
                        } else {
                            self.lemma_finish_recovered(
                                item.cursor,
                                before,
                                item2.cursor,
                                before2,
                                C::spec_push(acc, v),
                            );
                        }
                    },
                }
            },
        }
    }

    /// The rounds leave the cursor at a boundary of the same input, and not
    /// before the offset at which they started.
    pub proof fn lemma_rounds(&self, emit: bool, c: Cursor<I, E, S>, count: nat, acc: C::Model)
        requires
            self.parser.wf(),
            self.separator.wf(),
            c.wf(),
        ensures
            self.spec_rounds(emit, c, count, acc).cursor.wf(),
            self.spec_rounds(emit, c, count, acc).cursor.input == c.input,
            self.spec_rounds(emit, c, count, acc).cursor.offset >= c.offset,
        decreases spec_budget(self.at_most, c, count),
    {
        self.separator.lemma_spec_go(false, c);
        let sep = self.separator.spec_go(false, c);
        match sep.result {
            Err(e) => {
                lemma_attempt(&self.separator, sep.cursor.rewind(c.offset));
            },
            Ok(_) => {
                self.parser.lemma_spec_go(emit, sep.cursor);
                let item = self.parser.spec_go(emit, sep.cursor);
                match item.result {
                    Err(e) => {
                        lemma_attempt(&self.separator, item.cursor.rewind(c.offset));
                    },
                    Ok(v) => {
                        if spec_budget(self.at_most, item.cursor, count + 1) < spec_budget(
                            self.at_most,
                            c,
                            count,
                        ) && !(self.at_most matches Some(m) && count + 1 >= m) {
                            self.lemma_rounds(emit, item.cursor, count + 1, C::spec_push(acc, v));
                        } else {
                            lemma_attempt(&self.separator, item.cursor);
                        }
                    },
                }
            },
        }
    }
}

impl<A, B, OA, OB, I, C, E, S> Parser<I, C, E, S> for SeparatedBy<A, B, OA, OB, I, C, E, S> where
    I: Input,
    E: Error<I>,
    S: Modeled,
    OA: Modeled,
    OB: Modeled,
    A: Parser<I, OA, E, S>,
    B: Parser<I, OB, E, S>,
    C: Container<OA>,
 {
    /// The parsers can be run, and the repetition ends: it has an upper
    /// bound, or the item parser reads at least one token whenever it
    /// succeeds.
    open spec fn wf(&self) -> bool {
        &&& self.parser.wf()
        &&& self.separator.wf()
        &&& self.at_most is Some || productive(&self.parser)
    }

    /// A leading separator is read if one is allowed and there. Then comes
    /// the first item. If it fails, the cursor goes back to where the item
    /// began, and the run succeeds with nothing collected if `at_least` is 0
    /// and fails with the item's error otherwise. If it succeeds, the rounds
    /// of separator and item follow.
    open spec fn spec_go(&self, emit: bool, c: Cursor<I, E, S>) -> Outcome<I, C::Model, E, S> {
        let start = if self.allow_leading {
            spec_attempt(&self.separator, c)
        } else {
            c
        };
        let first = self.parser.spec_go(emit, start);
        match first.result {
            Err(e) => Outcome {
                cursor: first.cursor.rewind(start.offset),
                result: if self.at_least == 0 {
                    Ok(C::spec_empty())
                } else {
                    Err(e)
                },
            },
            Ok(v) => self.spec_rounds(emit, first.cursor, 1, C::spec_push(C::spec_empty(), v)),
        }
    }

    proof fn lemma_spec_go(&self, emit: bool, c: Cursor<I, E, S>) {
        lemma_attempt(&self.separator, c);
        let start = if self.allow_leading {
            spec_attempt(&self.separator, c)
        } else {
            c
        };
        self.parser.lemma_spec_go(emit, start);
        let first = self.parser.spec_go(emit, start);
        if let Ok(v) = first.result {
            self.lemma_rounds(emit, first.cursor, 1, C::spec_push(C::spec_empty(), v));
        }
    }

    proof fn lemma_recovered(&self, emit: bool, c: Cursor<I, E, S>, errors: Seq<E::Model>) {
        lemma_alike_still(c, errors);
        let c2 = c.with_errors(errors);
        lemma_attempt(&self.separator, c);
        lemma_attempt_recovered(&self.separator, c, c.errors, c2, errors);
        let start = if self.allow_leading {
            spec_attempt(&self.separator, c)
        } else {
            c
        };
        let start2 = if self.allow_leading {
            spec_attempt(&self.separator, c2)
        } else {
            c2
        };
        lemma_recovered_after(&self.parser, emit, start, c.errors, start2, errors);
        self.parser.lemma_spec_go(emit, start);
        let first = self.parser.spec_go(emit, start);
        let first2 = self.parser.spec_go(emit, start2);
        if let Ok(v) = first.result {
            self.lemma_rounds_recovered(
                emit,
                first.cursor,
                c.errors,
                first2.cursor,
                errors,
                1,
                C::spec_push(C::spec_empty(), v),
            );
        }
    }

    /// A run does not depend on its kind if a run of the item parser does not.
    open spec fn mode_free(&self) -> bool {
        self.parser.mode_free()
    }

    proof fn lemma_modes(&self, c: Cursor<I, E, S>) {
        lemma_attempt(&self.separator, c);
        let start = if self.allow_leading {
            spec_attempt(&self.separator, c)
        } else {
            c
        };
        self.parser.lemma_modes(start);
        self.parser.lemma_spec_go(true, start);
        let first = self.parser.spec_go(true, start);
        if let Ok(v) = first.result {
            self.lemma_rounds_modes(first.cursor, 1, C::spec_push(C::spec_empty(), v));
        }
    }

    fn go<M: Mode>(&self, inp: &mut InputRef<I, E, S>) -> (r: PResult<C, E>) {
        let ghost emit = M::emits();
        let mut count: usize = 0;
        let mut output: Option<C> = M::bind(empty::<OA, C>);
        let ghost mut acc: C::Model = C::spec_empty();

        if self.allow_leading {
            attempt(&self.separator, inp);
        }
        let ghost start = inp@;
        proof {
            lemma_attempt(&self.separator, old(inp)@);
            self.parser.lemma_spec_go(emit, start);
            start.input.lemma_boundaries(start.offset);
        }

        let before = inp.save();
        match self.parser.go::<M>(inp) {
            Ok(item) => {
                proof {
                    acc = C::spec_push(acc, self.parser.spec_go(emit, start).result->Ok_0);
                }
                output = M::combine(output, item, push_onto::<OA, C>);
                count += 1;
            },
            Err(err) => {
                inp.rewind(before);
                if self.at_least == 0 {
                    return Ok(output);
                } else {
                    return Err(err);
                }
            },
        }

        loop
            invariant_except_break
                self.wf(),
                emit == M::emits(),
                inp.wf(),
                inp@.input == old(inp)@.input,
                output is Some <==> M::emits(),
                output is Some ==> output->0.model() == acc,
                count >= 1,
                self.at_most matches Some(m) ==> count == 1 || count < m,
                self.at_most is None ==> count <= inp@.offset,
                self.spec_go(emit, old(inp)@) == self.spec_rounds(emit, inp@, count as nat, acc),
            ensures
                inp.wf(),
                output is Some <==> M::emits(),
                output is Some ==> output->0.model() == acc,
                self.spec_go(emit, old(inp)@) == self.spec_finish(inp@, acc),
            decreases spec_budget(self.at_most, inp@, count as nat),
        {
            let ghost here = inp@;
            let before_separator = inp.save();
            proof {
                self.separator.lemma_spec_go(false, here);
                self.parser.lemma_spec_go(emit, self.separator.spec_go(false, here).cursor);
                here.input.lemma_boundaries(here.offset);
            }
            match self.separator.go::<Check>(inp) {
                Ok(_) => {},
                Err(err) => {
                    inp.rewind(before_separator);
                    if count < self.at_least {
                        return Err(err);
                    } else {
                        break ;
                    }
                },
            }

            match self.parser.go::<M>(inp) {
                Ok(item) => {
                    proof {
                        acc = C::spec_push(
                            acc,
                            self.parser.spec_go(
                                emit,
                                self.separator.spec_go(false, here).cursor,
                            ).result->Ok_0,
                        );
                        inp.lemma_offset();
                        inp@.input.lemma_boundaries(inp@.offset);
                    }
                    output = M::combine(output, item, push_onto::<OA, C>);
                    count += 1;
                    let full = match self.at_most {
                        Some(max) => count >= max,
                        None => false,
                    };
                    if full {
                        break ;
                    }
                },
                Err(err) => {
                    inp.rewind(before_separator);
                    if count < self.at_least {
                        return Err(err);
                    } else {
                        break ;
                    }
                },
            }
        }

        if self.allow_trailing {
            attempt(&self.separator, inp);
        }
        Ok(output)
    }
}

impl<A: Clone, OA, I, C, E, S> Clone for Repeated<A, OA, I, C, E, S> {
    /// A copy of the parser, made of copies of its parts.
    fn clone(&self) -> (r: Self)
        ensures
            cloned(self.parser, r.parser),
            r.at_least == self.at_least,
            r.at_most == self.at_most,
    {
        Repeated {
            parser: self.parser.clone(),
            at_least: self.at_least,
            at_most: self.at_most,
            phantom: PhantomData,
        }
    }
}

impl<A: Copy, OA, I, C, E, S> Copy for Repeated<A, OA, I, C, E, S> {
}

impl<A: Clone, B: Clone, OA, OB, I, C, E, S> Clone for SeparatedBy<A, B, OA, OB, I, C, E, S> {
    /// A copy of the parser, made of copies of its parts.
    fn clone(&self) -> (r: Self)
        ensures
            cloned(self.parser, r.parser),
            cloned(self.separator, r.separator),
            r.at_least == self.at_least,
            r.at_most == self.at_most,
            r.allow_leading == self.allow_leading,
            r.allow_trailing == self.allow_trailing,
    {
        SeparatedBy {
            parser: self.parser.clone(),
            separator: self.separator.clone(),
            at_least: self.at_least,
            at_most: self.at_most,
            allow_leading: self.allow_leading,
            allow_trailing: self.allow_trailing,
            phantom: PhantomData,
        }
    }
}

impl<A: Copy, B: Copy, OA, OB, I, C, E, S> Copy for SeparatedBy<A, B, OA, OB, I, C, E, S> {
}

} // verus!
