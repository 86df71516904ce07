//! Repetition a fixed number of times, into a collection of fixed size.

use crate::container::Container;
use crate::error::Error;
use crate::input::{Cursor, Input, InputRef};
use crate::mode::Mode;
use crate::model::{lemma_models_empty, lemma_models_push, models, Modeled};
use crate::parser::{
    alike, alike_cursors, lemma_alike_still, lemma_recovered_after, Outcome, PResult, Parser,
};
use crate::repeat::{attempt, lemma_attempt, lemma_attempt_recovered, spec_attempt};
use core::marker::PhantomData;
use vstd::pervasive::cloned;
use vstd::prelude::*;

verus! {

/// A collection of exactly `N` items, filled through a buffer whose slots
/// are written one by one, in order.
///
/// The buffer is the collection in the making. It is only taken as a
/// collection once all `N` slots are written, and what was written to it is
/// only released as a prefix of known length: the contracts rule out every
/// read of a slot that was not written.
pub trait ContainerExactly<T: Modeled, const N: usize>: Modeled + Sized {
    /// The buffer.
    type Uninit;

    /// The models of the items in the written slots of a buffer, in order.
    spec fn written(uninit: &Self::Uninit) -> Seq<T::Model>;

    /// The model of the collection that a buffer with `items` written to it
    /// becomes.
    spec fn spec_take(items: Seq<T::Model>) -> Self::Model;

    /// A buffer with no slot written.
    fn uninit() -> (u: Self::Uninit)
        ensures
            Self::written(&u).len() == 0,
    ;

    /// Writes `item` to slot `i`, the first slot not yet written.
    fn write(uninit: &mut Self::Uninit, i: usize, item: T)
        requires
            i == Self::written(old(uninit)).len(),
            i < N,
        ensures
            Self::written(final(uninit)) == Self::written(old(uninit)).push(item.model()),
    ;

    /// Releases the items in the slots before `i`, which are exactly the
    /// written ones.
    fn drop_before(uninit: &mut Self::Uninit, i: usize)
        requires
            i == Self::written(old(uninit)).len(),
        ensures
            Self::written(final(uninit)).len() == 0,
    ;

    /// The collection that a buffer with all `N` slots written holds.
    fn take(uninit: Self::Uninit) -> (r: Self)
        requires
            Self::written(&uninit).len() == N,
        ensures
            r.model() == Self::spec_take(Self::written(&uninit)),
    ;
}

impl<T: Modeled, const N: usize> ContainerExactly<T, N> for () {
    type Uninit = Ghost<Seq<T::Model>>;

    open spec fn written(uninit: &Ghost<Seq<T::Model>>) -> Seq<T::Model> {
        uninit@
    }

    open spec fn spec_take(items: Seq<T::Model>) -> () {
        ()
    }

    fn uninit() -> (u: Ghost<Seq<T::Model>>) {
        Ghost(Seq::empty())
    }

    fn write(uninit: &mut Ghost<Seq<T::Model>>, i: usize, item: T) {
        *uninit = Ghost(uninit@.push(item.model()));
    }

    fn drop_before(uninit: &mut Ghost<Seq<T::Model>>, i: usize) {
        *uninit = Ghost(Seq::empty());
    }

    fn take(uninit: Ghost<Seq<T::Model>>) -> (r: ()) {
        ()
    }
}

/// The array that holds the `N` elements of `v`, in order.
///
/// Trusted: this is `TryFrom<Vec<T>>` for `[T; N]` of the standard library,
/// which gives the whole contents of the vector as an array when the vector's
/// length is `N`.
#[verifier::external_body]
fn vec_into_array<T, const N: usize>(v: Vec<T>) -> (a: [T; N])
    requires
        v@.len() == N,
    ensures
        a@ == v@,
{
    <[T; N]>::try_from(v).ok().unwrap()
}

impl<T: Modeled, const N: usize> ContainerExactly<T, N> for [T; N] {
    type Uninit = Vec<T>;

    open spec fn written(uninit: &Vec<T>) -> Seq<T::Model> {
        models(uninit@)
    }

    open spec fn spec_take(items: Seq<T::Model>) -> Seq<T::Model> {
        items
    }

    fn uninit() -> (u: Vec<T>) {
        Vec::new()
    }

    fn write(uninit: &mut Vec<T>, i: usize, item: T) {
        proof {
            lemma_models_push(uninit@, item);
        }
        uninit.push(item);
    }

    fn drop_before(uninit: &mut Vec<T>, i: usize) {
        uninit.clear();
    }

    fn take(uninit: Vec<T>) -> (r: [T; N]) {
        vec_into_array(uninit)
    }
}

/// A parser run exactly `N` times. See `spec_go` for what it accepts.
pub struct RepeatedExactly<A, OA, C, const N: usize> {
    /// The parser.
    pub parser: A,
    /// The types that the parser is about.
    pub phantom: PhantomData<(OA, C)>,
}

impl<A, OA, const N: usize> RepeatedExactly<A, OA, (), N> {
    /// `parser`, repeated exactly `N` times.
    pub fn new(parser: A) -> (r: Self)
        ensures
            r.parser == parser,
    {
        RepeatedExactly { parser, phantom: PhantomData }
    }
}

impl<A, OA, C, const N: usize> RepeatedExactly<A, OA, C, N> {
    /// The same repetition, which collects its items into a `D`.
    pub fn collect<D>(self) -> (r: RepeatedExactly<A, OA, D, N>)
        ensures
            r.parser == self.parser,
    {
        RepeatedExactly { parser: self.parser, phantom: PhantomData }
    }
}

impl<A, OA: Modeled, C: ContainerExactly<OA, N>, const N: usize> RepeatedExactly<A, OA, C, N> {
    /// The runs from `c` on, with the items `acc` collected so far.
    ///
    /// A run that fails is undone, the cursor going back to the offset of
    /// `c`, and its error is the error of the repetition: what was
    /// collected is given up. The run that collects the `N`th item ends the
    /// repetition in success.
    pub open spec fn spec_rounds<I: Input, E: Error<I>, S: Modeled>(
        &self,
        emit: bool,
        c: Cursor<I, E, S>,
        acc: Seq<OA::Model>,
    ) -> Outcome<I, C::Model, E, S> where A: Parser<I, OA, E, S>
        decreases N - acc.len(),
    {
        let item = self.parser.spec_go(emit, c);
        match item.result {
            Err(e) => Outcome { cursor: item.cursor.rewind(c.offset), result: Err(e) },
            Ok(v) => if acc.len() + 1 < N {
                self.spec_rounds(emit, item.cursor, acc.push(v))
            } else {
                Outcome { cursor: item.cursor, result: Ok(C::spec_take(acc.push(v))) }
            },
        }
    }

    /// The runs do not depend on their kind if a run of the parser does not.
    pub proof fn lemma_rounds_modes<I: Input, E: Error<I>, S: Modeled>(
        &self,
        c: Cursor<I, E, S>,
        acc: Seq<OA::Model>,
    ) where A: Parser<I, OA, E, S>
        requires
            self.parser.wf(),
            self.parser.mode_free(),
            c.wf(),
        ensures
            self.spec_rounds(true, c, acc) == self.spec_rounds(false, c, acc),
        decreases N - acc.len(),
    {
        self.parser.lemma_modes(c);
        self.parser.lemma_spec_go(true, c);
        let item = self.parser.spec_go(true, c);
        if let Ok(v) = item.result {
            if acc.len() + 1 < N {
                self.lemma_rounds_modes(item.cursor, acc.push(v));
            }
        }
    }

    /// The runs from cursors that are alike are alike.
    pub proof fn lemma_rounds_recovered<I: Input, E: Error<I>, S: Modeled>(
        &self,
        emit: bool,
        c: Cursor<I, E, S>,
        before: Seq<E::Model>,
        c2: Cursor<I, E, S>,
        before2: Seq<E::Model>,
        acc: Seq<OA::Model>,
    ) where A: Parser<I, OA, E, S>
        requires
            self.parser.wf(),
            c.wf(),
            alike_cursors(c, before, c2, before2),
        ensures
            alike(self.spec_rounds(emit, c, acc), before, self.spec_rounds(emit, c2, acc), before2),
        decreases N - acc.len(),
    {
        lemma_recovered_after(&self.parser, emit, c, before, c2, before2);
        self.parser.lemma_spec_go(emit, c);
        let item = self.parser.spec_go(emit, c);
        let item2 = self.parser.spec_go(emit, c2);
        if let Ok(v) = item.result {
            if acc.len() + 1 < N {
                self.lemma_rounds_recovered(
                    emit,
                    item.cursor,
                    before,
                    item2.cursor,
                    before2,
                    acc.push(v),
                );
            }
        }
    }

    /// The runs leave the cursor at a boundary of the same input, and not
    /// before the offset at which they started.
    pub proof fn lemma_rounds<I: Input, E: Error<I>, S: Modeled>(
        &self,
        emit: bool,
        c: Cursor<I, E, S>,
        acc: Seq<OA::Model>,
    ) where A: Parser<I, OA, E, S>
        requires
            self.parser.wf(),
            c.wf(),
        ensures
            self.spec_rounds(emit, c, acc).cursor.wf(),
            self.spec_rounds(emit, c, acc).cursor.input == c.input,
            self.spec_rounds(emit, c, acc).cursor.offset >= c.offset,
        decreases N - acc.len(),
    {
        self.parser.lemma_spec_go(emit, c);
        let item = self.parser.spec_go(emit, c);
        if let Ok(v) = item.result {
            if acc.len() + 1 < N {
                self.lemma_rounds(emit, item.cursor, acc.push(v));
            }
        }
    }
}

impl<I, E, S, A, OA, C, const N: usize> Parser<I, C, E, S> for RepeatedExactly<A, OA, C, N> where
    I: Input,
    E: Error<I>,
    S: Modeled,
    OA: Modeled,
    A: Parser<I, OA, E, S>,
    C: ContainerExactly<OA, N>,
 {
    /// There is no collection of no items to fill: `N` is not 0.
    open spec fn wf(&self) -> bool {
        &&& self.parser.wf()
        &&& N > 0
    }

    open spec fn spec_go(&self, emit: bool, c: Cursor<I, E, S>) -> Outcome<I, C::Model, E, S> {
        self.spec_rounds(emit, c, Seq::empty())
    }

    proof fn lemma_spec_go(&self, emit: bool, c: Cursor<I, E, S>) {
        self.lemma_rounds(emit, c, Seq::empty());
    }

    proof fn lemma_recovered(&self, emit: bool, c: Cursor<I, E, S>, errors: Seq<E::Model>) {
        lemma_alike_still(c, errors);
        self.lemma_rounds_recovered(emit, c, c.errors, c.with_errors(errors), errors, Seq::empty());
    }

    /// A run does not depend on its kind if a run of the parser does not.
    open spec fn mode_free(&self) -> bool {
        self.parser.mode_free()
    }

    proof fn lemma_modes(&self, c: Cursor<I, E, S>) {
        self.lemma_rounds_modes(c, Seq::empty());
    }

    fn go<M: Mode>(&self, inp: &mut InputRef<I, E, S>) -> (r: PResult<C, E>) {
        let ghost emit = M::emits();
        let mut i: usize = 0;
        let mut output: Option<C::Uninit> = M::bind(C::uninit);
        let ghost mut acc: Seq<OA::Model> = Seq::empty();
        assert(output is Some ==> C::written(&output->0) =~= acc);
        loop
            invariant
                self.wf(),
                emit == M::emits(),
                inp.wf(),
                output is Some <==> M::emits(),
                output is Some ==> C::written(&output->0) == acc,
                i == acc.len(),
                i < N,
                self.spec_go(emit, old(inp)@) == self.spec_rounds(emit, inp@, acc),
            decreases N - i,
        {
            let ghost here = inp@;
            let before = inp.save();
            proof {
                self.parser.lemma_spec_go(emit, here);
            }
            match self.parser.go::<M>(inp) {
                Ok(out) => {
                    proof {
                        acc = acc.push(self.parser.spec_go(emit, here).result->Ok_0);
                    }
                    output = M::combine(output, out, |u: C::Uninit, item: OA| -> (r: C::Uninit)
                        requires
                            C::written(&u).len() == i,
                            i < N,
                        ensures
                            C::written(&r) == C::written(&u).push(item.model()),
                        {
                            let mut u = u;
                            C::write(&mut u, i, item);
                            u
                        });
                    i += 1;
                    if i == N {
                        return Ok(M::map(output, |u: C::Uninit| -> (r: C)
                            requires
                                C::written(&u).len() == N,
                            ensures
                                r.model() == C::spec_take(C::written(&u)),
                            { C::take(u) }));
                    }
                },
                Err(e) => {
                    inp.rewind(before);
                    M::map(output, |u: C::Uninit|
                        requires
                            C::written(&u).len() == i,
                        {
                            let mut u = u;
                            C::drop_before(&mut u, i);
                        });
                    return Err(e);
                },
            }
        }
    }
}

/// A parser run exactly `N` times with a separator between the runs,
/// collecting an array. See `spec_go` for what it accepts.
pub struct SeparatedByExactly<A, B, OB, C, const N: usize> {
    /// The parser.
    pub parser: A,
    /// The parser of separators.
    pub separator: B,
    /// Whether a separator may come before the first item.
    pub allow_leading: bool,
    /// Whether a separator may come after the last item.
    pub allow_trailing: bool,
    /// The types that the parser is about.
    pub phantom: PhantomData<(OB, C)>,
}

impl<A, B, OB, const N: usize> SeparatedByExactly<A, B, OB, (), N> {
    /// `parser`, repeated exactly `N` times with `separator` in between.
    pub fn new(parser: A, separator: B) -> (r: Self)
        ensures
            r.parser == parser,
            r.separator == separator,
            !r.allow_leading,
            !r.allow_trailing,
    {
        SeparatedByExactly {
            parser,
            separator,
            allow_leading: false,
            allow_trailing: false,
            phantom: PhantomData,
        }
    }
}

impl<A, B, OB, C, const N: usize> SeparatedByExactly<A, B, OB, C, N> {
    /// The same repetition, which accepts a separator before the first item.
    pub fn allow_leading(self) -> (r: Self)
        ensures
            r.parser == self.parser,
            r.separator == self.separator,
            r.allow_leading,
            r.allow_trailing == self.allow_trailing,
    {
        SeparatedByExactly {
            parser: self.parser,
            separator: self.separator,
            allow_leading: true,
            allow_trailing: self.allow_trailing,
            phantom: PhantomData,
        }
    }

    /// The same repetition, which accepts a separator after the last item.
    pub fn allow_trailing(self) -> (r: Self)
        ensures
            r.parser == self.parser,
            r.separator == self.separator,
            r.allow_leading == self.allow_leading,
            r.allow_trailing,
    {
        SeparatedByExactly {
            parser: self.parser,
            separator: self.separator,
            allow_leading: self.allow_leading,
            allow_trailing: true,
            phantom: PhantomData,
        }
    }

    /// The same repetition, with another collection named in its type. It
    /// collects an array whatever the collection named.
    pub fn collect<D>(self) -> (r: SeparatedByExactly<A, B, OB, D, N>)
        ensures
            r.parser == self.parser,
            r.separator == self.separator,
            r.allow_leading == self.allow_leading,
            r.allow_trailing == self.allow_trailing,
    {
        SeparatedByExactly {
            parser: self.parser,
            separator: self.separator,
            allow_leading: self.allow_leading,
            allow_trailing: self.allow_trailing,
            phantom: PhantomData,
        }
    }
}

impl<A, B, OB: Modeled, C, const N: usize> SeparatedByExactly<A, B, OB, C, N> {
    /// The runs from `c` on, with the items `acc` collected so far.
    ///
    /// An item that fails is undone, the cursor going back to the offset of
    /// `c`, and its error is the error of the repetition. So is the error
    /// of a separator that fails after an item that was not the `N`th: the
    /// cursor then goes back to where the separator began. The `N`th item
    /// ends the repetition in success, after a trailing separator if one is
    /// allowed and there.
    pub open spec fn spec_rounds<I: Input, E: Error<I>, S: Modeled, OA: Modeled>(
        &self,
        emit: bool,
        c: Cursor<I, E, S>,
        acc: Seq<OA::Model>,
    ) -> Outcome<I, Seq<OA::Model>, E, S> where A: Parser<I, OA, E, S>, B: Parser<I, OB, E, S>
        decreases N - acc.len(),
    {
        let item = self.parser.spec_go(emit, c);
        match item.result {
            Err(e) => Outcome { cursor: item.cursor.rewind(c.offset), result: Err(e) },
            Ok(v) => if acc.len() + 1 < N {
                let sep = self.separator.spec_go(false, item.cursor);
                match sep.result {
                    Err(e) => Outcome {
                        cursor: sep.cursor.rewind(item.cursor.offset),
                        result: Err(e),
                    },
                    Ok(_) => self.spec_rounds(emit, sep.cursor, acc.push(v)),
                }
            } else {
                Outcome {
                    cursor: if self.allow_trailing {
                        spec_attempt(&self.separator, item.cursor)
                    } else {
                        item.cursor
                    },
                    result: Ok(acc.push(v)),
                }
            },
        }
    }

    /// The runs do not depend on their kind if a run of the item parser
    /// does not.
    pub proof fn lemma_rounds_modes<I: Input, E: Error<I>, S: Modeled, OA: Modeled>(
        &self,
        c: Cursor<I, E, S>,
        acc: Seq<OA::Model>,
    ) where A: Parser<I, OA, E, S>, B: Parser<I, OB, E, S>
        requires
            self.parser.wf(),
            self.separator.wf(),
            self.parser.mode_free(),
            c.wf(),
        ensures
            self.spec_rounds::<I, E, S, OA>(true, c, acc) == self.spec_rounds::<I, E, S, OA>(
                false,
                c,
                acc,
            ),
        decreases N - acc.len(),
    {
        self.parser.lemma_modes(c);
        self.parser.lemma_spec_go(true, c);
        let item = self.parser.spec_go(true, c);
        if let Ok(v) = item.result {
            if acc.len() + 1 < N {
                self.separator.lemma_spec_go(false, item.cursor);
                let sep = self.separator.spec_go(false, item.cursor);
                if sep.result is Ok {
                    self.lemma_rounds_modes::<I, E, S, OA>(sep.cursor, acc.push(v));
                }
            }
        }
    }

    /// The runs from cursors that are alike are alike.
    pub proof fn lemma_rounds_recovered<I: Input, E: Error<I>, S: Modeled, OA: Modeled>(
        &self,
        emit: bool,
        c: Cursor<I, E, S>,
        before: Seq<E::Model>,
        c2: Cursor<I, E, S>,
        before2: Seq<E::Model>,
        acc: Seq<OA::Model>,
    ) where A: Parser<I, OA, E, S>, B: Parser<I, OB, E, S>
        requires
            self.parser.wf(),
            self.separator.wf(),
            c.wf(),
            alike_cursors(c, before, c2, before2),
        ensures
            alike(
                self.spec_rounds::<I, E, S, OA>(emit, c, acc),
                before,
                self.spec_rounds::<I, E, S, OA>(emit, c2, acc),
                before2,
            ),
        decreases N - acc.len(),
    {
        lemma_recovered_after(&self.parser, emit, c, before, c2, before2);
        self.parser.lemma_spec_go(emit, c);
        let item = self.parser.spec_go(emit, c);
        let item2 = self.parser.spec_go(emit, c2);
        if let Ok(v) = item.result {
            if acc.len() + 1 < N {
                lemma_recovered_after(
                    &self.separator,
                    false,
                    item.cursor,
                    before,
                    item2.cursor,
                    before2,
                );
                self.separator.lemma_spec_go(false, item.cursor);
                let sep = self.separator.spec_go(false, item.cursor);
                let sep2 = self.separator.spec_go(false, item2.cursor);
                if sep.result is Ok {
                    self.lemma_rounds_recovered::<I, E, S, OA>(
                        emit,
                        sep.cursor,
                        before,
                        sep2.cursor,
                        before2,
                        acc.push(v),
                    );
                }
            } else {
                lemma_attempt_recovered(
                    &self.separator,
                    item.cursor,
                    before,
                    item2.cursor,
                    before2,
                );
            }
        }
    }

    /// The runs leave the cursor at a boundary of the same input, and not
    /// before the offset at which they started.
    pub proof fn lemma_rounds<I: Input, E: Error<I>, S: Modeled, OA: Modeled>(
        &self,
        emit: bool,
        c: Cursor<I, E, S>,
        acc: Seq<OA::Model>,
    ) where A: Parser<I, OA, E, S>, B: Parser<I, OB, E, S>
        requires
            self.parser.wf(),
            self.separator.wf(),
            c.wf(),
        ensures
            self.spec_rounds(emit, c, acc).cursor.wf(),
            self.spec_rounds(emit, c, acc).cursor.input == c.input,
            self.spec_rounds(emit, c, acc).cursor.offset >= c.offset,
        decreases N - acc.len(),
    {
        self.parser.lemma_spec_go(emit, c);
        let item = self.parser.spec_go(emit, c);
        if let Ok(v) = item.result {
            self.separator.lemma_spec_go(false, item.cursor);
            if acc.len() + 1 < N {
                let sep = self.separator.spec_go(false, item.cursor);
                if sep.result is Ok {
                    self.lemma_rounds(emit, sep.cursor, acc.push(v));
                }
            }
        }
    }
}

impl<I, E, S, A, B, OA, OB, C, const N: usize> Parser<I, [OA; N], E, S> for SeparatedByExactly<
    A,
    B,
    OB,
    C,
    N,
> where
    I: Input,
    E: Error<I>,
    S: Modeled,
    OA: Modeled,
    OB: Modeled,
    A: Parser<I, OA, E, S>,
    B: Parser<I, OB, E, S>,
 {
    /// There is no array of no items to fill: `N` is not 0.
    open spec fn wf(&self) -> bool {
        &&& self.parser.wf()
        &&& self.separator.wf()
        &&& N > 0
    }

    /// A leading separator is read if one is allowed and there. Then come
    /// the rounds.
    open spec fn spec_go(&self, emit: bool, c: Cursor<I, E, S>) -> Outcome<
        I,
        Seq<OA::Model>,
        E,
        S,
    > {
        self.spec_rounds(
            emit,
            if self.allow_leading {
                spec_attempt(&self.separator, c)
            } else {
                c
            },
            Seq::empty(),
        )
    }

    proof fn lemma_spec_go(&self, emit: bool, c: Cursor<I, E, S>) {
        lemma_attempt(&self.separator, c);
        self.lemma_rounds::<I, E, S, OA>(
            emit,
            if self.allow_leading {
                spec_attempt(&self.separator, c)
            } else {
                c
            },
            Seq::empty(),
        );
    }

    proof fn lemma_recovered(&self, emit: bool, c: Cursor<I, E, S>, errors: Seq<E::Model>) {
        lemma_alike_still(c, errors);
        let c2 = c.with_errors(errors);
        lemma_attempt(&self.separator, c);
        lemma_attempt_recovered(&self.separator, c, c.errors, c2, errors);
        self.lemma_rounds_recovered::<I, E, S, OA>(
            emit,
            if self.allow_leading {
                spec_attempt(&self.separator, c)
            } else {
                c
            },
            c.errors,
            if self.allow_leading {
                spec_attempt(&self.separator, c2)
            } else {
                c2
            },
            errors,
            Seq::empty(),
        );
    }

    /// A run does not depend on its kind if a run of the item parser does not.
    open spec fn mode_free(&self) -> bool {
        self.parser.mode_free()
    }

    proof fn lemma_modes(&self, c: Cursor<I, E, S>) {
        lemma_attempt(&self.separator, c);
        self.lemma_rounds_modes::<I, E, S, OA>(
            if self.allow_leading {
                spec_attempt(&self.separator, c)
            } else {
                c
            },
            Seq::empty(),
        );
    }

    fn go<M: Mode>(&self, inp: &mut InputRef<I, E, S>) -> (r: PResult<[OA; N], E>) {
        let ghost emit = M::emits();
        if self.allow_leading {
            attempt(&self.separator, inp);
        }
        let mut i: usize = 0;
        let mut output: Option<Vec<OA>> = M::bind(<[OA; N] as ContainerExactly<OA, N>>::uninit);
        let ghost mut acc: Seq<OA::Model> = Seq::empty();
        assert(output is Some ==> models(output->0@) =~= acc);
        loop
            invariant
                self.wf(),
                emit == M::emits(),
                inp.wf(),
                output is Some <==> M::emits(),
                output is Some ==> models(output->0@) == acc,
                i == acc.len(),
                i < N,
                self.spec_go(emit, old(inp)@) == self.spec_rounds::<I, E, S, OA>(emit, inp@, acc),
            decreases N - i,
        {
            let ghost here = inp@;
            let before = inp.save();
            proof {
                self.parser.lemma_spec_go(emit, here);
            }
            match self.parser.go::<M>(inp) {
                Ok(out) => {
                    let ghost after_item = inp@;
                    proof {
                        acc = acc.push(self.parser.spec_go(emit, here).result->Ok_0);
                        self.separator.lemma_spec_go(false, after_item);
                    }
                    output = M::combine(output, out, |u: Vec<OA>, item: OA| -> (r: Vec<OA>)
                        requires
                            u@.len() == i,
                            i < N,
                        ensures
                            models(r@) == models(u@).push(item.model()),
                        {
                            let mut u = u;
                            <[OA; N] as ContainerExactly<OA, N>>::write(&mut u, i, item);
                            u
                        });
                    i += 1;
                    if i == N {
                        if self.allow_trailing {
                            attempt(&self.separator, inp);
                        }
                        return Ok(M::map(output, |u: Vec<OA>| -> (r: [OA; N])
                            requires
                                models(u@).len() == N,
                            ensures
                                r.model() == models(u@),
                            { <[OA; N] as ContainerExactly<OA, N>>::take(u) }));
                    } else {
                        let before_separator = inp.save();
                        if let Err(e) = self.separator.go::<crate::mode::Check>(inp) {
                            inp.rewind(before_separator);
                            M::map(output, |u: Vec<OA>|
                                requires
                                    u@.len() == i,
                                {
                                    let mut u = u;
                                    <[OA; N] as ContainerExactly<OA, N>>::drop_before(&mut u, i);
                                });
                            return Err(e);
                        }
                    }
                },
                Err(e) => {
                    inp.rewind(before);
                    M::map(output, |u: Vec<OA>|
                        requires
                            u@.len() == i,
                        {
                            let mut u = u;
                            <[OA; N] as ContainerExactly<OA, N>>::drop_before(&mut u, i);
                        });
                    return Err(e);
                },
            }
        }
    }
}

impl<A: Clone, OA, C, const N: usize> Clone for RepeatedExactly<A, OA, C, N> {
    /// A copy of the parser, made of copies of its parts.
    fn clone(&self) -> (r: Self)
        ensures
            cloned(self.parser, r.parser),
    {
        RepeatedExactly { parser: self.parser.clone(), phantom: PhantomData }
    }
}

impl<A: Copy, OA, C, const N: usize> Copy for RepeatedExactly<A, OA, C, N> {
}

impl<A: Clone, B: Clone, OB, C, const N: usize> Clone for SeparatedByExactly<A, B, OB, C, N> {
    /// A copy of the parser, made of copies of its parts.
    fn clone(&self) -> (r: Self)
        ensures
            cloned(self.parser, r.parser),
            cloned(self.separator, r.separator),
            r.allow_leading == self.allow_leading,
            r.allow_trailing == self.allow_trailing,
    {
        SeparatedByExactly {
            parser: self.parser.clone(),
            separator: self.separator.clone(),
            allow_leading: self.allow_leading,
            allow_trailing: self.allow_trailing,
            phantom: PhantomData,
        }
    }
}

impl<A: Copy, B: Copy, OB, C, const N: usize> Copy for SeparatedByExactly<A, B, OB, C, N> {
}

} // verus!
