//! Folding: a sequence of outputs brought down to one value.

use crate::error::Error;
use crate::function::{computes2, model2};
use crate::input::{Cursor, Input, InputRef};
use crate::mode::Mode;
use crate::model::{models, Modeled};
use crate::parser::{Outcome, PResult, Parser};
use core::marker::PhantomData;
use vstd::pervasive::cloned;
use vstd::prelude::*;

verus! {

/// What `f` brings `head` and then the items of `tail`, first to last, down
/// to: `f(f(f(head, t0), t1), t2)`.
pub open spec fn spec_foldl<A, B>(f: spec_fn(A, B) -> A, head: A, tail: Seq<B>) -> A
    decreases tail.len(),
{
    if tail.len() == 0 {
        head
    } else {
        f(spec_foldl(f, head, tail.drop_last()), tail.last())
    }
}

/// What `f` brings the items of `init`, last to first, and then `end` down
/// to: `f(i0, f(i1, f(i2, end)))`.
pub open spec fn spec_foldr<A, B>(f: spec_fn(A, B) -> B, init: Seq<A>, end: B) -> B
    decreases init.len(),
{
    if init.len() == 0 {
        end
    } else {
        spec_foldr(f, init.drop_last(), f(init.last(), end))
    }
}

/// Folds `tail` onto `head` from the left.
fn fold_left<F: Fn(A, B) -> A, A: Modeled, B: Modeled>(
    f: &F,
    head: A,
    tail: Vec<B>,
    m: Ghost<spec_fn(A::Model, B::Model) -> A::Model>,
) -> (r: A)
    requires
        computes2::<F, A, B, A>(*f, m@),
    ensures
        r.model() == spec_foldl(m@, head.model(), tail.model()),
{
    let mut acc = head;
    let ghost items = tail@;
    for item in it: tail.into_iter()
        invariant
            computes2::<F, A, B, A>(*f, m@),
            it.seq() == items,
            acc.model() == spec_foldl(m@, head.model(), models(items.take(it.index() as int))),
    {
        proof {
            let i = it.index() as int;
            assert(models(items.take(i + 1)).drop_last() =~= models(items.take(i)));
            assert(models(items.take(i + 1)).last() == item.model());
        }
        acc = f(acc, item);
    }
    proof {
        assert(items.take(items.len() as int) =~= items);
    }
    acc
}

/// Folds `init` onto `end` from the right.
fn fold_right<F: Fn(A, B) -> B, A: Modeled, B: Modeled>(
    f: &F,
    init: Vec<A>,
    end: B,
    m: Ghost<spec_fn(A::Model, B::Model) -> B::Model>,
) -> (r: B)
    requires
        computes2::<F, A, B, B>(*f, m@),
    ensures
        r.model() == spec_foldr(m@, init.model(), end.model()),
{
    let mut init = init;
    let mut acc = end;
    let ghost whole = init.model();
    while init.len() > 0
        invariant
            computes2::<F, A, B, B>(*f, m@),
            spec_foldr(m@, whole, end.model()) == spec_foldr(m@, init.model(), acc.model()),
        decreases init.len(),
    {
        let ghost before = init@;
        let a = init.pop().unwrap();
        proof {
            assert(models(before).drop_last() =~= models(init@));
            assert(models(before).last() == a.model());
        }
        acc = f(a, acc);
    }
    acc
}

/// A parser of a value and a sequence, folded from the left. The sequence
/// is a `Vec`: the parser gives a pair of a value and a vector. See
/// `spec_go`.
pub struct Foldl<P, F, A: Modeled, B: Modeled, E, S> {
    /// The parser.
    pub parser: P,
    /// The function.
    pub folder: F,
    /// What `folder` computes, on models.
    pub model: Ghost<spec_fn(A::Model, B::Model) -> A::Model>,
    /// The types that the parser is about.
    pub phantom: PhantomData<(A, B, E, S)>,
}

impl<P, F: Fn(A, B) -> A, A: Modeled, B: Modeled, E, S> Foldl<P, F, A, B, E, S> {
    /// `parser`, with its output folded by `folder`.
    pub fn new(parser: P, folder: F) -> (r: Self)
        ensures
            r.parser == parser,
            r.folder == folder,
            r.model@ == |a: A::Model, b: B::Model| model2::<F, A, B, A>(folder, a, b),
    {
        let ghost model = |a: A::Model, b: B::Model| model2::<F, A, B, A>(folder, a, b);
        Foldl { parser, folder, model: Ghost(model), phantom: PhantomData }
    }

    /// As [`Foldl::new`], where `model` says what `folder` computes.
    pub fn with_model(
        parser: P,
        folder: F,
        model: Ghost<spec_fn(A::Model, B::Model) -> A::Model>,
    ) -> (r: Self)
        ensures
            r.parser == parser,
            r.folder == folder,
            r.model == model,
    {
        Foldl { parser, folder, model, phantom: PhantomData }
    }
}

impl<I, P, F, A, B, E, S> Parser<I, A, E, S> for Foldl<P, F, A, B, E, S> where
    I: Input,
    A: Modeled,
    B: Modeled,
    E: Error<I>,
    S: Modeled,
    P: Parser<I, (A, Vec<B>), E, S>,
    F: Fn(A, B) -> A,
 {
    /// The parser can be run, and `model` says what the function computes.
    open spec fn wf(&self) -> bool {
        self.parser.wf() && computes2::<F, A, B, A>(self.folder, self.model@)
    }

    /// The run is the parser's run, with the output folded: the function
    /// is applied to the value and the first item, then to what that gave
    /// and the second item, and so on.
    open spec fn spec_go(&self, emit: bool, c: Cursor<I, E, S>) -> Outcome<I, A::Model, E, S> {
        let a = self.parser.spec_go(emit, c);
        Outcome {
            cursor: a.cursor,
            result: match a.result {
                Ok(v) => Ok(spec_foldl(self.model@, v.0, v.1)),
                Err(e) => Err(e),
            },
        }
    }

    proof fn lemma_spec_go(&self, emit: bool, c: Cursor<I, E, S>) {
        self.parser.lemma_spec_go(emit, c);
    }

    proof fn lemma_recovered(&self, emit: bool, c: Cursor<I, E, S>, errors: Seq<E::Model>) {
        self.parser.lemma_recovered(emit, c, errors);
    }

    /// A run does not depend on its kind if a run of the parser does not.
    open spec fn mode_free(&self) -> bool {
        self.parser.mode_free()
    }

    proof fn lemma_modes(&self, c: Cursor<I, E, S>) {
        self.parser.lemma_modes(c);
    }

    fn go<M: Mode>(&self, inp: &mut InputRef<I, E, S>) -> (r: PResult<A, E>) {
        let out = self.parser.go::<M>(inp)?;
        Ok(M::map(out, |pair: (A, Vec<B>)| -> (r: A)
            requires
                computes2::<F, A, B, A>(self.folder, self.model@),
            ensures
                r.model() == spec_foldl(self.model@, pair.0.model(), pair.1.model()),
            { fold_left(&self.folder, pair.0, pair.1, Ghost(self.model@)) }))
    }
}

/// A parser of a sequence and a value, folded from the right. The sequence
/// is a `Vec`: the parser gives a pair of a vector and a value. See
/// `spec_go`.
pub struct Foldr<P, F, A: Modeled, B: Modeled, E, S> {
    /// The parser.
    pub parser: P,
    /// The function.
    pub folder: F,
    /// What `folder` computes, on models.
    pub model: Ghost<spec_fn(A::Model, B::Model) -> B::Model>,
    /// The types that the parser is about.
    pub phantom: PhantomData<(A, B, E, S)>,
}

impl<P, F: Fn(A, B) -> B, A: Modeled, B: Modeled, E, S> Foldr<P, F, A, B, E, S> {
    /// `parser`, with its output folded by `folder`.
    pub fn new(parser: P, folder: F) -> (r: Self)
        ensures
            r.parser == parser,
            r.folder == folder,
            r.model@ == |a: A::Model, b: B::Model| model2::<F, A, B, B>(folder, a, b),
    {
        let ghost model = |a: A::Model, b: B::Model| model2::<F, A, B, B>(folder, a, b);
        Foldr { parser, folder, model: Ghost(model), phantom: PhantomData }
    }

    /// As [`Foldr::new`], where `model` says what `folder` computes.
    pub fn with_model(
        parser: P,
        folder: F,
        model: Ghost<spec_fn(A::Model, B::Model) -> B::Model>,
    ) -> (r: Self)
        ensures
            r.parser == parser,
            r.folder == folder,
            r.model == model,
    {
        Foldr { parser, folder, model, phantom: PhantomData }
    }
}

impl<I, P, F, A, B, E, S> Parser<I, B, E, S> for Foldr<P, F, A, B, E, S> where
    I: Input,
    A: Modeled,
    B: Modeled,
    E: Error<I>,
    S: Modeled,
    P: Parser<I, (Vec<A>, B), E, S>,
    F: Fn(A, B) -> B,
 {
    /// The parser can be run, and `model` says what the function computes.
    open spec fn wf(&self) -> bool {
        self.parser.wf() && computes2::<F, A, B, B>(self.folder, self.model@)
    }

    /// The run is the parser's run, with the output folded: the function
    /// is applied to the last item and the value, then to the item before
    /// it and what that gave, and so on.
    open spec fn spec_go(&self, emit: bool, c: Cursor<I, E, S>) -> Outcome<I, B::Model, E, S> {
        let a = self.parser.spec_go(emit, c);
        Outcome {
            cursor: a.cursor,
            result: match a.result {
                Ok(v) => Ok(spec_foldr(self.model@, v.0, v.1)),
                Err(e) => Err(e),
            },
        }
    }

    proof fn lemma_spec_go(&self, emit: bool, c: Cursor<I, E, S>) {
        self.parser.lemma_spec_go(emit, c);
    }

    proof fn lemma_recovered(&self, emit: bool, c: Cursor<I, E, S>, errors: Seq<E::Model>) {
        self.parser.lemma_recovered(emit, c, errors);
    }

    /// A run does not depend on its kind if a run of the parser does not.
    open spec fn mode_free(&self) -> bool {
        self.parser.mode_free()
    }

    proof fn lemma_modes(&self, c: Cursor<I, E, S>) {
        self.parser.lemma_modes(c);
    }

    fn go<M: Mode>(&self, inp: &mut InputRef<I, E, S>) -> (r: PResult<B, E>) {
        let out = self.parser.go::<M>(inp)?;
        Ok(M::map(out, |pair: (Vec<A>, B)| -> (r: B)
            requires
                computes2::<F, A, B, B>(self.folder, self.model@),
            ensures
                r.model() == spec_foldr(self.model@, pair.0.model(), pair.1.model()),
            { fold_right(&self.folder, pair.0, pair.1, Ghost(self.model@)) }))
    }
}

impl<P: Clone, F: Clone, A: Modeled, B: Modeled, E, S> Clone for Foldl<P, F, A, B, E, S> {
    /// A copy of the parser, made of copies of its parts.
    fn clone(&self) -> (r: Self)
        ensures
            cloned(self.parser, r.parser),
            cloned(self.folder, r.folder),
            r.model == self.model,
    {
        Foldl {
            parser: self.parser.clone(),
            folder: self.folder.clone(),
            model: self.model,
            phantom: PhantomData,
        }
    }
}

impl<P: Copy, F: Copy, A: Modeled, B: Modeled, E, S> Copy for Foldl<P, F, A, B, E, S> {
}

impl<P: Clone, F: Clone, A: Modeled, B: Modeled, E, S> Clone for Foldr<P, F, A, B, E, S> {
    /// A copy of the parser, made of copies of its parts.
    fn clone(&self) -> (r: Self)
        ensures
            cloned(self.parser, r.parser),
            cloned(self.folder, r.folder),
            r.model == self.model,
    {
        Foldr {
            parser: self.parser.clone(),
            folder: self.folder.clone(),
            model: self.model,
            phantom: PhantomData,
        }
    }
}

impl<P: Copy, F: Copy, A: Modeled, B: Modeled, E, S> Copy for Foldr<P, F, A, B, E, S> {
}

} // verus!
