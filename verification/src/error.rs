//! Errors and where they were raised.

use crate::input::{Input, Span};
use crate::model::{models, Modeled};
use vstd::prelude::*;

verus! {

/// The model of a token of the input `I`.
pub type TokenModel<I> = <<I as Input>::Token as Modeled>::Model;

/// What a parser needs of an error type: a way to say that something other
/// than what was expected was found, and a way to merge two errors raised at
/// the same place.
pub trait Error<I: Input>: Modeled + Sized {
    /// The model of the error that [`Error::expected_found`] builds.
    spec fn spec_expected_found(
        expected: Seq<Option<TokenModel<I>>>,
        found: Option<TokenModel<I>>,
        span: Span,
    ) -> Self::Model;

    /// The model of the error that [`Error::merge`] builds.
    spec fn spec_merge(a: Self::Model, b: Self::Model) -> Self::Model;

    /// An error that says: one of `expected` was expected over `span`, and
    /// `found` was found (`None` stands for the end of the input).
    fn expected_found(expected: Vec<Option<I::Token>>, found: Option<I::Token>, span: Span) -> (e:
        Self)
        ensures
            e.model() == Self::spec_expected_found(expected.model(), found.model(), span),
    ;

    /// One error that stands for both `self` and `other`.
    fn merge(self, other: Self) -> (e: Self)
        ensures
            e.model() == Self::spec_merge(self.model(), other.model()),
    ;
}

impl<I: Input> Error<I> for () {
    open spec fn spec_expected_found(
        expected: Seq<Option<TokenModel<I>>>,
        found: Option<TokenModel<I>>,
        span: Span,
    ) -> () {
        ()
    }

    open spec fn spec_merge(a: (), b: ()) -> () {
        ()
    }

    fn expected_found(expected: Vec<Option<I::Token>>, found: Option<I::Token>, span: Span) -> (e:
        ()) {
        ()
    }

    fn merge(self, other: ()) -> (e: ()) {
        ()
    }
}

/// An error together with the offset in the input at which it was raised.
pub struct Located<E> {
    /// The offset at which the error was raised.
    pub pos: usize,
    /// The error.
    pub err: E,
}

impl<E: Modeled> Modeled for Located<E> {
    type Model = Located<E::Model>;

    open spec fn model(&self) -> Located<E::Model> {
        Located { pos: self.pos, err: self.err.model() }
    }
}

/// The error that stands for two failed alternatives: the one raised further
/// into the input, or else, when both were raised at the same offset, their
/// merge.
pub open spec fn spec_prioritize<I: Input, E: Error<I>>(
    a: Located<E::Model>,
    b: Located<E::Model>,
) -> Located<E::Model> {
    if a.pos > b.pos {
        a
    } else if a.pos < b.pos {
        b
    } else {
        Located { pos: a.pos, err: E::spec_merge(a.err, b.err) }
    }
}

impl<E> Located<E> {
    /// The error `err`, raised at `pos`.
    pub fn at(pos: usize, err: E) -> (r: Self)
        ensures
            r.pos == pos,
            r.err == err,
    {
        Located { pos, err }
    }

    /// Chooses between the errors of two failed alternatives: the one raised
    /// further into the input wins, and two errors at the same offset are
    /// merged.
    pub fn prioritize<I: Input>(self, other: Self) -> (r: Self) where E: Error<I>
        ensures
            r.model() == spec_prioritize::<I, E>(self.model(), other.model()),
    {
        if self.pos > other.pos {
            self
        } else if self.pos < other.pos {
            other
        } else {
            Located { pos: self.pos, err: self.err.merge(other.err) }
        }
    }
}

/// A plain error: what was expected, what was found, and where.
#[derive(Debug, Clone, PartialEq, Eq)]
pub struct Simple<T> {
    /// The range of input that the error is about.
    pub span: Span,
    /// What was expected; `None` stands for the end of the input.
    pub expected: Vec<Option<T>>,
    /// What was found; `None` stands for the end of the input.
    pub found: Option<T>,
}

/// The model of a [`Simple`] error.
pub struct SimpleModel<M> {
    /// The range of input that the error is about.
    pub span: Span,
    /// What was expected.
    pub expected: Seq<Option<M>>,
    /// What was found.
    pub found: Option<M>,
}

impl<T: Modeled> Modeled for Simple<T> {
    type Model = SimpleModel<T::Model>;

    open spec fn model(&self) -> SimpleModel<T::Model> {
        SimpleModel {
            span: self.span,
            expected: self.expected.model(),
            found: self.found.model(),
        }
    }
}

impl<I: Input> Error<I> for Simple<I::Token> {
    open spec fn spec_expected_found(
        expected: Seq<Option<TokenModel<I>>>,
        found: Option<TokenModel<I>>,
        span: Span,
    ) -> SimpleModel<TokenModel<I>> {
        SimpleModel { span, expected, found }
    }

    /// The merge of two errors is the first, expecting what either
    /// expected.
    open spec fn spec_merge(
        a: SimpleModel<TokenModel<I>>,
        b: SimpleModel<TokenModel<I>>,
    ) -> SimpleModel<TokenModel<I>> {
        SimpleModel { span: a.span, expected: a.expected + b.expected, found: a.found }
    }

    fn expected_found(expected: Vec<Option<I::Token>>, found: Option<I::Token>, span: Span) -> (e:
        Self) {
        Simple { span, expected, found }
    }

    fn merge(self, other: Self) -> (e: Self) {
        let Simple { span, expected, found } = self;
        let mut expected = expected;
        let mut more = other.expected;
        proof {
            assert(models(expected@ + more@) =~= models(expected@) + models(more@));
        }
        expected.append(&mut more);
        Simple { span, expected, found }
    }
}

} // verus!
