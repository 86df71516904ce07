//! The input that parsers read, and a parser's place in it.

use crate::model::{models, Modeled};
use vstd::prelude::*;

verus! {

/// A range of input, from the offset `start` up to the offset `end`.
#[derive(Clone, Copy, Debug, PartialEq, Eq, Structural)]
pub struct Span {
    /// The offset of the first token of the range.
    pub start: usize,
    /// The offset just after the last token of the range.
    pub end: usize,
}

impl Modeled for Span {
    type Model = Span;

    open spec fn model(&self) -> Span {
        *self
    }
}

/// What an input is a sequence of: a value that can be copied, and compared
/// with another.
pub trait Token: Modeled + Copy {
    /// Whether the two tokens stand for the same.
    fn same(&self, other: &Self) -> (b: bool)
        ensures
            b == (self.model() == other.model()),
    ;
}

impl Token for char {
    fn same(&self, other: &char) -> (b: bool) {
        *self == *other
    }
}

impl Token for bool {
    fn same(&self, other: &bool) -> (b: bool) {
        *self == *other
    }
}

impl Token for u8 {
    fn same(&self, other: &u8) -> (b: bool) {
        *self == *other
    }
}

impl Token for u16 {
    fn same(&self, other: &u16) -> (b: bool) {
        *self == *other
    }
}

impl Token for u32 {
    fn same(&self, other: &u32) -> (b: bool) {
        *self == *other
    }
}

impl Token for u64 {
    fn same(&self, other: &u64) -> (b: bool) {
        *self == *other
    }
}

impl Token for usize {
    fn same(&self, other: &usize) -> (b: bool) {
        *self == *other
    }
}

/// A sequence of tokens that can be read from any offset at which a token
/// begins.
///
/// Offsets count in units of the input's own choosing (a slice counts
/// elements, a string counts bytes). The offsets at which a token begins, and
/// the offset of the end of the input, are the input's boundaries.
pub trait Input: Sized {
    /// What the input is a sequence of.
    type Token: Token;

    /// The offset of the end of the input.
    spec fn spec_len(&self) -> nat;

    /// Whether a token begins, or the input ends, at `offset`.
    spec fn boundary(&self, offset: int) -> bool;

    /// The model of the token that begins at the boundary `offset`.
    spec fn spec_token(&self, offset: int) -> <Self::Token as Modeled>::Model;

    /// The boundary that follows the token that begins at `offset`.
    spec fn spec_after(&self, offset: int) -> int;

    /// Boundaries lie within the input, the start and the end are boundaries,
    /// and each token ends at a later boundary.
    proof fn lemma_boundaries(&self, offset: int)
        ensures
            self.boundary(0),
            self.boundary(self.spec_len() as int),
            self.boundary(offset) ==> 0 <= offset <= self.spec_len(),
            self.boundary(offset) && offset < self.spec_len() ==> offset < self.spec_after(offset)
                <= self.spec_len() && self.boundary(self.spec_after(offset)),
    ;

    /// The offset of the end of the input.
    fn len(&self) -> (n: usize)
        ensures
            n == self.spec_len(),
    ;

    /// Reads the token that begins at `offset`: gives it with the offset that
    /// follows it, or `None` with `offset` itself at the end of the input.
    fn next(&self, offset: usize) -> (r: (usize, Option<Self::Token>))
        requires
            self.boundary(offset as int),
        ensures
            offset < self.spec_len() ==> r.0 == self.spec_after(offset as int) && r.1 is Some
                && r.1->0.model() == self.spec_token(offset as int),
            offset >= self.spec_len() ==> r.0 == offset && r.1 is None,
    ;
}

/// An input of which a range can be taken without copying it.
pub trait SliceInput: Input {
    /// A range of the input.
    type Slice: Modeled;

    /// The model of the range from the boundary `start` to the boundary `end`.
    spec fn spec_slice(&self, start: int, end: int) -> <Self::Slice as Modeled>::Model;

    /// Whether the two ranges stand for the same.
    fn same_slice(a: &Self::Slice, b: &Self::Slice) -> (r: bool)
        ensures
            r == (a.model() == b.model()),
    ;

    /// The range of the input from `start` to `end`.
    fn slice(&self, start: usize, end: usize) -> (r: Self::Slice)
        requires
            self.boundary(start as int),
            self.boundary(end as int),
            start <= end,
        ensures
            r.model() == self.spec_slice(start as int, end as int),
    ;
}

impl<'a, T: Token> Input for &'a [T] {
    type Token = T;

    open spec fn spec_len(&self) -> nat {
        self@.len()
    }

    open spec fn boundary(&self, offset: int) -> bool {
        0 <= offset <= self@.len()
    }

    open spec fn spec_token(&self, offset: int) -> T::Model {
        self@[offset].model()
    }

    open spec fn spec_after(&self, offset: int) -> int {
        offset + 1
    }

    proof fn lemma_boundaries(&self, offset: int) {
    }

    fn len(&self) -> (n: usize) {
        let whole: &[T] = *self;
        whole.len()
    }

    fn next(&self, offset: usize) -> (r: (usize, Option<T>)) {
        let whole: &[T] = *self;
        if offset < whole.len() {
            (offset + 1, Some(whole[offset]))
        } else {
            (offset, None)
        }
    }
}

impl<'a, T: Token> SliceInput for &'a [T] {
    type Slice = &'a [T];

    open spec fn spec_slice(&self, start: int, end: int) -> Seq<T::Model> {
        models(self@.subrange(start, end))
    }

    fn slice(&self, start: usize, end: usize) -> (r: &'a [T]) {
        let whole: &'a [T] = *self;
        &whole[start..end]
    }

    fn same_slice(a: &&'a [T], b: &&'a [T]) -> (r: bool) {
        if a.len() != b.len() {
            assert(a.model().len() != b.model().len());
            return false;
        }
        let mut i: usize = 0;
        while i < a.len()
            invariant
                a@.len() == b@.len(),
                i <= a@.len(),
                forall|j: int| 0 <= j < i ==> a@[j].model() == b@[j].model(),
            decreases a@.len() - i,
        {
            if !a[i].same(&b[i]) {
                assert(a.model()[i as int] != b.model()[i as int]);
                return false;
            }
            i += 1;
        }
        assert(a.model() =~= b.model());
        true
    }
}

/// Where a parser stands: the input, its offset into it, the user's state,
/// and the errors that were recovered from so far.
pub struct Cursor<I, E: Modeled, S: Modeled> {
    /// The input.
    pub input: I,
    /// The offset of the next token to read.
    pub offset: int,
    /// The user's state.
    pub state: S::Model,
    /// The errors that parsers recovered from, oldest first.
    pub errors: Seq<E::Model>,
}

impl<I: Input, E: Modeled, S: Modeled> Cursor<I, E, S> {
    /// The offset is a boundary of the input.
    pub open spec fn wf(self) -> bool {
        self.input.boundary(self.offset)
    }

    /// Whether all of the input has been read.
    pub open spec fn at_end(self) -> bool {
        self.offset >= self.input.spec_len()
    }

    /// How much of the input is left to read.
    pub open spec fn remaining(self) -> nat {
        if self.offset <= self.input.spec_len() {
            (self.input.spec_len() - self.offset) as nat
        } else {
            0
        }
    }

    /// The model of the next token.
    pub open spec fn token(self) -> <I::Token as Modeled>::Model {
        self.input.spec_token(self.offset)
    }

    /// The same cursor after the next token, or unchanged at the end of the
    /// input.
    pub open spec fn advance(self) -> Self {
        if self.at_end() {
            self
        } else {
            Cursor { offset: self.input.spec_after(self.offset), ..self }
        }
    }

    /// The same cursor at another offset. The state and the recovered errors
    /// stay as they are.
    pub open spec fn rewind(self, offset: int) -> Self {
        Cursor { offset, ..self }
    }

    /// The same cursor with another state.
    pub open spec fn with_state(self, state: S::Model) -> Self {
        Cursor { state, ..self }
    }

    /// The same cursor with other recovered errors.
    pub open spec fn with_errors(self, errors: Seq<E::Model>) -> Self {
        Cursor { errors, ..self }
    }

    /// The same cursor with one more recovered error.
    pub open spec fn emit(self, e: E::Model) -> Self {
        Cursor { errors: self.errors.push(e), ..self }
    }

    /// The span from `start` to this cursor's offset.
    pub open spec fn span_since(self, start: int) -> Span {
        Span { start: start as usize, end: self.offset as usize }
    }
}

/// A parser's handle on the input: it reads tokens, remembers and restores
/// offsets, holds the user's state and collects recovered errors.
pub struct InputRef<I: Input, E: Modeled, S: Modeled> {
    input: I,
    offset: usize,
    state: S,
    errors: Vec<E>,
}

impl<I: Input, E: Modeled, S: Modeled> View for InputRef<I, E, S> {
    type V = Cursor<I, E, S>;

    closed spec fn view(&self) -> Cursor<I, E, S> {
        Cursor {
            input: self.input,
            offset: self.offset as int,
            state: self.state.model(),
            errors: models(self.errors@),
        }
    }
}

impl<I: Input, E: Modeled, S: Modeled> InputRef<I, E, S> {
    /// The offset is a boundary of the input.
    pub open spec fn wf(&self) -> bool {
        self@.wf()
    }

    /// A handle at the start of `input`, with no recovered errors.
    pub fn new(input: I, state: S) -> (r: Self)
        ensures
            r.wf(),
            r@.input == input,
            r@.offset == 0,
            r@.state == state.model(),
            r@.errors == Seq::<E::Model>::empty(),
    {
        proof {
            input.lemma_boundaries(0);
            crate::model::lemma_models_empty::<E>();
        }
        InputRef { input, offset: 0, state, errors: Vec::new() }
    }

    /// The offset fits a `usize`.
    pub proof fn lemma_offset(&self)
        ensures
            0 <= self@.offset <= usize::MAX,
    {
    }

    /// The current offset, to come back to with [`InputRef::rewind`].
    pub fn save(&self) -> (r: usize)
        ensures
            r == self@.offset,
    {
        self.offset
    }

    /// The current offset.
    pub fn last_pos(&self) -> (r: usize)
        ensures
            r == self@.offset,
    {
        self.offset
    }

    /// Goes back (or forward) to the boundary `offset`. What parsers did to
    /// the user's state in the meantime is not undone.
    pub fn rewind(&mut self, offset: usize)
        requires
            old(self)@.input.boundary(offset as int),
        ensures
            final(self)@ == old(self)@.rewind(offset as int),
    {
        self.offset = offset;
    }

    /// Reads the next token. Gives the offset at which it began and the
    /// token, or `None` at the end of the input.
    pub fn next(&mut self) -> (r: (usize, Option<I::Token>))
        requires
            old(self).wf(),
        ensures
            final(self).wf(),
            final(self)@ == old(self)@.advance(),
            r.0 == old(self)@.offset,
            old(self)@.at_end() ==> r.1 is None,
            !old(self)@.at_end() ==> r.1 is Some && r.1->0.model() == old(self)@.token(),
    {
        proof {
            self.input.lemma_boundaries(self.offset as int);
        }
        let at = self.offset;
        let (offset, token) = self.input.next(self.offset);
        self.offset = offset;
        (at, token)
    }

    /// The span from the offset `before` to the current offset.
    pub fn span_since(&self, before: usize) -> (r: Span)
        ensures
            r == self@.span_since(before as int),
    {
        Span { start: before, end: self.offset }
    }

    /// Records an error that a parser recovered from.
    pub fn emit(&mut self, error: E)
        ensures
            final(self)@ == old(self)@.emit(error.model()),
    {
        proof {
            crate::model::lemma_models_push(self.errors@, error);
        }
        self.errors.push(error);
    }

    /// The user's state, to read.
    pub fn state_ref(&self) -> (s: &S)
        ensures
            s.model() == self@.state,
    {
        &self.state
    }

    /// The user's state.
    pub fn state(&mut self) -> (s: &mut S)
        ensures
            (*s).model() == old(self)@.state,
            final(self)@ == old(self)@.with_state((*final(s)).model()),
    {
        &mut self.state
    }

    /// Ends the parse: gives back the user's state and the recovered errors.
    pub fn finish(self) -> (r: (S, Vec<E>))
        ensures
            r.0.model() == self@.state,
            r.1.model() == self@.errors,
    {
        (self.state, self.errors)
    }
}

impl<I: SliceInput, E: Modeled, S: Modeled> InputRef<I, E, S> {
    /// The range of the input from a boundary to the end of the input.
    pub fn slice_from(&self, start: usize) -> (r: I::Slice)
        requires
            self@.input.boundary(start as int),
        ensures
            r.model() == self@.input.spec_slice(start as int, self@.input.spec_len() as int),
    {
        proof {
            self.input.lemma_boundaries(start as int);
        }
        self.input.slice(start, self.input.len())
    }

    /// All of the input.
    pub fn full_slice(&self) -> (r: I::Slice)
        ensures
            r.model() == self@.input.spec_slice(0, self@.input.spec_len() as int),
    {
        proof {
            self.input.lemma_boundaries(0);
        }
        self.input.slice(0, self.input.len())
    }

    /// The range of the input between two boundaries.
    pub fn slice(&self, start: usize, end: usize) -> (r: I::Slice)
        requires
            self@.input.boundary(start as int),
            self@.input.boundary(end as int),
            start <= end,
        ensures
            r.model() == self@.input.spec_slice(start as int, end as int),
    {
        self.input.slice(start, end)
    }
}

} // verus!
