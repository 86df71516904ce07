//! The parsers that read the input themselves.

use crate::error::{Error, Located, TokenModel};
use crate::input::{Cursor, Input, InputRef, Token};
use crate::mode::Mode;
use crate::model::{lemma_models_empty, Modeled};
use crate::parser::{lemma_alike_still, Outcome, PResult, Parser};
use vstd::pervasive::cloned;
use vstd::prelude::*;

verus! {

/// The error for a token that was not wanted, or for the end of the input
/// where a token was wanted: it is raised at the offset `c` and spans what
/// was read.
pub open spec fn unexpected<I: Input, E: Error<I>, S: Modeled>(
    c: Cursor<I, E, S>,
    expected: Seq<Option<TokenModel<I>>>,
) -> Located<E::Model> {
    Located {
        pos: c.offset as usize,
        err: E::spec_expected_found(
            expected,
            if c.at_end() {
                None
            } else {
                Some(c.token())
            },
            c.advance().span_since(c.offset),
        ),
    }
}

/// Accepts any one token and gives it back. Fails at the end of the input.
#[derive(Clone, Copy, Debug)]
pub struct Any;

/// A parser that accepts any one token.
pub fn any() -> (r: Any) {
    Any
}

impl<I: Input, E: Error<I>, S: Modeled> Parser<I, I::Token, E, S> for Any {
    /// This parser can always be run.
    open spec fn wf(&self) -> bool {
        true
    }

    open spec fn spec_go(&self, emit: bool, c: Cursor<I, E, S>) -> Outcome<I, TokenModel<I>, E, S> {
        if c.at_end() {
            Outcome { cursor: c, result: Err(unexpected(c, Seq::empty())) }
        } else {
            Outcome { cursor: c.advance(), result: Ok(c.token()) }
        }
    }

    proof fn lemma_spec_go(&self, emit: bool, c: Cursor<I, E, S>) {
        c.input.lemma_boundaries(c.offset);
    }

    proof fn lemma_recovered(&self, emit: bool, c: Cursor<I, E, S>, errors: Seq<E::Model>) {
        lemma_alike_still(c, errors);
    }

    /// Both kinds of run are the same run.
    open spec fn mode_free(&self) -> bool {
        true
    }

    proof fn lemma_modes(&self, c: Cursor<I, E, S>) {
    }

    fn go<M: Mode>(&self, inp: &mut InputRef<I, E, S>) -> (r: PResult<I::Token, E>) {
        let before = inp.save();
        let (at, tok) = inp.next();
        match tok {
            Some(t) => Ok(M::bind(|| -> (o: I::Token) ensures o == t { t })),
            None => {
                let span = inp.span_since(before);
                proof {
                    lemma_models_empty::<Option<I::Token>>();
                }
                Err(Located::at(at, E::expected_found(Vec::new(), None, span)))
            },
        }
    }
}

/// Accepts one token, the one it holds, and gives it back.
pub struct Just<T> {
    /// The token.
    pub token: T,
}

/// A parser that accepts the token `token` alone.
pub fn just<T>(token: T) -> (r: Just<T>)
    ensures
        r.token == token,
{
    Just { token }
}

impl<I, E, S> Parser<I, I::Token, E, S> for Just<I::Token> where
    I: Input,
    E: Error<I>,
    S: Modeled,
 {
    /// This parser can always be run.
    open spec fn wf(&self) -> bool {
        true
    }

    /// The next token is read. The run succeeds with it if it is the token
    /// held. If it is another, or if the input has ended, the run fails
    /// with an error that names the token held as expected.
    open spec fn spec_go(&self, emit: bool, c: Cursor<I, E, S>) -> Outcome<I, TokenModel<I>, E, S> {
        Outcome {
            cursor: c.advance(),
            result: if !c.at_end() && c.token() == self.token.model() {
                Ok(c.token())
            } else {
                Err(unexpected(c, seq![Some(self.token.model())]))
            },
        }
    }

    proof fn lemma_spec_go(&self, emit: bool, c: Cursor<I, E, S>) {
        c.input.lemma_boundaries(c.offset);
    }

    proof fn lemma_recovered(&self, emit: bool, c: Cursor<I, E, S>, errors: Seq<E::Model>) {
        lemma_alike_still(c, errors);
    }

    /// Both kinds of run are the same run.
    open spec fn mode_free(&self) -> bool {
        true
    }

    proof fn lemma_modes(&self, c: Cursor<I, E, S>) {
    }

    fn go<M: Mode>(&self, inp: &mut InputRef<I, E, S>) -> (r: PResult<I::Token, E>) {
        let before = inp.save();
        let (at, tok) = inp.next();
        if let Some(t) = tok {
            if t.same(&self.token) {
                return Ok(M::bind(|| -> (o: I::Token)
                    ensures
                        o == t,
                    { t }));
            }
        }
        let span = inp.span_since(before);
        let expected = vec![Some(self.token)];
        proof {
            assert(expected.model() =~= seq![Some(self.token.model())]);
        }
        Err(Located::at(at, E::expected_found(expected, tok, span)))
    }
}

/// Accepts the end of the input and nothing else.
#[derive(Clone, Copy, Debug)]
pub struct End;

/// A parser that accepts the end of the input.
pub fn end() -> (r: End) {
    End
}

impl<I: Input, E: Error<I>, S: Modeled> Parser<I, (), E, S> for End {
    /// This parser can always be run.
    open spec fn wf(&self) -> bool {
        true
    }

    /// The run succeeds at the end of the input. Anywhere else it reads the
    /// next token and fails with an error that names the end of the input
    /// as expected.
    open spec fn spec_go(&self, emit: bool, c: Cursor<I, E, S>) -> Outcome<I, (), E, S> {
        Outcome {
            cursor: c.advance(),
            result: if c.at_end() {
                Ok(())
            } else {
                Err(unexpected(c, seq![None]))
            },
        }
    }

    proof fn lemma_spec_go(&self, emit: bool, c: Cursor<I, E, S>) {
        c.input.lemma_boundaries(c.offset);
    }

    proof fn lemma_recovered(&self, emit: bool, c: Cursor<I, E, S>, errors: Seq<E::Model>) {
        lemma_alike_still(c, errors);
    }

    /// Both kinds of run are the same run.
    open spec fn mode_free(&self) -> bool {
        true
    }

    proof fn lemma_modes(&self, c: Cursor<I, E, S>) {
    }

    fn go<M: Mode>(&self, inp: &mut InputRef<I, E, S>) -> (r: PResult<(), E>) {
        let before = inp.save();
        let (at, tok) = inp.next();
        match tok {
            None => Ok(M::bind(|| -> (o: ()) { () })),
            Some(t) => {
                let span = inp.span_since(before);
                let expected: Vec<Option<I::Token>> = vec![None];
                proof {
                    assert(expected.model() =~= seq![None]);
                }
                Err(Located::at(at, E::expected_found(expected, Some(t), span)))
            },
        }
    }
}

/// A parser that leaves no input behind: what follows what it accepts is
/// read and dropped. See `spec_go`.
pub struct Lazy<A> {
    /// The parser.
    pub parser: A,
}

impl<A> Lazy<A> {
    /// `parser`, followed by anything.
    pub fn new(parser: A) -> (r: Self)
        ensures
            r.parser == parser,
    {
        Lazy { parser }
    }
}

impl<I, O, E, S, A> Parser<I, O, E, S> for Lazy<A> where
    I: Input,
    O: Modeled,
    E: Error<I>,
    S: Modeled,
    A: Parser<I, O, E, S>,
 {
    /// The parser it is made of can be run.
    open spec fn wf(&self) -> bool {
        self.parser.wf()
    }

    /// The run is the parser's run, but a success leaves the cursor at the
    /// end of the input.
    open spec fn spec_go(&self, emit: bool, c: Cursor<I, E, S>) -> Outcome<I, O::Model, E, S> {
        let a = self.parser.spec_go(emit, c);
        match a.result {
            Ok(_) => Outcome {
                cursor: a.cursor.rewind(c.input.spec_len() as int),
                result: a.result,
            },
            Err(_) => a,
        }
    }

    proof fn lemma_spec_go(&self, emit: bool, c: Cursor<I, E, S>) {
        self.parser.lemma_spec_go(emit, c);
        c.input.lemma_boundaries(c.offset);
        c.input.lemma_boundaries(self.parser.spec_go(emit, c).cursor.offset);
    }

    proof fn lemma_recovered(&self, emit: bool, c: Cursor<I, E, S>, errors: Seq<E::Model>) {
        self.parser.lemma_recovered(emit, c, errors);
    }

    /// A run does not depend on its kind if a run of the parser does not.
    open spec fn mode_free(&self) -> bool {
        self.parser.mode_free()
    }

    proof fn lemma_modes(&self, c: Cursor<I, E, S>) {
        self.parser.lemma_modes(c);
    }

    fn go<M: Mode>(&self, inp: &mut InputRef<I, E, S>) -> (r: PResult<O, E>) {
        let ghost emit = M::emits();
        proof {
            self.parser.lemma_spec_go(emit, inp@);
        }
        let out = self.parser.go::<M>(inp)?;
        let ghost stopped = inp@;
        loop
            invariant
                inp.wf(),
                inp@ == stopped.rewind(inp@.offset),
            ensures
                inp@ == stopped.rewind(stopped.input.spec_len() as int),
            decreases inp@.remaining(),
        {
            proof {
                inp@.input.lemma_boundaries(inp@.offset);
            }
            let (_, tok) = inp.next();
            if tok.is_none() {
                break ;
            }
        }
        Ok(out)
    }
}

impl<T: Clone> Clone for Just<T> {
    /// A copy of the parser, made of copies of its parts.
    fn clone(&self) -> (r: Self)
        ensures
            cloned(self.token, r.token),
    {
        Just { token: self.token.clone() }
    }
}

impl<T: Copy> Copy for Just<T> {
}

impl<A: Clone> Clone for Lazy<A> {
    /// A copy of the parser, made of copies of its parts.
    fn clone(&self) -> (r: Self)
        ensures
            cloned(self.parser, r.parser),
    {
        Lazy { parser: self.parser.clone() }
    }
}

impl<A: Copy> Copy for Lazy<A> {
}

} // verus!
