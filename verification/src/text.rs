//! Parsers of text: whitespace, line ends, numbers and identifiers.
//!
//! They read any input whose tokens are characters of some kind
//! ([`Char`]): `char`, `u8`, or graphemes.

pub mod ascii;
pub mod chars;
pub mod unicode;

pub use crate::text::chars::Char;
pub use crate::text::unicode::{ident, keyword, Grapheme, Graphemes, GraphemesIter};

use crate::choice::Or;
use crate::error::{Error, Located};
use crate::input::{Cursor, Input, InputRef, SliceInput, Token};
use crate::mode::{Check, Mode};
use crate::model::{lemma_models_empty, Modeled};
use crate::parser::{
    lemma_alike_still, lemma_recovered_after, productive, Outcome, PResult, Parser,
};
use crate::primitive::{unexpected, Just};
use crate::repeat::Repeated;
use crate::sequence::Then;
use crate::text::chars::ascii_ident_byte;
use crate::transform::{Ignored, ToSlice};
use core::marker::PhantomData;
use vstd::pervasive::cloned;
use vstd::prelude::*;

verus! {

/// A class of characters.
#[derive(Clone, Copy, Debug)]
pub enum CharClass {
    /// Whitespace.
    Whitespace,
    /// Spaces and tabs.
    InlineWhitespace,
    /// Characters that end a line.
    Newline,
    /// The digits of a base.
    Digit(u32),
    /// The digits of a base but `0`.
    NonZeroDigit(u32),
    /// What can begin an identifier.
    IdentStart,
    /// What can continue an identifier.
    IdentContinue,
    /// ASCII letters and the underscore.
    AsciiIdent,
}

impl CharClass {
    /// The base of a class of digits is at least 2 and at most 36.
    pub open spec fn wf(self) -> bool {
        match self {
            CharClass::Digit(radix) => 2 <= radix <= 36,
            CharClass::NonZeroDigit(radix) => 2 <= radix <= 36,
            _ => true,
        }
    }

    /// Whether a character with the model `m` is in the class.
    pub open spec fn spec_holds<C: Char>(self, m: C::Model) -> bool {
        match self {
            CharClass::Whitespace => C::spec_is_whitespace(m),
            CharClass::InlineWhitespace => C::spec_is_inline_whitespace(m),
            CharClass::Newline => C::spec_is_newline(m),
            CharClass::Digit(radix) => C::spec_is_digit(m, radix),
            CharClass::NonZeroDigit(radix) => C::spec_is_digit(m, radix) && m
                != C::spec_digit_zero(),
            CharClass::IdentStart => C::spec_is_ident_start(m),
            CharClass::IdentContinue => C::spec_is_ident_continue(m),
            CharClass::AsciiIdent => C::spec_to_ascii(m) matches Some(b) && ascii_ident_byte(b),
        }
    }

    /// Whether `c` is in the class.
    pub fn holds<C: Char>(&self, c: &C) -> (b: bool)
        requires
            self.wf(),
        ensures
            b == self.spec_holds::<C>(c.model()),
    {
        match self {
            CharClass::Whitespace => c.is_whitespace(),
            CharClass::InlineWhitespace => c.is_inline_whitespace(),
            CharClass::Newline => c.is_newline(),
            CharClass::Digit(radix) => c.is_digit(*radix),
            CharClass::NonZeroDigit(radix) => c.is_digit(*radix) && !c.same(&C::digit_zero()),
            CharClass::IdentStart => c.is_ident_start(),
            CharClass::IdentContinue => c.is_ident_continue(),
            CharClass::AsciiIdent => match c.to_ascii() {
                Some(b) => (0x41 <= b && b <= 0x5A) || (0x61 <= b && b <= 0x7A) || b == 0x5F,
                None => false,
            },
        }
    }
}

/// Accepts one character of a class and gives it back.
#[derive(Clone, Copy, Debug)]
pub struct InClass {
    /// The class.
    pub class: CharClass,
}

impl InClass {
    /// A parser that accepts one character of `class`.
    pub fn new(class: CharClass) -> (r: Self)
        ensures
            r.class == class,
    {
        InClass { class }
    }
}

impl<I, E, S> Parser<I, I::Token, E, S> for InClass where
    I: Input,
    I::Token: Char,
    E: Error<I>,
    S: Modeled,
 {
    /// The base of a class of digits is at least 2 and at most 36.
    open spec fn wf(&self) -> bool {
        self.class.wf()
    }

    /// The next token is read. The run succeeds with it if it is in the
    /// class. If it is not, or if the input has ended, the run fails with an
    /// error that names nothing expected.
    open spec fn spec_go(&self, emit: bool, c: Cursor<I, E, S>) -> Outcome<
        I,
        <I::Token as Modeled>::Model,
        E,
        S,
    > {
        Outcome {
            cursor: c.advance(),
            result: if !c.at_end() && self.class.spec_holds::<I::Token>(c.token()) {
                Ok(c.token())
            } else {
                Err(unexpected(c, Seq::empty()))
            },
        }
    }

    proof fn lemma_spec_go(&self, emit: bool, c: Cursor<I, E, S>) {
        c.input.lemma_boundaries(c.offset);
    }

    proof fn lemma_recovered(&self, emit: bool, c: Cursor<I, E, S>, errors: Seq<E::Model>) {
        lemma_alike_still(c, errors);
    }

    /// Both kinds of run are the same run.
    open spec fn mode_free(&self) -> bool {
        true
    }

    proof fn lemma_modes(&self, c: Cursor<I, E, S>) {
    }

    fn go<M: Mode>(&self, inp: &mut InputRef<I, E, S>) -> (r: PResult<I::Token, E>) {
        let before = inp.save();
        let (at, tok) = inp.next();
        if let Some(t) = tok {
            if self.class.holds(&t) {
                return Ok(M::bind(|| -> (o: I::Token)
                    ensures
                        o == t,
                    { t }));
            }
        }
        let span = inp.span_since(before);
        proof {
            lemma_models_empty::<Option<I::Token>>();
        }
        Err(Located::at(at, E::expected_found(Vec::new(), tok, span)))
    }
}

/// Where the cursor `c` stands once the whitespace that begins there is
/// read.
pub open spec fn spec_skip_whitespace<I: Input, E: Modeled, S: Modeled>(
    c: Cursor<I, E, S>,
) -> Cursor<I, E, S> where I::Token: Char
    decreases c.remaining(),
{
    if !c.at_end() && <I::Token as Char>::spec_is_whitespace(c.token()) && c.advance().remaining()
        < c.remaining() {
        spec_skip_whitespace(c.advance())
    } else {
        c
    }
}

/// Reading whitespace leaves the cursor at a boundary of the same input, and
/// not before the offset at which it started.
pub proof fn lemma_skip_whitespace<I: Input, E: Modeled, S: Modeled>(c: Cursor<I, E, S>) where
    I::Token: Char,

    requires
        c.wf(),
    ensures
        spec_skip_whitespace(c).wf(),
        spec_skip_whitespace(c).input == c.input,
        spec_skip_whitespace(c).offset >= c.offset,
    decreases c.remaining(),
{
    c.input.lemma_boundaries(c.offset);
    if !c.at_end() && <I::Token as Char>::spec_is_whitespace(c.token()) && c.advance().remaining()
        < c.remaining() {
        lemma_skip_whitespace(c.advance());
    }
}

/// Reading whitespace does not depend on the errors recovered from, and
/// leaves them as they are.
pub proof fn lemma_skip_recovered<I: Input, E: Modeled, S: Modeled>(
    c: Cursor<I, E, S>,
    errors: Seq<E::Model>,
) where I::Token: Char
    ensures
        spec_skip_whitespace(c.with_errors(errors)) == spec_skip_whitespace(c).with_errors(errors),
    decreases c.remaining(),
{
    if !c.at_end() && <I::Token as Char>::spec_is_whitespace(c.token()) && c.advance().remaining()
        < c.remaining() {
        lemma_skip_recovered(c.advance(), errors);
        assert(c.with_errors(errors).advance() == c.advance().with_errors(errors));
    }
}

/// Reads the whitespace that begins at the current offset.
pub fn skip_whitespace<I: Input, E: Modeled, S: Modeled>(inp: &mut InputRef<I, E, S>) where
    I::Token: Char,

    requires
        old(inp).wf(),
    ensures
        final(inp).wf(),
        final(inp)@ == spec_skip_whitespace(old(inp)@),
{
    loop
        invariant
            inp.wf(),
            spec_skip_whitespace(old(inp)@) == spec_skip_whitespace(inp@),
        ensures
            inp.wf(),
            inp@ == spec_skip_whitespace(old(inp)@),
        decreases inp@.remaining(),
    {
        proof {
            inp@.input.lemma_boundaries(inp@.offset);
        }
        let before = inp.save();
        let (_, tok) = inp.next();
        let more = match tok {
            Some(t) => t.is_whitespace(),
            None => false,
        };
        if !more {
            inp.rewind(before);
            break ;
        }
    }
}

/// A parser with any amount of whitespace before and after it. See
/// `spec_go`.
pub struct Padded<A> {
    /// The parser.
    pub parser: A,
}

impl<A> Padded<A> {
    /// `parser`, with whitespace around it.
    pub fn new(parser: A) -> (r: Self)
        ensures
            r.parser == parser,
    {
        Padded { parser }
    }
}

impl<I, O, E, S, A> Parser<I, O, E, S> for Padded<A> where
    I: Input,
    I::Token: Char,
    O: Modeled,
    E: Error<I>,
    S: Modeled,
    A: Parser<I, O, E, S>,
 {
    /// The parser it is made of can be run.
    open spec fn wf(&self) -> bool {
        self.parser.wf()
    }

    /// Whitespace is read, then the parser runs. If it succeeds, the
    /// whitespace that follows is read too. If it fails, the run fails with
    /// its error, the cursor left where the failure left it.
    open spec fn spec_go(&self, emit: bool, c: Cursor<I, E, S>) -> Outcome<I, O::Model, E, S> {
        let a = self.parser.spec_go(emit, spec_skip_whitespace(c));
        match a.result {
            Ok(_) => Outcome { cursor: spec_skip_whitespace(a.cursor), result: a.result },
            Err(_) => a,
        }
    }

    proof fn lemma_spec_go(&self, emit: bool, c: Cursor<I, E, S>) {
        lemma_skip_whitespace(c);
        self.parser.lemma_spec_go(emit, spec_skip_whitespace(c));
        lemma_skip_whitespace(self.parser.spec_go(emit, spec_skip_whitespace(c)).cursor);
    }

    proof fn lemma_recovered(&self, emit: bool, c: Cursor<I, E, S>, errors: Seq<E::Model>) {
        let start = spec_skip_whitespace(c);
        lemma_skip_recovered(c, errors);
        lemma_skip_recovered(c, c.errors);
        assert(c.with_errors(c.errors) == c);
        lemma_skip_whitespace(c);
        lemma_alike_still(start, errors);
        lemma_recovered_after(
            &self.parser,
            emit,
            start,
            c.errors,
            start.with_errors(errors),
            errors,
        );
        self.parser.lemma_spec_go(emit, start);
        let a = self.parser.spec_go(emit, start);
        let a2 = self.parser.spec_go(emit, start.with_errors(errors));
        lemma_skip_recovered(a.cursor, a2.cursor.errors);
        lemma_skip_recovered(a.cursor, a.cursor.errors);
        assert(a.cursor.with_errors(a.cursor.errors) == a.cursor);
        assert(a.cursor.with_errors(a2.cursor.errors) == a2.cursor);
    }

    /// A run does not depend on its kind if a run of the parser does not.
    open spec fn mode_free(&self) -> bool {
        self.parser.mode_free()
    }

    proof fn lemma_modes(&self, c: Cursor<I, E, S>) {
        lemma_skip_whitespace(c);
        self.parser.lemma_modes(spec_skip_whitespace(c));
    }

    fn go<M: Mode>(&self, inp: &mut InputRef<I, E, S>) -> (r: PResult<O, E>) {
        skip_whitespace(inp);
        let out = self.parser.go::<M>(inp)?;
        skip_whitespace(inp);
        Ok(out)
    }
}

/// A parser of one character of a class reads a token whenever it succeeds.
pub proof fn lemma_in_class_productive<I, E, S>(p: &InClass) where
    I: Input,
    I::Token: Char,
    E: Error<I>,
    S: Modeled,

    ensures
        productive::<I, I::Token, E, S, InClass>(p),
{
    assert forall|emit: bool, c: Cursor<I, E, S>|
        c.wf() && (#[trigger] Parser::<I, I::Token, E, S>::spec_go(p, emit, c)).result
            is Ok implies {
            Parser::<I, I::Token, E, S>::spec_go(p, emit, c).cursor.offset > c.offset
        } by {
        c.input.lemma_boundaries(c.offset);
    }
}

/// Any number of characters of one class.
pub type ManyOf<I, E, S> = Repeated<InClass, <I as Input>::Token, I, (), E, S>;

/// A parser that accepts any amount of whitespace, none included.
pub fn whitespace<I, E, S>() -> (r: ManyOf<I, E, S>) where
    I: Input,
    I::Token: Char,
    E: Error<I>,
    S: Modeled,

    ensures
        r.parser.class == CharClass::Whitespace,
        r.at_least == 0,
        r.at_most is None,
        r.wf(),
{
    let r = Repeated::new(InClass::new(CharClass::Whitespace));
    proof {
        lemma_in_class_productive::<I, E, S>(&r.parser);
    }
    r
}

/// A parser that accepts any number of spaces and tabs, none included.
pub fn inline_whitespace<I, E, S>() -> (r: ManyOf<I, E, S>) where
    I: Input,
    I::Token: Char,
    E: Error<I>,
    S: Modeled,

    ensures
        r.parser.class == CharClass::InlineWhitespace,
        r.at_least == 0,
        r.at_most is None,
        r.wf(),
{
    let r = Repeated::new(InClass::new(CharClass::InlineWhitespace));
    proof {
        lemma_in_class_productive::<I, E, S>(&r.parser);
    }
    r
}

/// A parser that accepts one or more digits in base `radix`. It can be run
/// if `radix` is at least 2 and at most 36.
pub fn digits<I, E, S>(radix: u32) -> (r: ManyOf<I, E, S>) where
    I: Input,
    I::Token: Char,
    E: Error<I>,
    S: Modeled,

    ensures
        r.parser.class == CharClass::Digit(radix),
        r.at_least == 1,
        r.at_most is None,
        r.wf() <==> 2 <= radix <= 36,
{
    let r = Repeated::new(InClass::new(CharClass::Digit(radix))).at_least(1);
    proof {
        lemma_in_class_productive::<I, E, S>(&r.parser);
    }
    r
}

/// Accepts one line end: a carriage return with the line feed that follows
/// it, or one character that ends a line.
#[derive(Clone, Copy, Debug)]
pub struct Newline;

/// A parser that accepts one line end.
pub fn newline() -> (r: Newline) {
    Newline
}

/// Whether a character with the model `m` is the ASCII byte `b`.
pub open spec fn is_byte<C: Char>(m: C::Model, b: u8) -> bool {
    C::spec_to_ascii(m) == Some(b)
}

impl<I, E, S> Parser<I, (), E, S> for Newline where
    I: Input,
    I::Token: Char,
    E: Error<I>,
    S: Modeled,
 {
    /// This parser can always be run.
    open spec fn wf(&self) -> bool {
        true
    }

    /// The next token is read. If it is a carriage return and a line feed
    /// follows, the line feed is read too, and the run succeeds. Otherwise
    /// the run succeeds if the token ends a line. In every other case, the
    /// end of the input included, it fails with an error that names nothing
    /// expected.
    open spec fn spec_go(&self, emit: bool, c: Cursor<I, E, S>) -> Outcome<I, (), E, S> {
        let after = c.advance();
        if c.at_end() {
            Outcome { cursor: c, result: Err(unexpected(c, Seq::empty())) }
        } else if is_byte::<I::Token>(c.token(), 0x0D) && !after.at_end() && is_byte::<I::Token>(
            after.token(),
            0x0A,
        ) {
            Outcome { cursor: after.advance(), result: Ok(()) }
        } else if <I::Token as Char>::spec_is_newline(c.token()) {
            Outcome { cursor: after, result: Ok(()) }
        } else {
            Outcome { cursor: after, result: Err(unexpected(c, Seq::empty())) }
        }
    }

    proof fn lemma_spec_go(&self, emit: bool, c: Cursor<I, E, S>) {
        c.input.lemma_boundaries(c.offset);
        c.input.lemma_boundaries(c.advance().offset);
    }

    proof fn lemma_recovered(&self, emit: bool, c: Cursor<I, E, S>, errors: Seq<E::Model>) {
        lemma_alike_still(c, errors);
    }

    /// Both kinds of run are the same run.
    open spec fn mode_free(&self) -> bool {
        true
    }

    proof fn lemma_modes(&self, c: Cursor<I, E, S>) {
    }

    fn go<M: Mode>(&self, inp: &mut InputRef<I, E, S>) -> (r: PResult<(), E>) {
        let before = inp.save();
        let (at, tok) = inp.next();
        proof {
            old(inp)@.input.lemma_boundaries(old(inp)@.offset);
        }
        if let Some(t) = tok {
            if is_ascii_byte(&t, 0x0D) {
                let after = inp.save();
                let (_, second) = inp.next();
                let line_feed = match second {
                    Some(u) => is_ascii_byte(&u, 0x0A),
                    None => false,
                };
                if line_feed {
                    return Ok(M::bind(|| -> (o: ()) { () }));
                }
                inp.rewind(after);
            }
            if t.is_newline() {
                return Ok(M::bind(|| -> (o: ()) { () }));
            }
        }
        let span = inp.span_since(before);
        proof {
            lemma_models_empty::<Option<I::Token>>();
        }
        Err(Located::at(at, E::expected_found(Vec::new(), tok, span)))
    }
}

/// Whether `c` is the ASCII byte `b`.
pub fn is_ascii_byte<C: Char>(c: &C, b: u8) -> (r: bool)
    ensures
        r == is_byte::<C>(c.model(), b),
{
    match c.to_ascii() {
        Some(a) => a == b,
        None => false,
    }
}

/// One character of a class, then any number of another.
pub type Word<I, E, S> = Then<InClass, ManyOf<I, E, S>, <I as Input>::Token, (), E, S>;

/// A non-negative integer, as the range of input that holds it.
pub type Int<I, E, S> = ToSlice<
    Or<
        Ignored<Word<I, E, S>, (<I as Input>::Token, ()), E, S>,
        Ignored<Just<<I as Input>::Token>, <I as Input>::Token, E, S>,
        (),
    >,
    (),
>;

/// A parser that accepts a non-negative integer in base `radix`: a single
/// `0`, or digits of which the first is not `0`. It gives the range of input
/// that holds the integer. It can be run if `radix` is at least 2 and at
/// most 36.
pub fn integer<I, E, S>(radix: u32) -> (r: Int<I, E, S>) where
    I: SliceInput,
    I::Token: Char,
    E: Error<I>,
    S: Modeled,

    ensures
        r.parser.parser_a.parser.parser_a.class == CharClass::NonZeroDigit(radix),
        r.parser.parser_a.parser.parser_b.parser.class == CharClass::Digit(radix),
        r.parser.parser_a.parser.parser_b.at_least == 0,
        r.parser.parser_a.parser.parser_b.at_most is None,
        r.parser.parser_b.parser.token.model() == <I::Token as Char>::spec_digit_zero(),
        r.wf() <==> 2 <= radix <= 36,
{
    let first = InClass::new(CharClass::NonZeroDigit(radix));
    let rest = Repeated::new(InClass::new(CharClass::Digit(radix)));
    proof {
        lemma_in_class_productive::<I, E, S>(&rest.parser);
    }
    let number = Ignored::new(Then::new(first, rest), ());
    let zero = Ignored::new(Just { token: <I::Token as Char>::digit_zero() }, ());
    ToSlice::new(Or::new(number, zero))
}

/// An identifier, as the range of input that holds it.
pub type Ident<I, E, S> = ToSlice<Word<I, E, S>, (<I as Input>::Token, ())>;

/// An identifier that must be a given word. See `spec_go`.
pub struct Keyword<P, I: SliceInput> {
    /// The parser of identifiers.
    pub ident: P,
    /// The word.
    pub keyword: I::Slice,
}

impl<I, E, S, P> Parser<I, I::Slice, E, S> for Keyword<P, I> where
    I: SliceInput,
    E: Error<I>,
    S: Modeled,
    P: Parser<I, I::Slice, E, S>,
 {
    /// The parser of identifiers can be run.
    open spec fn wf(&self) -> bool {
        self.ident.wf()
    }

    /// The identifier is parsed, whole. The run succeeds with it if it is
    /// the word. If it is another word, the run fails with an error that
    /// names nothing expected and nothing found, raised at the offset at
    /// which the identifier ended; the cursor stays there.
    open spec fn spec_go(&self, emit: bool, c: Cursor<I, E, S>) -> Outcome<
        I,
        <I::Slice as Modeled>::Model,
        E,
        S,
    > {
        let a = self.ident.spec_go(true, c);
        Outcome {
            cursor: a.cursor,
            result: match a.result {
                Err(e) => Err(e),
                Ok(word) => if word == self.keyword.model() {
                    Ok(word)
                } else {
                    Err(
                        Located {
                            pos: a.cursor.offset as usize,
                            err: E::spec_expected_found(
                                Seq::empty(),
                                None,
                                a.cursor.span_since(c.offset),
                            ),
                        },
                    )
                },
            },
        }
    }

    proof fn lemma_spec_go(&self, emit: bool, c: Cursor<I, E, S>) {
        self.ident.lemma_spec_go(true, c);
    }

    proof fn lemma_recovered(&self, emit: bool, c: Cursor<I, E, S>, errors: Seq<E::Model>) {
        self.ident.lemma_recovered(true, c, errors);
    }

    /// Both kinds of run run the parser in the same way.
    open spec fn mode_free(&self) -> bool {
        true
    }

    proof fn lemma_modes(&self, c: Cursor<I, E, S>) {
    }

    fn go<M: Mode>(&self, inp: &mut InputRef<I, E, S>) -> (r: PResult<I::Slice, E>) {
        let before = inp.save();
        let word = self.ident.go::<crate::mode::Emit>(inp)?.unwrap();
        if I::same_slice(&word, &self.keyword) {
            Ok(M::bind(|| -> (r: I::Slice)
                ensures
                    r == word,
                { word }))
        } else {
            let span = inp.span_since(before);
            proof {
                lemma_models_empty::<Option<I::Token>>();
            }
            Err(Located::at(inp.last_pos(), E::expected_found(Vec::new(), None, span)))
        }
    }
}

impl<A: Clone> Clone for Padded<A> {
    /// A copy of the parser, made of copies of its parts.
    fn clone(&self) -> (r: Self)
        ensures
            cloned(self.parser, r.parser),
    {
        Padded { parser: self.parser.clone() }
    }
}

impl<A: Copy> Copy for Padded<A> {
}

impl<P: Clone, I: SliceInput> Clone for Keyword<P, I> where I::Slice: Clone {
    /// A copy of the parser, made of copies of its parts.
    fn clone(&self) -> (r: Self)
        ensures
            cloned(self.ident, r.ident),
            cloned(self.keyword, r.keyword),
    {
        Keyword { ident: self.ident.clone(), keyword: self.keyword.clone() }
    }
}

impl<P: Copy, I: SliceInput> Copy for Keyword<P, I> where I::Slice: Copy {
}

} // verus!
