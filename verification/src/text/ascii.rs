//! Parsers of ASCII text.

use crate::input::{Input, SliceInput};
use crate::model::Modeled;
use crate::repeat::Repeated;
use crate::sequence::Then;
use crate::text::chars::Char;
use crate::error::Error;
use crate::parser::Parser;
use crate::text::{lemma_in_class_productive, CharClass, Ident, InClass, Keyword};
use crate::transform::ToSlice;
use vstd::prelude::*;

verus! {

/// A parser that accepts an identifier of ASCII letters and underscores,
/// and gives the range of input that holds it.
pub fn ident<I, E, S>() -> (r: Ident<I, E, S>) where
    I: SliceInput,
    I::Token: Char,
    E: Error<I>,
    S: Modeled,

    ensures
        r.parser.parser_a.class == CharClass::AsciiIdent,
        r.parser.parser_b.parser.class == CharClass::AsciiIdent,
        r.parser.parser_b.at_least == 0,
        r.parser.parser_b.at_most is None,
        r.wf(),
{
    let first = InClass::new(CharClass::AsciiIdent);
    let rest = Repeated::new(InClass::new(CharClass::AsciiIdent));
    proof {
        lemma_in_class_productive::<I, E, S>(&rest.parser);
    }
    ToSlice::new(Then::new(first, rest))
}

/// A parser that accepts the identifier `word` and no other: not a longer
/// identifier that begins with it.
pub fn keyword<I, E, S>(word: I::Slice) -> (r: Keyword<Ident<I, E, S>, I>) where
    I: SliceInput,
    I::Token: Char,
    E: Error<I>,
    S: Modeled,

    ensures
        r.keyword == word,
        r.ident.parser.parser_a.class == CharClass::AsciiIdent,
        r.ident.parser.parser_b.parser.class == CharClass::AsciiIdent,
        r.ident.parser.parser_b.at_least == 0,
        r.ident.parser.parser_b.at_most is None,
        r.wf(),
{
    Keyword { ident: ident(), keyword: word }
}

} // verus!
