//! Parsers of Unicode text.

use crate::input::{Input, SliceInput, Token};
use crate::model::Modeled;
use crate::repeat::Repeated;
use crate::sequence::Then;
use crate::text::chars::Char;
use crate::error::Error;
use crate::parser::Parser;
use crate::text::{lemma_in_class_productive, CharClass, Ident, InClass, Keyword};
use crate::strings::{
    chars_from, lemma_boundary_before_valid, lemma_boundary_of_tail, lemma_boundary_within,
    lemma_chars_nonempty, lemma_encode_concat, lemma_encode_nonempty, str_head, str_same,
    str_tail, str_uncons, tail,
};
use crate::text::chars::{
    ascii, char_is_digit, char_is_whitespace, digit_in, ident_start, line_break, white_space,
    xid_continue,
};
use crate::transform::ToSlice;
use unicode_segmentation::UnicodeSegmentation;
use vstd::prelude::*;
use vstd::string::StringSliceAdditionalSpecFns;
use vstd::utf8::{
    decode_utf8, decode_utf8_encode_utf8, encode_utf8, encode_utf8_decode_utf8,
    encode_utf8_valid_utf8, is_char_boundary, is_char_boundary_start_end_of_seq, valid_utf8,
    valid_utf8_split,
};

verus! {

/// A parser that accepts an identifier of Unicode, and gives the range of
/// input that holds it.
pub fn ident<I, E, S>() -> (r: Ident<I, E, S>) where
    I: SliceInput,
    I::Token: Char,
    E: Error<I>,
    S: Modeled,

    ensures
        r.parser.parser_a.class == CharClass::IdentStart,
        r.parser.parser_b.parser.class == CharClass::IdentContinue,
        r.parser.parser_b.at_least == 0,
        r.parser.parser_b.at_most is None,
        r.wf(),
{
    let first = InClass::new(CharClass::IdentStart);
    let rest = Repeated::new(InClass::new(CharClass::IdentContinue));
    proof {
        lemma_in_class_productive::<I, E, S>(&rest.parser);
    }
    ToSlice::new(Then::new(first, rest))
}

/// A parser that accepts the identifier `word` and no other: not a longer
/// identifier that begins with it.
pub fn keyword<I, E, S>(word: I::Slice) -> (r: Keyword<Ident<I, E, S>, I>) where
    I: SliceInput,
    I::Token: Char,
    E: Error<I>,
    S: Modeled,

    ensures
        r.keyword == word,
        r.ident.parser.parser_a.class == CharClass::IdentStart,
        r.ident.parser.parser_b.parser.class == CharClass::IdentContinue,
        r.ident.parser.parser_b.at_least == 0,
        r.ident.parser.parser_b.at_most is None,
        r.wf(),
{
    Keyword { ident: ident(), keyword: word }
}

/// How many characters the first extended grapheme cluster of `s` holds.
///
/// This names what the segmentation of `unicode_segmentation` finds, by
/// the rules and tables of Unicode Standard Annex 29.
pub uninterp spec fn first_grapheme(s: Seq<char>) -> nat;

/// How many characters the first grapheme of the characters `s` holds: at
/// least one, and no more than there are.
pub open spec fn grapheme_len(s: Seq<char>) -> int {
    if first_grapheme(s) < 1 {
        1
    } else if first_grapheme(s) > s.len() {
        s.len() as int
    } else {
        first_grapheme(s) as int
    }
}

/// The first extended grapheme cluster of a string that is not empty.
///
/// Trusted: the first item of `UnicodeSegmentation::graphemes(s, true)`. It
/// is the part of `s` from its start up to the first grapheme boundary after
/// the start: a prefix of `s` that holds at least one character, as many as
/// `first_grapheme` says.
#[verifier::external_body]
fn first_grapheme_of<'a>(s: &'a str) -> (g: &'a str)
    requires
        s@.len() > 0,
    ensures
        g@ == s@.take(first_grapheme(s@) as int),
        g@.len() == first_grapheme(s@),
        0 < g@.len() <= s@.len(),
{
    s.graphemes(true).next().unwrap()
}

/// How many characters the last extended grapheme cluster of `s` holds.
///
/// This names what the segmentation of `unicode_segmentation` finds from
/// the end of a string, by the rules and tables of Unicode Standard Annex
/// 29.
pub uninterp spec fn last_grapheme(s: Seq<char>) -> nat;

/// The last extended grapheme cluster of a string that is not empty.
///
/// Trusted: the last item of `UnicodeSegmentation::graphemes(s, true)`. It
/// is the part of `s` from the last grapheme boundary before the end up to
/// the end: a suffix of `s` that holds at least one character, as many as
/// `last_grapheme` says.
#[verifier::external_body]
fn last_grapheme_of<'a>(s: &'a str) -> (g: &'a str)
    requires
        s@.len() > 0,
    ensures
        g@ == s@.skip(s@.len() - last_grapheme(s@)),
        g@.len() == last_grapheme(s@),
        0 < g@.len() <= s@.len(),
{
    s.graphemes(true).next_back().unwrap()
}

/// One extended grapheme cluster: what a reader takes for one character.
#[derive(Debug, Clone, Copy, PartialEq, Eq)]
pub struct Grapheme<'src> {
    inner: &'src str,
}

impl<'src> Modeled for Grapheme<'src> {
    type Model = Seq<char>;

    closed spec fn model(&self) -> Seq<char> {
        self.inner@
    }
}

impl<'src> Token for Grapheme<'src> {
    fn same(&self, other: &Grapheme<'src>) -> (b: bool) {
        str_same(self.inner, other.inner)
    }
}

/// Whether every character of `s` is whitespace.
pub open spec fn all_white_space(s: Seq<char>) -> bool {
    forall|i: int| 0 <= i < s.len() ==> white_space(#[trigger] s[i])
}

/// Whether every character of `s` can continue an identifier.
pub open spec fn all_xid_continue(s: Seq<char>) -> bool {
    forall|i: int| 0 <= i < s.len() ==> xid_continue(#[trigger] s[i])
}

/// Whether every character of `s` is whitespace.
fn str_all_white_space(s: &str) -> (b: bool)
    ensures
        b == all_white_space(s@),
{
    let mut rest = s;
    loop
        invariant
            all_white_space(s@) == all_white_space(rest@),
        decreases rest@.len(),
    {
        match str_uncons(rest) {
            None => {
                return true;
            },
            Some((c, after)) => {
                if !char_is_whitespace(c) {
                    return false;
                }
                assert(all_white_space(rest@) == all_white_space(after@)) by {
                    assert(forall|i: int| 0 <= i < after@.len() ==> after@[i] == rest@[i + 1]);
                    if all_white_space(after@) {
                        assert forall|i: int| 0 <= i < rest@.len() implies white_space(
                            #[trigger] rest@[i],
                        ) by {
                            if i > 0 {
                                assert(rest@[i] == after@[i - 1]);
                            }
                        }
                    }
                }
                rest = after;
            },
        }
    }
}

/// Whether every character of `s` can continue an identifier.
fn str_all_xid_continue(s: &str) -> (b: bool)
    ensures
        b == all_xid_continue(s@),
{
    let mut rest = s;
    loop
        invariant
            all_xid_continue(s@) == all_xid_continue(rest@),
        decreases rest@.len(),
    {
        match str_uncons(rest) {
            None => {
                return true;
            },
            Some((c, after)) => {
                if !unicode_ident::is_xid_continue(c) {
                    return false;
                }
                assert(all_xid_continue(rest@) == all_xid_continue(after@)) by {
                    assert(forall|i: int| 0 <= i < after@.len() ==> after@[i] == rest@[i + 1]);
                    if all_xid_continue(after@) {
                        assert forall|i: int| 0 <= i < rest@.len() implies xid_continue(
                            #[trigger] rest@[i],
                        ) by {
                            if i > 0 {
                                assert(rest@[i] == after@[i - 1]);
                            }
                        }
                    }
                }
                rest = after;
            },
        }
    }
}

/// The only character of `s`, if it holds exactly one.
fn str_single(s: &str) -> (r: Option<char>)
    ensures
        s@.len() == 1 ==> r == Some(s@[0]),
        s@.len() != 1 ==> r is None,
{
    match str_uncons(s) {
        Some((c, rest)) => if rest.is_empty() {
            Some(c)
        } else {
            None
        },
        None => None,
    }
}

impl<'src> Grapheme<'src> {
    /// A grapheme is not empty.
    #[verifier::type_invariant]
    spec fn nonempty(self) -> bool {
        self.inner@.len() > 0
    }

    fn new(inner: &'src str) -> (r: Self)
        requires
            inner@.len() > 0,
        ensures
            r.model() == inner@,
    {
        Grapheme { inner }
    }

    /// Creates a new grapheme with the character `'0'` inside it.
    pub fn digit_zero() -> (r: Self)
        ensures
            r.model() == seq!['0'],
    {
        proof {
            reveal_strlit("0");
        }
        let zero = "0";
        assert(zero@ =~= seq!['0']);
        Self::new(zero)
    }

    /// Gets an iterator over code points.
    pub fn code_points(self) -> (r: core::str::Chars<'src>)
        ensures
            vstd::string::into_iter_elts(r) == self.model(),
    {
        self.inner.chars()
    }

    /// Gets an iterator over bytes.
    pub fn bytes(self) -> (r: core::slice::Iter<'src, u8>)
        ensures
            vstd::std_specs::slice::into_iter_elts(r) == encode_utf8(self.model()),
    {
        let bytes = self.inner.as_bytes();
        let r = bytes.iter();
        assert(vstd::std_specs::slice::into_iter_elts(r) =~= bytes@);
        r
    }

    /// Gets the slice of code points that are contained in the grapheme cluster.
    pub fn as_str(self) -> (r: &'src str)
        ensures
            r@ == self.model(),
    {
        self.inner
    }

    /// Gets the slice of bytes that are contained in the grapheme cluster.
    pub fn as_bytes(self) -> (r: &'src [u8])
        ensures
            r@ == encode_utf8(self.model()),
    {
        self.inner.as_bytes()
    }

    /// Splits the grapheme into the first code point and the remaining code points.
    pub fn split(self) -> (r: (char, &'src str))
        ensures
            r.0 == self.model()[0],
            r.1@ == self.model().drop_first(),
    {
        proof {
            use_type_invariant(self);
        }
        str_uncons(self.inner).unwrap()
    }
}

impl<'src> Char for Grapheme<'src> {
    open spec fn spec_is_inline_whitespace(m: Seq<char>) -> bool {
        m == seq![' '] || m == seq!['\t']
    }

    open spec fn spec_is_whitespace(m: Seq<char>) -> bool {
        all_white_space(m)
    }

    open spec fn spec_is_newline(m: Seq<char>) -> bool {
        m == seq!['\r', '\n'] || (m.len() == 1 && line_break(m[0]))
    }

    open spec fn spec_digit_zero() -> Seq<char> {
        seq!['0']
    }

    open spec fn spec_is_digit(m: Seq<char>, radix: u32) -> bool {
        m.len() == 1 && digit_in(m[0], radix)
    }

    /// The first character can begin an identifier, and the others can
    /// continue one.
    open spec fn spec_is_ident_start(m: Seq<char>) -> bool {
        m.len() > 0 && ident_start(m[0]) && all_xid_continue(m.drop_first())
    }

    open spec fn spec_is_ident_continue(m: Seq<char>) -> bool {
        all_xid_continue(m)
    }

    open spec fn spec_to_ascii(m: Seq<char>) -> Option<u8> {
        if m.len() == 1 && ascii(m[0]) {
            Some(m[0] as u8)
        } else {
            None
        }
    }

    fn is_inline_whitespace(&self) -> (b: bool) {
        match str_single(self.inner) {
            Some(c) => {
                assert(self.inner@ =~= seq![c]);
                c == ' ' || c == '\t'
            },
            None => {
                assert(seq![' '].len() == 1 && seq!['\t'].len() == 1);
                false
            },
        }
    }

    fn is_whitespace(&self) -> (b: bool) {
        str_all_white_space(self.inner)
    }

    fn is_newline(&self) -> (b: bool) {
        match str_uncons(self.inner) {
            None => {
                assert(seq!['\r', '\n'].len() == 2);
                false
            },
            Some((c, rest)) => match str_uncons(rest) {
                None => {
                    assert(seq!['\r', '\n'].len() == 2);
                    c.is_newline()
                },
                Some((d, last)) => {
                    if last.is_empty() {
                        assert(self.inner@ =~= seq![c, d]);
                        assert(seq!['\r', '\n'][0] == '\r' && seq!['\r', '\n'][1] == '\n');
                        c == '\r' && d == '\n'
                    } else {
                        assert(seq!['\r', '\n'].len() == 2);
                        false
                    }
                },
            },
        }
    }

    fn digit_zero() -> (z: Grapheme<'src>) {
        Grapheme::digit_zero()
    }

    fn is_digit(&self, radix: u32) -> (b: bool) {
        match str_single(self.inner) {
            Some(c) => char_is_digit(c, radix),
            None => false,
        }
    }

    fn is_ident_start(&self) -> (b: bool) {
        match str_uncons(self.inner) {
            Some((first, rest)) => {
                let is_start = unicode_ident::is_xid_start(first) || first == '_';
                is_start && str_all_xid_continue(rest)
            },
            None => false,
        }
    }

    fn is_ident_continue(&self) -> (b: bool) {
        str_all_xid_continue(self.inner)
    }

    fn to_ascii(&self) -> (b: Option<u8>) {
        match str_single(self.inner) {
            Some(c) => c.to_ascii(),
            None => None,
        }
    }
}

/// A string read one extended grapheme cluster at a time. Its offsets count
/// bytes of the string's UTF-8 encoding.
#[derive(Debug, Clone, Copy, PartialEq, Eq)]
pub struct Graphemes<'src> {
    inner: &'src str,
}

impl<'src> Modeled for Graphemes<'src> {
    type Model = Seq<char>;

    closed spec fn model(&self) -> Seq<char> {
        self.inner@
    }
}

/// The bytes that a slice holds.
pub open spec fn slice_bytes(bytes: &[u8]) -> Seq<u8> {
    bytes@
}

/// The bytes of the UTF-8 encoding of the characters `s`.
pub open spec fn utf8(s: Seq<char>) -> Seq<u8> {
    encode_utf8(s)
}

/// The first grapheme of what the bytes `bytes` encode from `offset` on.
pub open spec fn grapheme_at(bytes: Seq<u8>, offset: int) -> Seq<char> {
    let rest = chars_from(bytes, offset);
    rest.take(grapheme_len(rest))
}

/// The grapheme that begins at a character boundary ends at one.
pub proof fn lemma_grapheme_boundary(bytes: Seq<u8>, offset: int)
    requires
        valid_utf8(bytes),
        is_char_boundary(bytes, offset),
        offset < bytes.len(),
    ensures
        0 <= offset,
        chars_from(bytes, offset).len() > 0,
        0 < grapheme_len(chars_from(bytes, offset)) <= chars_from(bytes, offset).len(),
        offset < offset + utf8(grapheme_at(bytes, offset)).len() <= bytes.len(),
        is_char_boundary(bytes, offset + utf8(grapheme_at(bytes, offset)).len()),
{
    lemma_boundary_within(bytes, offset);
    valid_utf8_split(bytes, offset);
    let rest_bytes = tail(bytes, offset);
    let rest = chars_from(bytes, offset);
    lemma_chars_nonempty(rest_bytes);
    decode_utf8_encode_utf8(rest_bytes);
    let k = grapheme_len(rest);
    let first = rest.take(k);
    let others = rest.skip(k);
    assert(rest =~= first + others);
    lemma_encode_concat(first, others);
    lemma_encode_nonempty(first);
    encode_utf8_valid_utf8(others);
    let after = offset + utf8(first).len();
    assert(utf8(rest) == rest_bytes);
    assert(rest_bytes == utf8(first) + utf8(others));
    assert(rest_bytes.len() == utf8(first).len() + utf8(others).len());
    assert(tail(bytes, after) =~= rest_bytes.subrange(
        utf8(first).len() as int,
        rest_bytes.len() as int,
    ));
    assert(tail(bytes, after) =~= utf8(others));
    lemma_boundary_before_valid(bytes, after);
}

impl<'src> Graphemes<'src> {
    /// The graphemes of the string `inner`: the string as it is, to be read
    /// one grapheme at a time.
    pub closed spec fn spec_new(inner: &'src str) -> Self {
        Graphemes { inner }
    }

    /// The graphemes of a string are that string, whichever way they are
    /// made: by [`Graphemes::new`] or by `From`.
    pub proof fn lemma_new(inner: &'src str)
        ensures
            Self::spec_new(inner).spec_as_str() == inner,
            Self::spec_new(inner).model() == inner@,
            <Self as vstd::std_specs::convert::FromSpec<&'src str>>::from_spec(inner)
                == Self::spec_new(inner),
    {
    }

    /// Create a new graphemes.
    pub fn new(inner: &'src str) -> (r: Self)
        ensures
            r == Self::spec_new(inner),
            r.spec_as_str() == inner,
            r.model() == inner@,
    {
        Graphemes { inner }
    }

    /// Gets an iterator over graphemes.
    pub fn iter(self) -> (r: GraphemesIter<'src>)
        ensures
            r.model() == self.model(),
    {
        GraphemesIter::new(self)
    }

    /// Gets an iterator over code points.
    pub fn code_points(self) -> (r: core::str::Chars<'src>)
        ensures
            vstd::string::into_iter_elts(r) == self.model(),
    {
        self.inner.chars()
    }

    /// Gets an iterator over bytes.
    pub fn bytes(self) -> (r: core::slice::Iter<'src, u8>)
        ensures
            vstd::std_specs::slice::into_iter_elts(r) == encode_utf8(self.model()),
    {
        let bytes = self.inner.as_bytes();
        let r = bytes.iter();
        assert(vstd::std_specs::slice::into_iter_elts(r) =~= bytes@);
        r
    }

    /// The string.
    pub closed spec fn spec_as_str(self) -> &'src str {
        self.inner
    }

    /// Gets the slice of code points that are contained in the string.
    pub fn as_str(self) -> (r: &'src str)
        ensures
            r == self.spec_as_str(),
            r@ == self.model(),
    {
        self.inner
    }

    /// Gets the slice of bytes that are contained in the string.
    pub fn as_bytes(self) -> (r: &'src [u8])
        ensures
            r@ == encode_utf8(self.model()),
    {
        self.inner.as_bytes()
    }
}

impl<'src> Input for Graphemes<'src> {
    type Token = Grapheme<'src>;

    open spec fn spec_len(&self) -> nat {
        utf8(self.model()).len()
    }

    open spec fn boundary(&self, offset: int) -> bool {
        is_char_boundary(utf8(self.model()), offset)
    }

    open spec fn spec_token(&self, offset: int) -> Seq<char> {
        grapheme_at(utf8(self.model()), offset)
    }

    open spec fn spec_after(&self, offset: int) -> int {
        offset + utf8(grapheme_at(utf8(self.model()), offset)).len()
    }

    proof fn lemma_boundaries(&self, offset: int) {
        let bytes = utf8(self.model());
        encode_utf8_valid_utf8(self.model());
        is_char_boundary_start_end_of_seq(bytes);
        if self.boundary(offset) {
            lemma_boundary_within(bytes, offset);
            if offset < bytes.len() {
                lemma_grapheme_boundary(bytes, offset);
            }
        }
    }

    fn len(&self) -> (n: usize) {
        let whole = self.inner.as_bytes();
        assert(whole@.len() == whole.len());
        whole.len()
    }

    fn next(&self, offset: usize) -> (r: (usize, Option<Grapheme<'src>>)) {
        let rest = str_tail(self.inner, offset);
        let whole = self.inner.as_bytes();
        proof {
            let bytes = utf8(self.model());
            assert(whole@.len() == whole.len());
            encode_utf8_valid_utf8(self.model());
            lemma_boundary_within(bytes, offset as int);
            valid_utf8_split(bytes, offset as int);
            lemma_chars_nonempty(tail(bytes, offset as int));
            if offset < bytes.len() {
                lemma_grapheme_boundary(bytes, offset as int);
            }
        }
        if rest.is_empty() {
            (offset, None)
        } else {
            let first = first_grapheme_of(rest);
            (offset + first.len(), Some(Grapheme::new(first)))
        }
    }
}

impl<'src> SliceInput for Graphemes<'src> {
    type Slice = Graphemes<'src>;

    open spec fn spec_slice(&self, start: int, end: int) -> Seq<char> {
        decode_utf8(utf8(self.model()).subrange(start, end))
    }

    fn same_slice(a: &Graphemes<'src>, b: &Graphemes<'src>) -> (r: bool) {
        str_same(a.inner, b.inner)
    }

    fn slice(&self, start: usize, end: usize) -> (r: Graphemes<'src>) {
        proof {
            encode_utf8_valid_utf8(self.model());
            lemma_boundary_of_tail(utf8(self.model()), start as int, end as int);
        }
        let rest = str_tail(self.inner, start);
        let r = str_head(rest, end - start);
        proof {
            assert(tail(utf8(self.model()), start as int).subrange(0, end - start) =~= utf8(
                self.model(),
            ).subrange(start as int, end as int));
        }
        Graphemes::new(r)
    }
}

/// The graphemes of a string, handed out one by one from the front.
#[derive(Debug, Clone, Copy)]
pub struct GraphemesIter<'src> {
    rest: &'src str,
}

impl<'src> Modeled for GraphemesIter<'src> {
    type Model = Seq<char>;

    /// The characters of the graphemes still to hand out.
    closed spec fn model(&self) -> Seq<char> {
        self.rest@
    }
}

impl<'src> GraphemesIter<'src> {
    /// Create a new grapheme iterator.
    pub fn new(graphemes: Graphemes<'src>) -> (r: Self)
        ensures
            r.model() == graphemes.model(),
    {
        GraphemesIter { rest: graphemes.as_str() }
    }

    /// Gets the slice of code points that are still to hand out.
    pub fn as_str(self) -> (r: &'src str)
        ensures
            r@ == self.model(),
    {
        self.rest
    }

    /// At least how many graphemes are still to hand out, and at most how
    /// many: one if any, and no more than the bytes that hold them.
    pub fn size_hint(&self) -> (r: (usize, Option<usize>))
        ensures
            r.0 == (if self.model().len() == 0 {
                0usize
            } else {
                1usize
            }),
            r.1 matches Some(n) && n == encode_utf8(self.model()).len(),
    {
        let all = self.rest.as_bytes();
        proof {
            assert(all@.len() == all.len());
            lemma_encode_nonempty(self.rest@);
        }
        let len = self.rest.len();
        (if len < 1 { len } else { 1 }, Some(len))
    }

    /// Hands out the last grapheme, if there is one.
    pub fn next_back(&mut self) -> (r: Option<Grapheme<'src>>)
        ensures
            old(self).model().len() == 0 ==> r is None && final(self).model() == old(self).model(),
            old(self).model().len() > 0 ==> r is Some && r->0.model() == old(self).model().skip(
                old(self).model().len() - last_grapheme(old(self).model()),
            ) && final(self).model() == old(self).model().take(
                old(self).model().len() - last_grapheme(old(self).model()),
            ) && 0 < last_grapheme(old(self).model()) <= old(self).model().len(),
    {
        if self.rest.is_empty() {
            return None;
        }
        let whole = self.rest;
        let last = last_grapheme_of(whole);
        let all = whole.as_bytes();
        proof {
            let bytes = utf8(whole@);
            let k = whole@.len() - last_grapheme(whole@);
            assert(all@.len() == all.len());
            encode_utf8_valid_utf8(whole@);
            assert(whole@ =~= whole@.take(k) + whole@.skip(k));
            lemma_encode_concat(whole@.take(k), whole@.skip(k));
            encode_utf8_valid_utf8(whole@.skip(k));
            let cut = utf8(whole@.take(k)).len() as int;
            assert(tail(bytes, cut) =~= utf8(whole@.skip(k)));
            lemma_boundary_before_valid(bytes, cut);
            assert(bytes.subrange(0, cut) =~= utf8(whole@.take(k)));
            encode_utf8_decode_utf8(whole@.take(k));
        }
        self.rest = str_head(whole, whole.len() - last.len());
        Some(Grapheme::new(last))
    }

    /// Hands out the next grapheme, if there is one.
    pub fn next(&mut self) -> (r: Option<Grapheme<'src>>)
        ensures
            old(self).model().len() == 0 ==> r is None && final(self).model() == old(self).model(),
            old(self).model().len() > 0 ==> r is Some && r->0.model() == old(self).model().take(
                grapheme_len(old(self).model()),
            ) && final(self).model() == old(self).model().skip(grapheme_len(old(self).model())),
    {
        if self.rest.is_empty() {
            return None;
        }
        let whole = self.rest;
        let first = first_grapheme_of(whole);
        let all = whole.as_bytes();
        proof {
            let bytes = utf8(whole@);
            assert(all@.len() == all.len());
            encode_utf8_valid_utf8(whole@);
            encode_utf8_decode_utf8(whole@);
            is_char_boundary_start_end_of_seq(bytes);
            lemma_encode_nonempty(whole@);
            assert(tail(bytes, 0) =~= bytes);
            assert(chars_from(bytes, 0) == whole@);
            lemma_grapheme_boundary(bytes, 0);
            let k = grapheme_len(whole@);
            assert(first@ == whole@.take(k));
            assert(grapheme_at(bytes, 0) == first@);
            assert(whole@ =~= whole@.take(k) + whole@.skip(k));
            lemma_encode_concat(whole@.take(k), whole@.skip(k));
            assert(tail(bytes, utf8(whole@.take(k)).len() as int) =~= utf8(whole@.skip(k)));
            encode_utf8_decode_utf8(whole@.skip(k));
        }
        self.rest = str_tail(whole, first.len());
        Some(Grapheme::new(first))
    }
}

impl<'src> From<&'src str> for Graphemes<'src> {
    fn from(value: &'src str) -> (r: Graphemes<'src>) {
        Graphemes { inner: value }
    }
}

impl<'src> vstd::std_specs::convert::FromSpecImpl<&'src str> for Graphemes<'src> {
    open spec fn obeys_from_spec() -> bool {
        true
    }

    open spec fn from_spec(value: &'src str) -> Graphemes<'src> {
        Graphemes::spec_new(value)
    }
}

impl<'src> AsRef<str> for Graphemes<'src> {
    fn as_ref(&self) -> &str
        returns
            self.spec_as_str(),
    {
        self.as_str()
    }
}

impl<'src> AsRef<[u8]> for Graphemes<'src> {
    fn as_ref(&self) -> (r: &[u8])
        ensures
            slice_bytes(r) == encode_utf8(self.model()),
    {
        self.as_bytes()
    }
}

impl<'src> AsRef<Graphemes<'src>> for Graphemes<'src> {
    fn as_ref(&self) -> &Graphemes<'src>
        returns
            self,
    {
        self
    }
}

impl<'src> core::borrow::Borrow<str> for Graphemes<'src> {
    fn borrow(&self) -> &str
        returns
            self.spec_as_str(),
    {
        self.as_str()
    }
}

impl<'src> core::borrow::Borrow<[u8]> for Graphemes<'src> {
    fn borrow(&self) -> (r: &[u8])
        ensures
            slice_bytes(r) == encode_utf8(self.model()),
    {
        self.as_bytes()
    }
}

} // verus!
