//! Strings as inputs: a `&str` is read one `char` at a time, and its offsets
//! count bytes of its UTF-8 encoding.

use crate::input::{Input, SliceInput};
use crate::model::Modeled;
use vstd::prelude::*;
use vstd::string::StringSliceAdditionalSpecFns;
use vstd::utf8::{
    decode_first_scalar, decode_utf8, decode_utf8_encode_utf8, encode_scalar, encode_utf8,
    encode_utf8_decode_utf8, encode_utf8_first_scalar, encode_utf8_valid_utf8,
    has_width_1_encoding, has_width_2_encoding, has_width_3_encoding, is_char_boundary,
    is_char_boundary_iff_not_is_continuation_byte, is_char_boundary_start_end_of_seq,
    length_of_first_scalar, pop_first_scalar, valid_first_scalar, valid_utf8, valid_utf8_split,
};

verus! {

/// The bytes of `bytes` from `offset` on.
pub open spec fn tail(bytes: Seq<u8>, offset: int) -> Seq<u8> {
    bytes.subrange(offset, bytes.len() as int)
}

/// The characters that `bytes` encodes from `offset` on.
pub open spec fn chars_from(bytes: Seq<u8>, offset: int) -> Seq<char> {
    decode_utf8(tail(bytes, offset))
}

/// The encoding of a sequence of characters is the encoding of its first
/// part followed by the encoding of the rest.
pub proof fn lemma_encode_concat(a: Seq<char>, b: Seq<char>)
    ensures
        encode_utf8(a + b) == encode_utf8(a) + encode_utf8(b),
    decreases a.len(),
{
    if a.len() == 0 {
        assert(a + b =~= b);
        assert(encode_utf8(a) + encode_utf8(b) =~= encode_utf8(b));
    } else {
        lemma_encode_concat(a.drop_first(), b);
        assert((a + b).drop_first() =~= a.drop_first() + b);
        assert(encode_utf8(a + b) =~= encode_utf8(a) + encode_utf8(b));
    }
}

/// A character boundary lies within the bytes.
pub proof fn lemma_boundary_within(bytes: Seq<u8>, offset: int)
    requires
        valid_utf8(bytes),
        is_char_boundary(bytes, offset),
    ensures
        0 <= offset <= bytes.len(),
    decreases bytes.len(),
{
    if offset != 0 && 0 < offset <= bytes.len() {
    }
}

/// An offset within valid bytes is a character boundary if it is the end or
/// if what follows it is valid.
pub proof fn lemma_boundary_before_valid(bytes: Seq<u8>, offset: int)
    requires
        valid_utf8(bytes),
        0 <= offset <= bytes.len(),
        valid_utf8(tail(bytes, offset)),
    ensures
        is_char_boundary(bytes, offset),
{
    if offset == bytes.len() {
        is_char_boundary_start_end_of_seq(bytes);
    } else {
        let rest = tail(bytes, offset);
        is_char_boundary_start_end_of_seq(rest);
        is_char_boundary_iff_not_is_continuation_byte(rest, 0);
        assert(rest[0] == bytes[offset]);
        is_char_boundary_iff_not_is_continuation_byte(bytes, offset);
    }
}

/// The character that begins at a character boundary ends at one.
pub proof fn lemma_next_boundary(bytes: Seq<u8>, offset: int)
    requires
        valid_utf8(bytes),
        is_char_boundary(bytes, offset),
        offset < bytes.len(),
    ensures
        0 <= offset,
        valid_utf8(tail(bytes, offset)),
        offset < offset + length_of_first_scalar(tail(bytes, offset)) <= bytes.len(),
        is_char_boundary(bytes, offset + length_of_first_scalar(tail(bytes, offset))),
{
    lemma_boundary_within(bytes, offset);
    valid_utf8_split(bytes, offset);
    let rest = tail(bytes, offset);
    let len = length_of_first_scalar(rest);
    assert(valid_first_scalar(rest) && valid_utf8(pop_first_scalar(rest)));
    assert(tail(bytes, offset + len) =~= pop_first_scalar(rest));
    lemma_boundary_before_valid(bytes, offset + len);
}

/// A character boundary is a character boundary of what follows an earlier
/// one.
pub proof fn lemma_boundary_of_tail(bytes: Seq<u8>, start: int, end: int)
    requires
        valid_utf8(bytes),
        is_char_boundary(bytes, start),
        is_char_boundary(bytes, end),
        start <= end,
    ensures
        0 <= start,
        end <= bytes.len(),
        valid_utf8(tail(bytes, start)),
        is_char_boundary(tail(bytes, start), end - start),
        valid_utf8(bytes.subrange(start, end)),
{
    lemma_boundary_within(bytes, start);
    lemma_boundary_within(bytes, end);
    valid_utf8_split(bytes, start);
    valid_utf8_split(bytes, end);
    let rest = tail(bytes, start);
    assert(tail(rest, end - start) =~= tail(bytes, end));
    lemma_boundary_before_valid(rest, end - start);
    valid_utf8_split(rest, end - start);
    assert(rest.subrange(0, end - start) =~= bytes.subrange(start, end));
}

/// The number of bytes that `c` takes in UTF-8.
pub fn utf8_len(c: char) -> (n: usize)
    ensures
        n == encode_scalar(c as u32).len(),
        1 <= n <= 4,
{
    let v = c as u32;
    if v < 0x80 {
        1
    } else if v < 0x800 {
        2
    } else if v < 0x10000 {
        3
    } else {
        4
    }
}

/// What follows the character boundary `offset` in `s`.
pub fn str_tail<'a>(s: &'a str, offset: usize) -> (r: &'a str)
    requires
        is_char_boundary(s.spec_bytes(), offset as int),
    ensures
        r.spec_bytes() == tail(s.spec_bytes(), offset as int),
        r@ == chars_from(s.spec_bytes(), offset as int),
{
    let (_, rest) = s.split_at(offset);
    proof {
        encode_utf8_decode_utf8(rest@);
        assert(rest.spec_bytes() =~= tail(s.spec_bytes(), offset as int));
    }
    rest
}

/// What precedes the character boundary `offset` in `s`.
pub fn str_head<'a>(s: &'a str, offset: usize) -> (r: &'a str)
    requires
        is_char_boundary(s.spec_bytes(), offset as int),
    ensures
        r.spec_bytes() == s.spec_bytes().subrange(0, offset as int),
        r@ == decode_utf8(s.spec_bytes().subrange(0, offset as int)),
{
    let (first, _) = s.split_at(offset);
    proof {
        encode_utf8_decode_utf8(first@);
        assert(first.spec_bytes() =~= s.spec_bytes().subrange(0, offset as int));
    }
    first
}

/// The first character of `s`, if it has one.
pub fn first_char(s: &str) -> (r: Option<char>)
    ensures
        s@.len() == 0 ==> r is None,
        s@.len() > 0 ==> r == Some(s@[0]),
{
    let mut it = s.chars();
    it.next()
}

/// Whether two strings hold the same characters.
pub fn str_same(a: &str, b: &str) -> (r: bool)
    ensures
        r == (a@ == b@),
{
    let x = a.as_bytes();
    let y = b.as_bytes();
    proof {
        encode_utf8_decode_utf8(a@);
        encode_utf8_decode_utf8(b@);
    }
    assert(a@ == b@ <==> x@ == y@);
    if x.len() != y.len() {
        return false;
    }
    let mut i: usize = 0;
    while i < x.len()
        invariant
            a@ == b@ <==> x@ == y@,
            x@.len() == y@.len(),
            i <= x@.len(),
            forall|j: int| 0 <= j < i ==> x@[j] == y@[j],
        decreases x@.len() - i,
    {
        if x[i] != y[i] {
            return false;
        }
        i += 1;
    }
    assert(x@ =~= y@);
    true
}

/// The first character of `s` and what follows it, if `s` is not empty.
pub fn str_uncons<'a>(s: &'a str) -> (r: Option<(char, &'a str)>)
    ensures
        s@.len() == 0 ==> r is None,
        s@.len() > 0 ==> (r matches Some(p) && p.0 == s@[0] && p.1@ == s@.drop_first()),
{
    match first_char(s) {
        None => None,
        Some(c) => {
            proof {
                let bytes = s.spec_bytes();
                encode_utf8_valid_utf8(s@);
                encode_utf8_first_scalar(s@);
                is_char_boundary_start_end_of_seq(bytes);
                assert(tail(bytes, 0) =~= bytes);
                lemma_next_boundary(bytes, 0);
                assert(tail(bytes, encode_scalar(c as u32).len() as int) =~= encode_utf8(
                    s@.drop_first(),
                ));
                encode_utf8_decode_utf8(s@.drop_first());
            }
            Some((c, str_tail(s, utf8_len(c))))
        },
    }
}

/// Valid bytes that are not empty encode at least one character.
pub proof fn lemma_chars_nonempty(bytes: Seq<u8>)
    requires
        valid_utf8(bytes),
    ensures
        decode_utf8(bytes).len() == 0 <==> bytes.len() == 0,
{
}

/// The encoding of characters is empty only if there are none.
pub proof fn lemma_encode_nonempty(chars: Seq<char>)
    ensures
        encode_utf8(chars).len() == 0 <==> chars.len() == 0,
{
    if chars.len() > 0 {
        encode_utf8_first_scalar(chars);
    }
}

impl<'a> Input for &'a str {
    type Token = char;

    open spec fn spec_len(&self) -> nat {
        self.spec_bytes().len()
    }

    open spec fn boundary(&self, offset: int) -> bool {
        is_char_boundary(self.spec_bytes(), offset)
    }

    open spec fn spec_token(&self, offset: int) -> char {
        chars_from(self.spec_bytes(), offset)[0]
    }

    open spec fn spec_after(&self, offset: int) -> int {
        offset + length_of_first_scalar(tail(self.spec_bytes(), offset))
    }

    proof fn lemma_boundaries(&self, offset: int) {
        let bytes = self.spec_bytes();
        encode_utf8_valid_utf8(self@);
        is_char_boundary_start_end_of_seq(bytes);
        if self.boundary(offset) {
            lemma_boundary_within(bytes, offset);
            if offset < bytes.len() {
                lemma_next_boundary(bytes, offset);
            }
        }
    }

    fn len(&self) -> (n: usize) {
        let whole = self.as_bytes();
        assert(whole@.len() == whole.len());
        whole.len()
    }

    fn next(&self, offset: usize) -> (r: (usize, Option<char>)) {
        let rest = str_tail(*self, offset);
        let whole = self.as_bytes();
        assert(whole@.len() == whole.len());
        proof {
            let bytes = self.spec_bytes();
            encode_utf8_valid_utf8(self@);
            lemma_boundary_within(bytes, offset as int);
            if rest@.len() > 0 {
                encode_utf8_first_scalar(rest@);
            }
            if offset < bytes.len() {
                lemma_next_boundary(bytes, offset as int);
            }
        }
        match first_char(rest) {
            Some(c) => (offset + utf8_len(c), Some(c)),
            None => (offset, None),
        }
    }
}

impl<'a> SliceInput for &'a str {
    type Slice = &'a str;

    open spec fn spec_slice(&self, start: int, end: int) -> Seq<char> {
        decode_utf8(self.spec_bytes().subrange(start, end))
    }

    fn same_slice(a: &&'a str, b: &&'a str) -> (r: bool) {
        str_same(*a, *b)
    }

    fn slice(&self, start: usize, end: usize) -> (r: &'a str) {
        proof {
            encode_utf8_valid_utf8(self@);
            lemma_boundary_of_tail(self.spec_bytes(), start as int, end as int);
        }
        let rest = str_tail(*self, start);
        let r = str_head(rest, end - start);
        proof {
            assert(tail(self.spec_bytes(), start as int).subrange(0, end - start)
                =~= self.spec_bytes().subrange(start as int, end as int));
        }
        r
    }
}

} // verus!
