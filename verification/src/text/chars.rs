//! The characters of text: what parsers of text need to know of a token.

use crate::input::Token;
use crate::model::Modeled;
use vstd::prelude::*;

verus! {

/// Whether `c` has the Unicode property White_Space.
///
/// This names what `char::is_whitespace` of the standard library returns;
/// the property is a table of the Unicode Character Database.
pub uninterp spec fn white_space(c: char) -> bool;

/// Whether `c` has the Unicode property XID_Start.
///
/// This names what `unicode_ident::is_xid_start` returns; the property is a
/// table of the Unicode Character Database.
pub uninterp spec fn xid_start(c: char) -> bool;

/// Whether `c` has the Unicode property XID_Continue.
///
/// This names what `unicode_ident::is_xid_continue` returns; the property is
/// a table of the Unicode Character Database.
pub uninterp spec fn xid_continue(c: char) -> bool;

/// Trusted: `char::is_whitespace` of the standard library says whether the
/// character has the property White_Space.
#[verifier::external_body]
pub(crate) fn char_is_whitespace(c: char) -> (b: bool)
    ensures
        b == white_space(c),
{
    c.is_whitespace()
}

/// Trusted: `unicode_ident::is_xid_start` says whether the character has the
/// property XID_Start. It is a lookup in a table and the same for every
/// call.
pub assume_specification[ unicode_ident::is_xid_start ](ch: char) -> (b: bool)
    ensures
        b == xid_start(ch),
;

/// Trusted: `unicode_ident::is_xid_continue` says whether the character has
/// the property XID_Continue. It is a lookup in a table and the same for
/// every call.
pub assume_specification[ unicode_ident::is_xid_continue ](ch: char) -> (b: bool)
    ensures
        b == xid_continue(ch),
;

/// Whether `c` is a space or a tab.
pub open spec fn inline_space(c: char) -> bool {
    c == ' ' || c == '\t'
}

/// Whether `c` ends a line: line feed, carriage return, vertical tab, form
/// feed, next line, line separator or paragraph separator.
pub open spec fn line_break(c: char) -> bool {
    c == '\n' || c == '\r' || c == '\x0B' || c == '\x0C' || c == '\u{0085}' || c == '\u{2028}'
        || c == '\u{2029}'
}

/// The value of `c` as a digit: `0` to `9` count 0 to 9, and `a` to `z`, in
/// either case, count 10 to 35. Other characters are no digits.
pub open spec fn digit_value(c: char) -> Option<int> {
    if '0' <= c <= '9' {
        Some(c as u32 - '0' as u32)
    } else if 'a' <= c <= 'z' {
        Some(c as u32 - 'a' as u32 + 10)
    } else if 'A' <= c <= 'Z' {
        Some(c as u32 - 'A' as u32 + 10)
    } else {
        None
    }
}

/// Whether `c` is a digit in base `radix`.
pub open spec fn digit_in(c: char, radix: u32) -> bool {
    digit_value(c) matches Some(v) && v < radix
}

/// Whether `c` is an ASCII character.
pub open spec fn ascii(c: char) -> bool {
    (c as u32) < 128
}

/// Whether `c` can begin an identifier of Unicode: it has XID_Start, or is
/// an underscore.
pub open spec fn ident_start(c: char) -> bool {
    xid_start(c) || c == '_'
}

/// Whether `b` is an ASCII whitespace byte: space, tab, line feed, form
/// feed or carriage return.
pub open spec fn ascii_white_space(b: u8) -> bool {
    b == 0x20 || b == 0x09 || b == 0x0A || b == 0x0C || b == 0x0D
}

/// Whether `b` is an ASCII letter or an underscore.
pub open spec fn ascii_ident_byte(b: u8) -> bool {
    (0x41 <= b <= 0x5A) || (0x61 <= b <= 0x7A) || b == 0x5F
}

/// Whether `c` is a digit in base `radix`, which is at least 2 and at most
/// 36.
pub fn char_is_digit(c: char, radix: u32) -> (b: bool)
    requires
        2 <= radix <= 36,
    ensures
        b == digit_in(c, radix),
{
    let value: u32 = if '0' <= c && c <= '9' {
        c as u32 - '0' as u32
    } else if 'a' <= c && c <= 'z' {
        c as u32 - 'a' as u32 + 10
    } else if 'A' <= c && c <= 'Z' {
        c as u32 - 'A' as u32 + 10
    } else {
        return false;
    };
    value < radix
}

/// A kind of character that text is made of: `char`, `u8`, or a grapheme.
pub trait Char: Token + PartialEq {
    /// Whether a character with this model is a space or a tab.
    spec fn spec_is_inline_whitespace(m: Self::Model) -> bool;

    /// Whether a character with this model is whitespace.
    spec fn spec_is_whitespace(m: Self::Model) -> bool;

    /// Whether a character with this model ends a line.
    spec fn spec_is_newline(m: Self::Model) -> bool;

    /// The model of the digit `0`.
    spec fn spec_digit_zero() -> Self::Model;

    /// Whether a character with this model is a digit in base `radix`.
    spec fn spec_is_digit(m: Self::Model, radix: u32) -> bool;

    /// Whether a character with this model can begin an identifier.
    spec fn spec_is_ident_start(m: Self::Model) -> bool;

    /// Whether a character with this model can continue an identifier.
    spec fn spec_is_ident_continue(m: Self::Model) -> bool;

    /// The ASCII byte that a character with this model is, if it is one.
    spec fn spec_to_ascii(m: Self::Model) -> Option<u8>;

    /// Returns true if the character is a space or a tab.
    fn is_inline_whitespace(&self) -> (b: bool)
        ensures
            b == Self::spec_is_inline_whitespace(self.model()),
    ;

    /// Returns true if the character is whitespace.
    fn is_whitespace(&self) -> (b: bool)
        ensures
            b == Self::spec_is_whitespace(self.model()),
    ;

    /// Returns true if the character ends a line.
    fn is_newline(&self) -> (b: bool)
        ensures
            b == Self::spec_is_newline(self.model()),
    ;

    /// The digit `0`.
    fn digit_zero() -> (z: Self)
        ensures
            z.model() == Self::spec_digit_zero(),
    ;

    /// Returns true if the character is a digit in base `radix`, which is
    /// at least 2 and at most 36.
    fn is_digit(&self, radix: u32) -> (b: bool)
        requires
            2 <= radix <= 36,
        ensures
            b == Self::spec_is_digit(self.model(), radix),
    ;

    /// Returns true if the character can begin an identifier.
    fn is_ident_start(&self) -> (b: bool)
        ensures
            b == Self::spec_is_ident_start(self.model()),
    ;

    /// Returns true if the character can continue an identifier.
    fn is_ident_continue(&self) -> (b: bool)
        ensures
            b == Self::spec_is_ident_continue(self.model()),
    ;

    /// The character as an ASCII byte, if it is one.
    fn to_ascii(&self) -> (b: Option<u8>)
        ensures
            b == Self::spec_to_ascii(self.model()),
    ;
}

impl Char for char {
    open spec fn spec_is_inline_whitespace(m: char) -> bool {
        inline_space(m)
    }

    open spec fn spec_is_whitespace(m: char) -> bool {
        white_space(m)
    }

    open spec fn spec_is_newline(m: char) -> bool {
        line_break(m)
    }

    open spec fn spec_digit_zero() -> char {
        '0'
    }

    open spec fn spec_is_digit(m: char, radix: u32) -> bool {
        digit_in(m, radix)
    }

    open spec fn spec_is_ident_start(m: char) -> bool {
        ident_start(m)
    }

    open spec fn spec_is_ident_continue(m: char) -> bool {
        xid_continue(m)
    }

    open spec fn spec_to_ascii(m: char) -> Option<u8> {
        if ascii(m) {
            Some(m as u8)
        } else {
            None
        }
    }

    fn is_inline_whitespace(&self) -> (b: bool) {
        *self == ' ' || *self == '\t'
    }

    fn is_whitespace(&self) -> (b: bool) {
        char_is_whitespace(*self)
    }

    fn is_newline(&self) -> (b: bool) {
        let c = *self;
        c == '\n' || c == '\r' || c == '\x0B' || c == '\x0C' || c == '\u{0085}' || c == '\u{2028}'
            || c == '\u{2029}'
    }

    fn digit_zero() -> (z: char) {
        '0'
    }

    fn is_digit(&self, radix: u32) -> (b: bool) {
        char_is_digit(*self, radix)
    }

    fn is_ident_start(&self) -> (b: bool) {
        unicode_ident::is_xid_start(*self) || *self == '_'
    }

    fn is_ident_continue(&self) -> (b: bool) {
        unicode_ident::is_xid_continue(*self)
    }

    fn to_ascii(&self) -> (b: Option<u8>) {
        if (*self as u32) < 128 {
            Some(*self as u8)
        } else {
            None
        }
    }
}

impl Char for u8 {
    open spec fn spec_is_inline_whitespace(m: u8) -> bool {
        m == 0x20 || m == 0x09
    }

    open spec fn spec_is_whitespace(m: u8) -> bool {
        ascii_white_space(m)
    }

    open spec fn spec_is_newline(m: u8) -> bool {
        m == 0x0A || m == 0x0D || m == 0x0B || m == 0x0C
    }

    open spec fn spec_digit_zero() -> u8 {
        0x30
    }

    open spec fn spec_is_digit(m: u8, radix: u32) -> bool {
        digit_in(m as char, radix)
    }

    open spec fn spec_is_ident_start(m: u8) -> bool {
        ident_start(m as char)
    }

    open spec fn spec_is_ident_continue(m: u8) -> bool {
        xid_continue(m as char)
    }

    open spec fn spec_to_ascii(m: u8) -> Option<u8> {
        Some(m)
    }

    fn is_inline_whitespace(&self) -> (b: bool) {
        *self == 0x20 || *self == 0x09
    }

    fn is_whitespace(&self) -> (b: bool) {
        let b = *self;
        b == 0x20 || b == 0x09 || b == 0x0A || b == 0x0C || b == 0x0D
    }

    fn is_newline(&self) -> (b: bool) {
        let b = *self;
        b == 0x0A || b == 0x0D || b == 0x0B || b == 0x0C
    }

    fn digit_zero() -> (z: u8) {
        0x30
    }

    fn is_digit(&self, radix: u32) -> (b: bool) {
        char_is_digit(*self as char, radix)
    }

    fn is_ident_start(&self) -> (b: bool) {
        (*self as char).is_ident_start()
    }

    fn is_ident_continue(&self) -> (b: bool) {
        (*self as char).is_ident_continue()
    }

    fn to_ascii(&self) -> (b: Option<u8>) {
        Some(*self)
    }
}

} // verus!
