use combinators::error::Simple;
use combinators::input::{Input, InputRef, SliceInput, Span};
use combinators::mode::Emit;
use combinators::parser::{parse, Parser};
use combinators::primitive::{any, Any, Lazy};
use combinators::repeat::Repeated;
use combinators::strings::{first_char, str_head, str_same, str_tail, str_uncons, utf8_len};
use combinators::text;
use combinators::text::chars::{char_is_digit, Char};
use combinators::text::unicode::{Grapheme, Graphemes, GraphemesIter};
use combinators::text::{CharClass, InClass, Padded};
use combinators::transform::ToSlice;

type Failure = Simple<char>;

fn whole<O, P>(p: &P, input: &'static str) -> Option<O>
where
    O: combinators::model::Modeled,
    P: Parser<&'static str, O, Failure, ()>,
{
    parse(p, input).0
}

fn stops<O, P>(p: &P, input: &'static str) -> (bool, usize)
where
    O: combinators::model::Modeled,
    P: Parser<&'static str, O, Failure, ()>,
{
    let mut inp: InputRef<&'static str, Failure, ()> = InputRef::new(input, ());
    let r = p.go::<Emit>(&mut inp);
    (r.is_ok(), inp.save())
}

#[test]
fn digits_accepts_zeroes() {
    let digits: ToSlice<_, ()> = ToSlice::new(text::digits::<&str, Failure, ()>(10));
    assert_eq!(whole(&digits, "0"), Some("0"));
    assert_eq!(whole(&digits, "1"), Some("1"));
    assert_eq!(whole(&digits, "01234"), Some("01234"));
    assert_eq!(whole(&digits, "98345"), Some("98345"));
    assert_eq!(whole(&digits, "0000"), Some("0000"));
    assert_eq!(whole(&digits, ""), None);
    assert_eq!(whole(&digits, "12a"), None);
    assert_eq!(stops(&digits, "12a"), (true, 2));
}

#[test]
fn integer_rejects_leading_zeroes() {
    let dec = text::integer::<&str, Failure, ()>(10);
    assert_eq!(whole(&dec, "0"), Some("0"));
    assert_eq!(whole(&dec, "1"), Some("1"));
    assert_eq!(whole(&dec, "1452"), Some("1452"));
    assert_eq!(whole(&dec, "04"), None);
    assert_eq!(stops(&dec, "04"), (true, 1));
    assert_eq!(whole(&dec, ""), None);

    let hex = text::integer::<&str, Failure, ()>(16);
    assert_eq!(whole(&hex, "2A"), Some("2A"));
    assert_eq!(whole(&hex, "d"), Some("d"));
    assert_eq!(whole(&hex, "b4"), Some("b4"));
    assert_eq!(whole(&hex, "0B"), None);
}

#[test]
fn unicode_ident_scenarios() {
    let ident = text::unicode::ident::<&str, Failure, ()>();
    assert_eq!(whole(&ident, "__init__"), Some("__init__"));
    assert_eq!(whole(&ident, "123"), None);
    assert_eq!(whole(&ident, "été"), Some("été"));
    assert_eq!(whole(&ident, "a1"), Some("a1"));
    assert_eq!(stops(&ident, "foo bar"), (true, 3));
}

#[test]
fn ascii_ident_is_letters_and_underscores() {
    let ident = text::ascii::ident::<&str, Failure, ()>();
    assert_eq!(whole(&ident, "__init__"), Some("__init__"));
    assert_eq!(whole(&ident, "foo_bar"), Some("foo_bar"));
    assert_eq!(whole(&ident, "123"), None);
    assert_eq!(whole(&ident, ""), None);
    assert_eq!(stops(&ident, "été"), (false, 2));
    assert_eq!(stops(&ident, "ab1"), (true, 2));
}

#[test]
fn keyword_matches_the_whole_identifier() {
    let def = text::ascii::keyword::<&str, Failure, ()>("def");
    assert_eq!(whole(&def, "def"), Some("def"));
    assert_eq!(whole(&def, "def(foo, bar)"), None);
    assert_eq!(whole(&def, "define"), None);
    assert_eq!(stops(&def, "def(foo, bar)"), (true, 3));
    assert_eq!(stops(&def, "define"), (false, 6));

    let lazy = Lazy::new(text::ascii::keyword::<&str, Failure, ()>("def"));
    assert_eq!(whole(&lazy, "def(foo, bar)"), Some("def"));
    assert_eq!(whole(&lazy, "def(foo)"), Some("def"));
    assert_eq!(whole(&lazy, "define"), None);

    let lazy = Lazy::new(text::unicode::keyword::<&str, Failure, ()>("def"));
    assert_eq!(whole(&lazy, "def(foo)"), Some("def"));
    assert_eq!(whole(&lazy, "define"), None);
}

#[test]
fn keyword_error_names_nothing() {
    let def = text::ascii::keyword::<&str, Failure, ()>("def");
    let (out, errs) = parse(&def, "define");
    assert_eq!(out, None);
    let expected = Simple { span: Span { start: 0, end: 6 }, expected: vec![], found: None };
    assert_eq!(errs, vec![expected]);
}

#[test]
fn whitespace_of_any_length() {
    let whitespace = text::whitespace::<&str, Failure, ()>();
    assert_eq!(whole(&whitespace, "\t \n  \r "), Some(()));
    assert_eq!(whole(&whitespace, ""), Some(()));
    assert_eq!(whole(&whitespace, "\u{A0}\u{3000}"), Some(()));
    assert_eq!(stops(&whitespace, "  x"), (true, 2));

    let inline = text::inline_whitespace::<&str, Failure, ()>();
    assert_eq!(whole(&inline, "\t  "), Some(()));
    assert_eq!(whole(&inline, ""), Some(()));
    assert_eq!(whole(&inline.at_least(1), "\n\r"), None);
}

#[test]
fn newline_variants() {
    let newline = text::newline();
    for input in ["\n", "\r", "\r\n", "\x0B", "\x0C", "\u{0085}", "\u{2028}", "\u{2029}"] {
        assert_eq!(whole(&newline, input), Some(()));
    }
    assert_eq!(whole(&newline, " "), None);
    assert_eq!(whole(&newline, ""), None);
    assert_eq!(stops(&newline, "\r\r"), (true, 1));
    assert_eq!(stops(&newline, "\n\n"), (true, 1));
    assert_eq!(stops(&newline, "x"), (false, 1));
}

#[test]
fn newline_of_graphemes() {
    let newline = text::newline();
    for input in ["\n", "\r", "\r\n", "\u{2028}"] {
        let (out, errs): (Option<()>, Vec<Simple<Grapheme>>) =
            parse(&newline, Graphemes::new(input));
        assert_eq!(out, Some(()));
        assert!(errs.is_empty());
    }
    let (out, _): (Option<()>, Vec<Simple<Grapheme>>) = parse(&newline, Graphemes::new("a"));
    assert_eq!(out, None);
}

#[test]
fn padded_reads_the_whitespace_around() {
    let p = Padded::new(text::integer::<&str, Failure, ()>(10));
    assert_eq!(whole(&p, "  12\n"), Some("12"));
    assert_eq!(whole(&p, "12"), Some("12"));
    assert_eq!(stops(&p, " 12 x"), (true, 4));
    assert_eq!(stops(&p, "  x"), (false, 3));
}

#[test]
fn classes_of_char() {
    assert!(' '.is_inline_whitespace() && '\t'.is_inline_whitespace());
    assert!(!'\n'.is_inline_whitespace());
    assert!(Char::is_whitespace(&' ') && Char::is_whitespace(&'\n'));
    assert!(Char::is_whitespace(&'\u{A0}'));
    assert!(!Char::is_whitespace(&'a') && !Char::is_whitespace(&'越'));
    for c in ['\n', '\r', '\x0B', '\x0C', '\u{0085}', '\u{2028}', '\u{2029}'] {
        assert!(c.is_newline());
    }
    assert!(!' '.is_newline());
    assert_eq!(<char as Char>::digit_zero(), '0');
    assert!(Char::is_digit(&'7', 10) && !Char::is_digit(&'7', 7) && Char::is_digit(&'6', 7));
    assert!(Char::is_digit(&'f', 16) && Char::is_digit(&'F', 16) && !Char::is_digit(&'g', 16));
    assert!(Char::is_digit(&'z', 36) && Char::is_digit(&'Z', 36) && !Char::is_digit(&'z', 35));
    assert!(!Char::is_digit(&'٣', 10));
    assert!('a'.is_ident_start() && '_'.is_ident_start() && 'é'.is_ident_start());
    assert!(!'1'.is_ident_start() && !'-'.is_ident_start());
    assert!('1'.is_ident_continue() && 'a'.is_ident_continue() && '_'.is_ident_continue());
    assert!(!'-'.is_ident_continue());
    assert_eq!('a'.to_ascii(), Some(97));
    assert_eq!('\x7f'.to_ascii(), Some(127));
    assert_eq!('\u{80}'.to_ascii(), None);
}

#[test]
fn char_is_digit_agrees_with_std() {
    for radix in 2..=36u32 {
        for c in ('\0'..='\u{17f}').chain(['٣', '０', '\u{10ffff}']) {
            assert_eq!(char_is_digit(c, radix), c.is_digit(radix));
        }
    }
}

#[test]
fn classes_of_u8() {
    assert!(b' '.is_inline_whitespace() && b'\t'.is_inline_whitespace());
    assert!(!b'\n'.is_inline_whitespace());
    for b in 0..=255u8 {
        assert_eq!(Char::is_whitespace(&b), b.is_ascii_whitespace());
        assert_eq!(b.is_newline(), [b'\n', b'\r', 0x0B, 0x0C].contains(&b));
        assert_eq!(Char::is_digit(&b, 16), (b as char).is_digit(16));
        assert_eq!(b.to_ascii(), Some(b));
    }
    assert_eq!(<u8 as Char>::digit_zero(), b'0');
    assert!(b'a'.is_ident_start() && b'_'.is_ident_start() && !b'1'.is_ident_start());
    assert!(b'1'.is_ident_continue() && !b'-'.is_ident_continue());
}

#[test]
fn char_classes() {
    assert!(CharClass::Whitespace.holds(&' ') && !CharClass::Whitespace.holds(&'x'));
    assert!(CharClass::InlineWhitespace.holds(&'\t') && !CharClass::InlineWhitespace.holds(&'\n'));
    assert!(CharClass::Newline.holds(&'\n') && !CharClass::Newline.holds(&' '));
    assert!(CharClass::Digit(10).holds(&'0') && !CharClass::Digit(10).holds(&'a'));
    assert!(CharClass::NonZeroDigit(10).holds(&'1') && !CharClass::NonZeroDigit(10).holds(&'0'));
    assert!(CharClass::IdentStart.holds(&'_') && !CharClass::IdentStart.holds(&'1'));
    assert!(CharClass::IdentContinue.holds(&'1') && !CharClass::IdentContinue.holds(&' '));
    assert!(CharClass::AsciiIdent.holds(&'z') && CharClass::AsciiIdent.holds(&'_'));
    assert!(!CharClass::AsciiIdent.holds(&'1') && !CharClass::AsciiIdent.holds(&'é'));
    assert!(CharClass::AsciiIdent.holds(&b'A') && !CharClass::AsciiIdent.holds(&b'@'));
    assert!(!CharClass::AsciiIdent.holds(&b'[') && !CharClass::AsciiIdent.holds(&b'`'));
    assert!(!CharClass::AsciiIdent.holds(&b'{'));
}

#[test]
fn in_class_reads_one_character() {
    let p = InClass::new(CharClass::Digit(10));
    let (out, errs): (Option<char>, Vec<Failure>) = parse(&p, "7");
    assert_eq!(out, Some('7'));
    assert!(errs.is_empty());
    let (out, errs): (Option<char>, Vec<Failure>) = parse(&p, "x");
    assert_eq!(out, None);
    let expected = Simple { span: Span { start: 0, end: 1 }, expected: vec![], found: Some('x') };
    assert_eq!(errs, vec![expected]);
}

#[test]
fn strings_count_bytes() {
    let input = "aé越🦀";
    assert_eq!(Input::len(&input), 10);
    assert_eq!(Input::len(&""), 0);
    assert_eq!(Input::next(&input, 0), (1, Some('a')));
    assert_eq!(Input::next(&input, 1), (3, Some('é')));
    assert_eq!(Input::next(&input, 3), (6, Some('越')));
    assert_eq!(Input::next(&input, 6), (10, Some('🦀')));
    assert_eq!(Input::next(&input, 10), (10, None));
    assert_eq!(SliceInput::slice(&input, 1, 6), "é越");
    assert_eq!(SliceInput::slice(&input, 10, 10), "");
    assert!(<&str as SliceInput>::same_slice(&"é越", &"é越"));
    assert!(!<&str as SliceInput>::same_slice(&"é越", &"é越 "));
    assert!(!<&str as SliceInput>::same_slice(&"ab", &"ac"));
}

#[test]
fn string_helpers() {
    assert_eq!([utf8_len('a'), utf8_len('é'), utf8_len('越'), utf8_len('🦀')], [1, 2, 3, 4]);
    assert_eq!([utf8_len('\u{7f}'), utf8_len('\u{80}')], [1, 2]);
    assert_eq!([utf8_len('\u{7ff}'), utf8_len('\u{800}')], [2, 3]);
    assert_eq!([utf8_len('\u{ffff}'), utf8_len('\u{10000}')], [3, 4]);
    for c in ['\0', 'a', 'é', '越', '🦀', '\u{10ffff}'] {
        assert_eq!(utf8_len(c), c.len_utf8());
    }
    assert_eq!(str_tail("aé越", 3), "越");
    assert_eq!(str_head("aé越", 3), "aé");
    assert_eq!(first_char("é越"), Some('é'));
    assert_eq!(first_char(""), None);
    assert_eq!(str_uncons("é越"), Some(('é', "越")));
    assert_eq!(str_uncons(""), None);
    assert!(str_same("é", "é") && !str_same("é", "e"));
}

#[test]
fn any_reads_strings_by_char() {
    let p: Repeated<Any, char, &str, Vec<char>, Failure, ()> = Repeated::new(any()).collect();
    assert_eq!(whole(&p, "aé越🦀"), Some(vec!['a', 'é', '越', '🦀']));
}

#[test]
fn graphemes_are_read_whole() {
    let input = Graphemes::new("e\u{301}x\r\n🇷🇺🇸🇹");
    assert_eq!(Input::len(&input), 22);
    let (at, g) = input.next(0);
    assert_eq!((at, g.unwrap().as_str()), (3, "e\u{301}"));
    let (at, g) = input.next(3);
    assert_eq!((at, g.unwrap().as_str()), (4, "x"));
    let (at, g) = input.next(4);
    assert_eq!((at, g.unwrap().as_str()), (6, "\r\n"));
    let (at, g) = input.next(6);
    assert_eq!((at, g.unwrap().as_str()), (14, "🇷🇺"));
    let (at, g) = input.next(14);
    assert_eq!((at, g.unwrap().as_str()), (22, "🇸🇹"));
    assert_eq!(input.next(22), (22, None));
    assert_eq!(input.slice(3, 6).as_str(), "x\r\n");
    assert!(Graphemes::same_slice(&Graphemes::new("x"), &input.slice(3, 4)));
    assert!(!Graphemes::same_slice(&Graphemes::new("y"), &input.slice(3, 4)));
}

#[test]
fn graphemes_views() {
    let graphemes = Graphemes::new("aé");
    assert_eq!(graphemes.as_str(), "aé");
    assert_eq!(graphemes.as_bytes(), "aé".as_bytes());
    assert_eq!(graphemes.code_points().collect::<Vec<char>>(), vec!['a', 'é']);
    assert_eq!(graphemes.bytes().copied().collect::<Vec<u8>>(), "aé".as_bytes().to_vec());
}

#[test]
fn graphemes_iter_hands_out_graphemes() {
    let mut iter = Graphemes::new("e\u{301}x").iter();
    assert_eq!(iter.clone().as_str(), "e\u{301}x");
    assert_eq!(iter.next().map(|g| g.as_str()), Some("e\u{301}"));
    assert_eq!(iter.clone().as_str(), "x");
    assert_eq!(iter.next().map(|g| g.as_str()), Some("x"));
    assert_eq!(iter.next(), None);
    assert_eq!(iter.next(), None);
    let mut iter = GraphemesIter::new(Graphemes::new(""));
    assert_eq!(iter.next(), None);
}

fn grapheme(s: &'static str) -> Grapheme<'static> {
    Graphemes::new(s).next(0).1.unwrap()
}

#[test]
fn grapheme_views() {
    let g = grapheme("e\u{301}");
    assert_eq!(g.as_str(), "e\u{301}");
    assert_eq!(g.as_bytes(), "e\u{301}".as_bytes());
    assert_eq!(g.code_points().collect::<Vec<char>>(), vec!['e', '\u{301}']);
    assert_eq!(g.bytes().copied().collect::<Vec<u8>>(), vec![0x65, 0xCC, 0x81]);
    assert_eq!(g.split(), ('e', "\u{301}"));
    assert_eq!(grapheme("x").split(), ('x', ""));
    assert_eq!(Grapheme::digit_zero().as_str(), "0");
}

#[test]
fn classes_of_grapheme() {
    assert!(grapheme(" ").is_inline_whitespace() && grapheme("\t").is_inline_whitespace());
    assert!(!grapheme("\n").is_inline_whitespace() && !grapheme("a").is_inline_whitespace());
    assert!(Char::is_whitespace(&grapheme(" ")) && Char::is_whitespace(&grapheme("\r\n")));
    assert!(!Char::is_whitespace(&grapheme("a")));
    for s in ["\r\n", "\n", "\r", "\x0B", "\x0C", "\u{0085}", "\u{2028}", "\u{2029}"] {
        assert!(grapheme(s).is_newline());
    }
    assert!(!grapheme(" ").is_newline() && !grapheme("e\u{301}").is_newline());
    assert_eq!(<Grapheme as Char>::digit_zero().as_str(), "0");
    assert!(Char::is_digit(&grapheme("7"), 10) && !Char::is_digit(&grapheme("a"), 10));
    assert!(!Char::is_digit(&grapheme("7\u{301}"), 10));
    assert_eq!(grapheme("a").to_ascii(), Some(97));
    assert_eq!(grapheme("é").to_ascii(), None);
    assert_eq!(grapheme("\r\n").to_ascii(), None);
    assert!(grapheme("a").is_ident_start() && grapheme("_").is_ident_start());
    assert!(grapheme("e\u{301}").is_ident_start());
    assert!(!grapheme("1").is_ident_start() && !grapheme("🦀").is_ident_start());
    assert!(grapheme("1").is_ident_continue() && grapheme("e\u{301}").is_ident_continue());
    assert!(!grapheme("-").is_ident_continue());
}

#[test]
fn idents_of_graphemes() {
    let ident = text::unicode::ident::<Graphemes, Simple<Grapheme>, ()>();
    let (out, errs) = parse(&ident, Graphemes::new("cafe\u{301}_1"));
    assert_eq!(out.map(|g| g.as_str()), Some("cafe\u{301}_1"));
    assert!(errs.is_empty());
    let (out, _) = parse(&ident, Graphemes::new("1x"));
    assert!(out.is_none());

    let dec = text::integer::<Graphemes, Simple<Grapheme>, ()>(10);
    assert_eq!(parse(&dec, Graphemes::new("120")).0.map(|g| g.as_str()), Some("120"));
    assert!(parse(&dec, Graphemes::new("012")).0.is_none());
    assert_eq!(parse(&dec, Graphemes::new("0")).0.map(|g| g.as_str()), Some("0"));
}

#[test]
fn graphemes_iter_from_the_back() {
    let mut iter = Graphemes::new("xe\u{301}\r\n").iter();
    assert_eq!(iter.size_hint(), (1, Some(6)));
    assert_eq!(iter.next_back().map(|g| g.as_str()), Some("\r\n"));
    assert_eq!(iter.as_str(), "xe\u{301}");
    assert_eq!(iter.next_back().map(|g| g.as_str()), Some("e\u{301}"));
    assert_eq!(iter.next().map(|g| g.as_str()), Some("x"));
    assert_eq!(iter.size_hint(), (0, Some(0)));
    assert_eq!(iter.next_back(), None);
    assert_eq!(iter.next(), None);
}

#[test]
fn graphemes_conversions() {
    let graphemes = Graphemes::from("aé");
    assert_eq!(graphemes, Graphemes::new("aé"));
    let text: &str = graphemes.as_ref();
    assert_eq!(text, "aé");
    let bytes: &[u8] = graphemes.as_ref();
    assert_eq!(bytes, "aé".as_bytes());
    let same: &Graphemes = graphemes.as_ref();
    assert_eq!(*same, graphemes);
    let text: &str = std::borrow::Borrow::borrow(&graphemes);
    assert_eq!(text, "aé");
    let bytes: &[u8] = std::borrow::Borrow::borrow(&graphemes);
    assert_eq!(bytes.len(), 3);
}
