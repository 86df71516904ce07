use combinators::parser::{parse, Parser};
use combinators::text;
use combinators::text::{Ident, Keyword};
use combinators::transform::Ignored;

fn make_ascii_kw_parser(s: &'static str) -> impl Parser<&'static str, (), (), ()> {
    let keyword: Keyword<Ident<&'static str, (), ()>, &'static str> = text::ascii::keyword(s);
    let ignored: Ignored<_, &'static str, (), ()> = Ignored::new(keyword, ());
    ignored
}

fn make_unicode_kw_parser(s: &'static str) -> impl Parser<&'static str, (), (), ()> {
    let keyword: Keyword<Ident<&'static str, (), ()>, &'static str> = text::unicode::keyword(s);
    let ignored: Ignored<_, &'static str, (), ()> = Ignored::new(keyword, ());
    ignored
}

fn test_ok<P: Parser<&'static str, &'static str, (), ()>>(parser: &P, input: &'static str) {
    assert_eq!(parse(parser, input), (Some(input), vec![]));
}

fn test_err<P: Parser<&'static str, &'static str, (), ()>>(parser: &P, input: &'static str) {
    assert_eq!(parse(parser, input), (None, vec![()]));
}

#[test]
fn keyword_good() {
    make_ascii_kw_parser("hello");
    make_ascii_kw_parser("_42");
    make_ascii_kw_parser("_42");

    make_unicode_kw_parser("שלום");
    make_unicode_kw_parser("привет");
    make_unicode_kw_parser("你好");
}

#[test]
fn ident() {
    let ident = text::ident::<&str, (), ()>();
    test_ok(&ident, "foo");
    test_ok(&ident, "foo_bar");
    test_ok(&ident, "foo_");
    test_ok(&ident, "_foo");
    test_ok(&ident, "_");
    test_ok(&ident, "__");
    test_ok(&ident, "__init__");
    test_err(&ident, "");
    test_err(&ident, ".");
    test_err(&ident, "123");
}
