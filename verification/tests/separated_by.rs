use combinators::parser::parse;
use combinators::primitive::{end, just, End, Just};
use combinators::repeat::SeparatedBy;
use combinators::sequence::Then;
use combinators::transform::Mapped;

type Dashes<C> = SeparatedBy<Just<char>, Just<char>, char, char, &'static str, C, (), ()>;

fn dashes() -> Dashes<()> {
    SeparatedBy::new(just('-'), just(','))
}

#[test]
fn separated_by_at_least() {
    let parser = dashes().at_least(3).collect::<Vec<char>>();

    assert_eq!(parse(&parser, "-,-,-"), (Some(vec!['-', '-', '-']), vec![]));
}

#[test]
fn separated_by_at_least_without_leading() {
    let parser = dashes().at_least(3).collect::<Vec<char>>();

    // Is empty means no errors
    assert!(!parse(&parser, ",-,-,-").1.is_empty());
}

#[test]
fn separated_by_at_least_without_trailing() {
    let parser: Then<Dashes<Vec<char>>, End, Vec<char>, (), (), ()> =
        Then::new(dashes().at_least(3).collect::<Vec<char>>(), end());

    // Is empty means no errors
    assert!(!parse(&parser, "-,-,-,").1.is_empty());
}

#[test]
fn separated_by_at_least_with_leading() {
    let parser = dashes().allow_leading().at_least(3).collect::<Vec<char>>();

    assert_eq!(parse(&parser, ",-,-,-"), (Some(vec!['-', '-', '-']), vec![]));
    assert!(!parse(&parser, ",-,-").1.is_empty());
}

#[test]
fn separated_by_at_least_with_trailing() {
    let parser = dashes().allow_trailing().at_least(3).collect::<Vec<char>>();

    assert_eq!(parse(&parser, "-,-,-,"), (Some(vec!['-', '-', '-']), vec![]));
    assert!(!parse(&parser, "-,-,").1.is_empty());
}

#[test]
fn separated_by_leaves_last_separator() {
    let list: Then<Dashes<Vec<char>>, Just<char>, Vec<char>, char, (), ()> =
        Then::new(dashes().collect::<Vec<char>>(), just(','));
    let parser = Mapped::new(list, |pair: (Vec<char>, char)| {
        let (mut items, last) = pair;
        items.push(last);
        items
    });
    assert_eq!(
        parse(&parser, "-,-,-,"),
        (Some(vec!['-', '-', '-', ',']), vec![])
    )
}
