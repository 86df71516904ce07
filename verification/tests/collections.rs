use combinators::collections::{IntMap, IntSet};
use combinators::container::{empty, Container};
use combinators::error::Simple;
use combinators::exact::ContainerExactly;
use combinators::input::Input;
use combinators::parser::parse;
use combinators::primitive::{any, just, Any, Just};
use combinators::repeat::{push_onto, Repeated, SeparatedBy};
use combinators::sequence::Then;
use std::collections::{BTreeMap, BTreeSet, HashMap, HashSet};

type Numbers = &'static [u64];
type Pair = Then<Any, Any, u64, u64, Simple<u64>, ()>;

fn numbers<C: Container<u64>>() -> Repeated<Any, u64, Numbers, C, Simple<u64>, ()> {
    Repeated::new(any()).collect()
}

fn pairs<C: Container<(u64, u64)>>() -> Repeated<Pair, (u64, u64), Numbers, C, Simple<u64>, ()> {
    Repeated::new(Then::new(any(), any())).collect()
}

#[test]
fn slices_know_their_length() {
    let input: Numbers = &[1, 2, 3];
    assert_eq!(Input::len(&input), 3);
    assert_eq!(input.next(2), (3, Some(3)));
    assert_eq!(input.next(3), (3, None));
}

#[test]
fn unit_keeps_nothing() {
    let mut unit = empty::<u64, ()>();
    Container::push(&mut unit, 3u64);
    assert_eq!(unit, ());
    assert_eq!(parse(&numbers::<()>(), &[1, 2][..]).0, Some(()));
}

#[test]
fn vec_keeps_the_order() {
    assert_eq!(parse(&numbers::<Vec<u64>>(), &[3, 1, 3][..]).0, Some(vec![3, 1, 3]));
    assert_eq!(parse(&numbers::<Vec<u64>>(), &[][..]).0, Some(vec![]));
    assert_eq!(push_onto(vec![1u64], 2), vec![1, 2]);
}

#[test]
fn string_collects_chars() {
    let p: Repeated<Just<char>, char, &str, String, Simple<char>, ()> =
        Repeated::new(just('a')).collect();
    assert_eq!(parse(&p, "aaa").0, Some("aaa".to_string()));
    let mut s = empty::<char, String>();
    assert_eq!(s, "");
    Container::push(&mut s, 'x');
    Container::push(&mut s, 'é');
    assert_eq!(s, "xé");
}

#[test]
fn sets_drop_duplicates() {
    let expected: Vec<u64> = vec![1, 3];
    let out: HashSet<u64> = parse(&numbers(), &[3, 1, 3][..]).0.unwrap();
    assert_eq!(out, expected.iter().copied().collect());
    let out: BTreeSet<u64> = parse(&numbers(), &[3, 1, 3][..]).0.unwrap();
    assert_eq!(out.into_iter().collect::<Vec<u64>>(), expected);
    let out: HashSet<u64> = parse(&numbers(), &[][..]).0.unwrap();
    assert!(out.is_empty());
}

#[test]
fn maps_keep_the_last_value() {
    let out: HashMap<u64, u64> = parse(&pairs(), &[1, 10, 2, 20, 1, 11][..]).0.unwrap();
    assert_eq!(out.len(), 2);
    assert_eq!((out[&1], out[&2]), (11, 20));
    let out: BTreeMap<u64, u64> = parse(&pairs(), &[1, 10, 2, 20, 1, 11][..]).0.unwrap();
    assert_eq!(out.into_iter().collect::<Vec<_>>(), vec![(1, 11), (2, 20)]);
}

#[test]
fn int_set() {
    let mut set = IntSet::new();
    assert_eq!(set.len(), 0);
    assert!(!set.contains(3));
    set.insert(3);
    set.insert(3);
    set.insert(4);
    assert_eq!(set.len(), 2);
    assert!(set.contains(3) && set.contains(4) && !set.contains(5));

    let out: IntSet = parse(&numbers(), &[3, 1, 3][..]).0.unwrap();
    assert_eq!(out.len(), 2);
    assert!(out.contains(1) && out.contains(3) && !out.contains(2));
    let out: IntSet = parse(&numbers(), &[][..]).0.unwrap();
    assert_eq!(out.len(), 0);
    assert!(out.to_vec().is_empty());

    let mut values = set.to_vec();
    values.sort();
    assert_eq!(values, vec![3, 4]);
}

#[test]
fn int_map() {
    let mut map = IntMap::new();
    assert_eq!(map.len(), 0);
    assert_eq!(map.get(1), None);
    map.insert(1, 10);
    map.insert(2, 20);
    map.insert(1, 11);
    assert_eq!(map.len(), 2);
    assert_eq!((map.get(1), map.get(2), map.get(3)), (Some(11), Some(20), None));

    let out: IntMap = parse(&pairs(), &[1, 10, 2, 20, 1, 11][..]).0.unwrap();
    assert_eq!(out.len(), 2);
    assert_eq!((out.get(1), out.get(2), out.get(3)), (Some(11), Some(20), None));

    let mut keys = map.keys();
    keys.sort();
    assert_eq!(keys, vec![1, 2]);
    assert!(IntMap::new().keys().is_empty());
}

#[test]
fn separated_numbers_into_a_set() {
    let p: SeparatedBy<Any, Just<u64>, u64, u64, Numbers, BTreeSet<u64>, Simple<u64>, ()> =
        SeparatedBy::new(any(), just(0)).collect();
    let out = parse(&p, &[5, 0, 4, 0, 5][..]).0.unwrap();
    assert_eq!(out.into_iter().collect::<Vec<u64>>(), vec![4, 5]);
}

#[test]
fn defaults_are_empty() {
    assert_eq!(IntSet::default().len(), 0);
    assert_eq!(IntMap::default().len(), 0);
    assert_eq!(empty::<u64, IntSet>().len(), 0);
    assert!(empty::<u64, Vec<u64>>().is_empty());
    assert!(empty::<u64, HashSet<u64>>().is_empty());
    assert!(empty::<(u64, u64), BTreeMap<u64, u64>>().is_empty());
}

#[test]
fn array_buffer() {
    let mut buffer = <[u64; 2] as ContainerExactly<u64, 2>>::uninit();
    <[u64; 2] as ContainerExactly<u64, 2>>::write(&mut buffer, 0, 7);
    <[u64; 2] as ContainerExactly<u64, 2>>::write(&mut buffer, 1, 8);
    assert_eq!(<[u64; 2] as ContainerExactly<u64, 2>>::take(buffer), [7, 8]);

    let mut buffer = <[u64; 2] as ContainerExactly<u64, 2>>::uninit();
    <[u64; 2] as ContainerExactly<u64, 2>>::write(&mut buffer, 0, 7);
    <[u64; 2] as ContainerExactly<u64, 2>>::drop_before(&mut buffer, 1);
    assert!(buffer.is_empty());
}
