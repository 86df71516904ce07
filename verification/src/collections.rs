//! The collections of the standard library and of `hashbrown` as what a
//! repetition collects into.
//!
//! A `String` collects characters. The sets and maps collect integers: the
//! sets of the standard library hold `u64` values, its maps have `u64` keys
//! and values of any kind, and the set and the map of `hashbrown`
//! ([`IntSet`], [`IntMap`]) hold `u64` keys and `u64` values. Sets and maps
//! with keys of another kind are not among them.

use crate::container::Container;
use crate::model::Modeled;
use std::collections::{BTreeMap, BTreeSet, HashMap, HashSet};
use vstd::prelude::*;

verus! {

/// Trusted: `String::push` of the standard library appends the character
/// to the end of the string.
#[verifier::external_body]
fn string_push(s: &mut String, c: char)
    ensures
        final(s)@ == old(s)@.push(c),
{
    s.push(c)
}

impl Container<char> for String {
    open spec fn spec_empty() -> Seq<char> {
        Seq::empty()
    }

    open spec fn spec_push(c: Seq<char>, item: char) -> Seq<char> {
        c.push(item)
    }

    proof fn lemma_default(c: String) {
    }

    fn push(&mut self, item: char) {
        string_push(self, item);
    }
}

impl Modeled for HashSet<u64> {
    type Model = Set<u64>;

    open spec fn model(&self) -> Set<u64> {
        self@
    }
}

impl Container<u64> for HashSet<u64> {
    open spec fn spec_empty() -> Set<u64> {
        Set::empty()
    }

    open spec fn spec_push(c: Set<u64>, item: u64) -> Set<u64> {
        c.insert(item)
    }

    proof fn lemma_default(c: HashSet<u64>) {
    }

    fn push(&mut self, item: u64) {
        self.insert(item);
    }
}

impl Modeled for BTreeSet<u64> {
    type Model = Set<u64>;

    open spec fn model(&self) -> Set<u64> {
        self@
    }
}

impl Container<u64> for BTreeSet<u64> {
    open spec fn spec_empty() -> Set<u64> {
        Set::empty()
    }

    open spec fn spec_push(c: Set<u64>, item: u64) -> Set<u64> {
        c.insert(item)
    }

    proof fn lemma_default(c: BTreeSet<u64>) {
    }

    fn push(&mut self, item: u64) {
        self.insert(item);
    }
}

/// The map that takes each key of `m` to the model of its value.
pub open spec fn value_models<V: Modeled>(m: Map<u64, V>) -> Map<u64, V::Model> {
    Map::new(|k: u64| m.contains_key(k), |k: u64| m[k].model())
}

impl<V: Modeled> Modeled for HashMap<u64, V> {
    type Model = Map<u64, V::Model>;

    open spec fn model(&self) -> Map<u64, V::Model> {
        value_models(self@)
    }
}

impl<V: Modeled> Container<(u64, V)> for HashMap<u64, V> {
    open spec fn spec_empty() -> Map<u64, V::Model> {
        Map::empty()
    }

    open spec fn spec_push(c: Map<u64, V::Model>, item: (u64, V::Model)) -> Map<u64, V::Model> {
        c.insert(item.0, item.1)
    }

    proof fn lemma_default(c: HashMap<u64, V>) {
        assert(value_models::<V>(c@) =~= Map::empty());
    }

    fn push(&mut self, item: (u64, V)) {
        let (key, value) = item;
        self.insert(key, value);
        assert(value_models(self@) =~= value_models(old(self)@).insert(key, value.model()));
    }
}

impl<V: Modeled> Modeled for BTreeMap<u64, V> {
    type Model = Map<u64, V::Model>;

    open spec fn model(&self) -> Map<u64, V::Model> {
        value_models(self@)
    }
}

impl<V: Modeled> Container<(u64, V)> for BTreeMap<u64, V> {
    open spec fn spec_empty() -> Map<u64, V::Model> {
        Map::empty()
    }

    open spec fn spec_push(c: Map<u64, V::Model>, item: (u64, V::Model)) -> Map<u64, V::Model> {
        c.insert(item.0, item.1)
    }

    proof fn lemma_default(c: BTreeMap<u64, V>) {
        assert(value_models::<V>(c@) =~= Map::empty());
    }

    fn push(&mut self, item: (u64, V)) {
        let (key, value) = item;
        self.insert(key, value);
        assert(value_models(self@) =~= value_models(old(self)@).insert(key, value.model()));
    }
}

/// A set of `u64` values, kept in a `hashbrown::HashSet`.
#[verifier::external_body]
pub struct IntSet {
    inner: hashbrown::HashSet<u64>,
}

/// A map from `u64` keys to `u64` values, kept in a `hashbrown::HashMap`.
#[verifier::external_body]
pub struct IntMap {
    inner: hashbrown::HashMap<u64, u64>,
}

/// The values that a set holds.
pub uninterp spec fn set_items(s: IntSet) -> Set<u64>;

/// The keys of a map, each with its value.
pub uninterp spec fn map_items(m: IntMap) -> Map<u64, u64>;

/// The map of integers that holds nothing.
pub open spec fn no_entries() -> Map<u64, u64> {
    Map::empty()
}

/// Trusted: `hashbrown::HashSet::new` makes a set that holds nothing.
#[verifier::external_body]
fn set_new() -> (s: IntSet)
    ensures
        set_items(s) == Set::<u64>::empty(),
{
    IntSet { inner: hashbrown::HashSet::new() }
}

/// Trusted: `hashbrown::HashSet::insert` adds the value to the set, which
/// holds it once whether or not it held it before, and leaves the other
/// values as they were.
#[verifier::external_body]
fn set_insert(s: &mut IntSet, item: u64)
    ensures
        set_items(*final(s)) == set_items(*old(s)).insert(item),
{
    s.inner.insert(item);
}

/// Trusted: `hashbrown::HashSet::contains` says whether the set holds a
/// value equal to the one given.
#[verifier::external_body]
fn set_contains(s: &IntSet, item: u64) -> (b: bool)
    ensures
        b == set_items(*s).contains(item),
{
    s.inner.contains(&item)
}

/// Trusted: `hashbrown::HashSet::len` gives the number of values in the
/// set.
#[verifier::external_body]
fn set_len(s: &IntSet) -> (n: usize)
    ensures
        n == set_items(*s).len(),
{
    s.inner.len()
}

/// Trusted: `hashbrown::HashSet::iter` visits each value of the set once,
/// in an order that it does not promise.
#[verifier::external_body]
fn set_to_vec(s: &IntSet) -> (v: Vec<u64>)
    ensures
        v@.to_set() == set_items(*s),
        v@.no_duplicates(),
{
    s.inner.iter().copied().collect()
}

impl IntSet {
    /// The values of the set, each once, in no particular order.
    pub fn to_vec(&self) -> (v: Vec<u64>)
        ensures
            v@.to_set() == self.model(),
            v@.no_duplicates(),
    {
        set_to_vec(self)
    }

    /// A set that holds nothing.
    pub fn new() -> (s: IntSet)
        ensures
            s.model() == Set::<u64>::empty(),
    {
        set_new()
    }

    /// Adds a value to the set.
    pub fn insert(&mut self, item: u64)
        ensures
            final(self).model() == old(self).model().insert(item),
    {
        set_insert(self, item);
    }

    /// Whether the set holds the value.
    pub fn contains(&self, item: u64) -> (b: bool)
        ensures
            b == self.model().contains(item),
    {
        set_contains(self, item)
    }

    /// How many values the set holds.
    pub fn len(&self) -> (n: usize)
        ensures
            n == self.model().len(),
    {
        set_len(self)
    }
}

/// Trusted: `hashbrown::HashMap::new` makes a map that holds nothing.
#[verifier::external_body]
fn map_new() -> (m: IntMap)
    ensures
        map_items(m) == no_entries(),
{
    IntMap { inner: hashbrown::HashMap::new() }
}

/// Trusted: `hashbrown::HashMap::insert` sets the value of the key, in
/// place of the value that the key had if it had one, and leaves the other
/// keys as they were.
#[verifier::external_body]
fn map_insert(m: &mut IntMap, key: u64, value: u64)
    ensures
        map_items(*final(m)) == map_items(*old(m)).insert(key, value),
{
    m.inner.insert(key, value);
}

/// Trusted: `hashbrown::HashMap::get` gives the value of the key if the map
/// holds the key, and nothing if it does not.
#[verifier::external_body]
fn map_get(m: &IntMap, key: u64) -> (v: Option<u64>)
    ensures
        v is Some <==> map_items(*m).contains_key(key),
        v is Some ==> v->0 == map_items(*m)[key],
{
    m.inner.get(&key).copied()
}

/// Trusted: `hashbrown::HashMap::len` gives the number of keys in the map.
#[verifier::external_body]
fn map_len(m: &IntMap) -> (n: usize)
    ensures
        n == map_items(*m).len(),
{
    m.inner.len()
}

/// Trusted: `hashbrown::HashMap::keys` visits each key of the map once, in
/// an order that it does not promise.
#[verifier::external_body]
fn map_keys(m: &IntMap) -> (v: Vec<u64>)
    ensures
        v@.to_set() == map_items(*m).dom(),
        v@.no_duplicates(),
{
    m.inner.keys().copied().collect()
}

impl IntMap {
    /// The keys of the map, each once, in no particular order.
    pub fn keys(&self) -> (v: Vec<u64>)
        ensures
            v@.to_set() == self.model().dom(),
            v@.no_duplicates(),
    {
        map_keys(self)
    }

    /// A map that holds nothing.
    pub fn new() -> (m: IntMap)
        ensures
            m.model() == no_entries(),
    {
        map_new()
    }

    /// Sets the value of a key.
    pub fn insert(&mut self, key: u64, value: u64)
        ensures
            final(self).model() == old(self).model().insert(key, value),
    {
        map_insert(self, key, value);
    }

    /// The value of a key, if it has one.
    pub fn get(&self, key: u64) -> (v: Option<u64>)
        ensures
            v is Some <==> self.model().contains_key(key),
            v is Some ==> v->0 == self.model()[key],
    {
        map_get(self, key)
    }

    /// How many keys the map holds.
    pub fn len(&self) -> (n: usize)
        ensures
            n == self.model().len(),
    {
        map_len(self)
    }
}

impl Default for IntSet {
    fn default() -> (s: IntSet)
        ensures
            s.model() == Set::<u64>::empty(),
    {
        IntSet::new()
    }
}

impl Default for IntMap {
    fn default() -> (m: IntMap)
        ensures
            m.model() == no_entries(),
    {
        IntMap::new()
    }
}

impl Modeled for IntSet {
    type Model = Set<u64>;

    open spec fn model(&self) -> Set<u64> {
        set_items(*self)
    }
}

impl Container<u64> for IntSet {
    open spec fn spec_empty() -> Set<u64> {
        Set::empty()
    }

    open spec fn spec_push(c: Set<u64>, item: u64) -> Set<u64> {
        c.insert(item)
    }

    proof fn lemma_default(c: IntSet) {
    }

    fn push(&mut self, item: u64) {
        self.insert(item);
    }
}

impl Modeled for IntMap {
    type Model = Map<u64, u64>;

    open spec fn model(&self) -> Map<u64, u64> {
        map_items(*self)
    }
}

impl Container<(u64, u64)> for IntMap {
    open spec fn spec_empty() -> Map<u64, u64> {
        Map::empty()
    }

    open spec fn spec_push(c: Map<u64, u64>, item: (u64, u64)) -> Map<u64, u64> {
        c.insert(item.0, item.1)
    }

    proof fn lemma_default(c: IntMap) {
    }

    fn push(&mut self, item: (u64, u64)) {
        self.insert(item.0, item.1);
    }
}

} // verus!
