//! What a repetition collects its items into.

use crate::model::{lemma_models_empty, lemma_models_push, Modeled};
use vstd::prelude::*;

verus! {

/// A collection that starts out empty, as its default, and grows by one
/// item at a time.
///
/// What pushing means is up to the collection: a vector appends, a set
/// inserts, `()` keeps nothing.
pub trait Container<T: Modeled>: Modeled + Default + Sized {
    /// The model of the empty collection.
    spec fn spec_empty() -> Self::Model;

    /// The model of the collection `c` after `item` has been pushed.
    spec fn spec_push(c: Self::Model, item: T::Model) -> Self::Model;

    /// The default collection is the empty one.
    proof fn lemma_default(c: Self)
        requires
            call_ensures(<Self as Default>::default, (), c),
        ensures
            c.model() == Self::spec_empty(),
    ;

    /// Pushes one item.
    fn push(&mut self, item: T)
        ensures
            final(self).model() == Self::spec_push(old(self).model(), item.model()),
    ;
}

/// The empty collection.
pub fn empty<T: Modeled, C: Container<T>>() -> (c: C)
    ensures
        c.model() == C::spec_empty(),
{
    let c = C::default();
    proof {
        C::lemma_default(c);
    }
    c
}

/// The model of the collection that holds `items`, pushed in order.
pub open spec fn spec_collect<T: Modeled, C: Container<T>>(items: Seq<T::Model>) -> C::Model
    decreases items.len(),
{
    if items.len() == 0 {
        C::spec_empty()
    } else {
        C::spec_push(spec_collect::<T, C>(items.drop_last()), items.last())
    }
}

impl<T: Modeled> Container<T> for () {
    open spec fn spec_empty() -> () {
        ()
    }

    open spec fn spec_push(c: (), item: T::Model) -> () {
        ()
    }

    proof fn lemma_default(c: ()) {
    }

    fn push(&mut self, item: T) {
    }
}

impl<T: Modeled> Container<T> for Vec<T> {
    open spec fn spec_empty() -> Seq<T::Model> {
        Seq::empty()
    }

    open spec fn spec_push(c: Seq<T::Model>, item: T::Model) -> Seq<T::Model> {
        c.push(item)
    }

    proof fn lemma_default(c: Vec<T>) {
        lemma_models_empty::<T>();
    }

    fn push(&mut self, item: T) {
        proof {
            lemma_models_push(self@, item);
        }
        Vec::push(self, item);
    }
}

} // verus!
