//! Mathematical models of the values that parsers handle.
//!
//! Contracts in this crate never compare executable values directly: two
//! vectors with the same elements are not known to be the same value. They
//! compare models instead. A token, an output, an error and a user state each
//! have a model, and every specification is a function of models.

use vstd::prelude::*;

verus! {

/// A type whose values stand for a mathematical value, its model.
pub trait Modeled {
    /// The mathematical value that an executable value stands for.
    type Model;

    /// The model of this value.
    spec fn model(&self) -> Self::Model;
}

impl Modeled for () {
    type Model = ();

    open spec fn model(&self) -> () {
        ()
    }
}

impl Modeled for bool {
    type Model = bool;

    open spec fn model(&self) -> bool {
        *self
    }
}

impl Modeled for char {
    type Model = char;

    open spec fn model(&self) -> char {
        *self
    }
}

impl Modeled for u8 {
    type Model = u8;

    open spec fn model(&self) -> u8 {
        *self
    }
}

impl Modeled for u16 {
    type Model = u16;

    open spec fn model(&self) -> u16 {
        *self
    }
}

impl Modeled for u32 {
    type Model = u32;

    open spec fn model(&self) -> u32 {
        *self
    }
}

impl Modeled for u64 {
    type Model = u64;

    open spec fn model(&self) -> u64 {
        *self
    }
}

impl Modeled for usize {
    type Model = usize;

    open spec fn model(&self) -> usize {
        *self
    }
}

impl Modeled for i32 {
    type Model = i32;

    open spec fn model(&self) -> i32 {
        *self
    }
}

impl Modeled for i64 {
    type Model = i64;

    open spec fn model(&self) -> i64 {
        *self
    }
}

impl<'a, T: Modeled> Modeled for &'a T {
    type Model = T::Model;

    open spec fn model(&self) -> T::Model {
        (**self).model()
    }
}

impl<'a> Modeled for &'a str {
    type Model = Seq<char>;

    open spec fn model(&self) -> Seq<char> {
        self@
    }
}

impl Modeled for String {
    type Model = Seq<char>;

    open spec fn model(&self) -> Seq<char> {
        self@
    }
}

impl<A: Modeled, B: Modeled> Modeled for (A, B) {
    type Model = (A::Model, B::Model);

    open spec fn model(&self) -> (A::Model, B::Model) {
        (self.0.model(), self.1.model())
    }
}

impl<A: Modeled, B: Modeled, C: Modeled> Modeled for (A, B, C) {
    type Model = (A::Model, B::Model, C::Model);

    open spec fn model(&self) -> (A::Model, B::Model, C::Model) {
        (self.0.model(), self.1.model(), self.2.model())
    }
}

impl<T: Modeled> Modeled for Option<T> {
    type Model = Option<T::Model>;

    open spec fn model(&self) -> Option<T::Model> {
        match self {
            Some(t) => Some(t.model()),
            None => None,
        }
    }
}

impl<T: Modeled, U: Modeled> Modeled for Result<T, U> {
    type Model = Result<T::Model, U::Model>;

    open spec fn model(&self) -> Result<T::Model, U::Model> {
        match self {
            Ok(t) => Ok(t.model()),
            Err(u) => Err(u.model()),
        }
    }
}

/// The models of the elements of a sequence, in order.
pub open spec fn models<T: Modeled>(s: Seq<T>) -> Seq<T::Model> {
    Seq::new(s.len(), |i: int| s[i].model())
}

impl<T: Modeled> Modeled for Vec<T> {
    type Model = Seq<T::Model>;

    open spec fn model(&self) -> Seq<T::Model> {
        models(self@)
    }
}

impl<'a, T: Modeled> Modeled for &'a [T] {
    type Model = Seq<T::Model>;

    open spec fn model(&self) -> Seq<T::Model> {
        models(self@)
    }
}

impl<T: Modeled, const N: usize> Modeled for [T; N] {
    type Model = Seq<T::Model>;

    open spec fn model(&self) -> Seq<T::Model> {
        models(self@)
    }
}

/// Appending one element appends its model.
pub proof fn lemma_models_push<T: Modeled>(s: Seq<T>, t: T)
    ensures
        models(s.push(t)) == models(s).push(t.model()),
{
    assert(models(s.push(t)) =~= models(s).push(t.model()));
}

/// The empty sequence has the empty sequence of models.
pub proof fn lemma_models_empty<T: Modeled>()
    ensures
        models(Seq::<T>::empty()) == Seq::<T::Model>::empty(),
{
    assert(models(Seq::<T>::empty()) =~= Seq::<T::Model>::empty());
}

} // verus!
