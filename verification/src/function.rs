//! What the functions that parsers are built from compute.
//!
//! A parser built from a function can only be described if the function is
//! one: defined on every argument, and with equal results on equal
//! arguments, both taken by their models. What such a function computes is
//! then a function of models. A combinator holds that function of models
//! beside the executable one, and its specification speaks of it alone.
//!
//! A function that acts on the user's state takes the state by reference,
//! as `&S`, and returns the new state beside its result: what it does to the
//! state is then part of what it computes.
//!
//! The function of models can be given when the combinator is made
//! (`with_model`). Where it is not (`new`), it is the one that this module
//! derives from the executable function's own contract.
//!
//! Verified code that builds a combinator from a closure does so in a
//! function that takes the closure as an argument of a generic type `F`
//! with a bound such as `F: Fn(char) -> bool`, and states in its `requires`
//! what the closure requires and ensures. The verifier then knows that
//! values of type `F` can be called, which it does not know of the type of a
//! closure written in place.

use crate::model::Modeled;
use vstd::prelude::*;

verus! {

/// Whether `f` can give a result whose model is `vb` on an argument whose
/// model is `va`.
pub open spec fn gives1<F: Fn(A) -> B, A: Modeled, B: Modeled>(
    f: F,
    va: A::Model,
    vb: B::Model,
) -> bool {
    exists|a: A, b: B| a.model() == va && #[trigger] call_ensures(f, (a,), b) && b.model() == vb
}

/// The model of what `f` gives on an argument whose model is `va`.
pub open spec fn model1<F: Fn(A) -> B, A: Modeled, B: Modeled>(f: F, va: A::Model) -> B::Model {
    choose|vb: B::Model| gives1::<F, A, B>(f, va, vb)
}

/// `f` is defined on every argument, and `m` gives its result's model from
/// its argument's model.
pub open spec fn computes1<F: Fn(A) -> B, A: Modeled, B: Modeled>(
    f: F,
    m: spec_fn(A::Model) -> B::Model,
) -> bool {
    &&& forall|a: A| call_requires(f, (a,))
    &&& forall|a: A, b: B| #[trigger] call_ensures(f, (a,), b) ==> b.model() == m(a.model())
}

/// Whether `f` can give a result whose model is `vc` on arguments whose
/// models are `va` and `vb`.
pub open spec fn gives2<F: Fn(A, B) -> C, A: Modeled, B: Modeled, C: Modeled>(
    f: F,
    va: A::Model,
    vb: B::Model,
    vc: C::Model,
) -> bool {
    exists|a: A, b: B, c: C|
        a.model() == va && b.model() == vb && #[trigger] call_ensures(f, (a, b), c) && c.model()
            == vc
}

/// The model of what `f` gives on arguments whose models are `va` and `vb`.
pub open spec fn model2<F: Fn(A, B) -> C, A: Modeled, B: Modeled, C: Modeled>(
    f: F,
    va: A::Model,
    vb: B::Model,
) -> C::Model {
    choose|vc: C::Model| gives2::<F, A, B, C>(f, va, vb, vc)
}

/// `f` is defined on all arguments, and `m` gives its result's model from
/// its arguments' models.
pub open spec fn computes2<F: Fn(A, B) -> C, A: Modeled, B: Modeled, C: Modeled>(
    f: F,
    m: spec_fn(A::Model, B::Model) -> C::Model,
) -> bool {
    &&& forall|a: A, b: B| call_requires(f, (a, b))
    &&& forall|a: A, b: B, c: C| #[trigger]
        call_ensures(f, (a, b), c) ==> c.model() == m(a.model(), b.model())
}

/// Whether `f` can give a result whose model is `vd` on arguments whose
/// models are `va`, `vb` and `vc`.
pub open spec fn gives3<F: Fn(A, B, C) -> D, A: Modeled, B: Modeled, C: Modeled, D: Modeled>(
    f: F,
    va: A::Model,
    vb: B::Model,
    vc: C::Model,
    vd: D::Model,
) -> bool {
    exists|a: A, b: B, c: C, d: D|
        a.model() == va && b.model() == vb && c.model() == vc && #[trigger] call_ensures(
            f,
            (a, b, c),
            d,
        ) && d.model() == vd
}

/// The model of what `f` gives on arguments whose models are `va`, `vb` and
/// `vc`.
pub open spec fn model3<F: Fn(A, B, C) -> D, A: Modeled, B: Modeled, C: Modeled, D: Modeled>(
    f: F,
    va: A::Model,
    vb: B::Model,
    vc: C::Model,
) -> D::Model {
    choose|vd: D::Model| gives3::<F, A, B, C, D>(f, va, vb, vc, vd)
}

/// `f` is defined on all arguments, and `m` gives its result's model from
/// its arguments' models.
pub open spec fn computes3<F: Fn(A, B, C) -> D, A: Modeled, B: Modeled, C: Modeled, D: Modeled>(
    f: F,
    m: spec_fn(A::Model, B::Model, C::Model) -> D::Model,
) -> bool {
    &&& forall|a: A, b: B, c: C| call_requires(f, (a, b, c))
    &&& forall|a: A, b: B, c: C, d: D| #[trigger]
        call_ensures(f, (a, b, c), d) ==> d.model() == m(a.model(), b.model(), c.model())
}

} // verus!
