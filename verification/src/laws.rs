//! What holds of every parser, and of the combinators on every input.

use crate::choice::{Not, Or, Rewind};
use crate::container::{spec_collect, Container};
use crate::error::Error;
use crate::exact::{ContainerExactly, RepeatedExactly};
use crate::input::{Cursor, Input};
use crate::mode::{Check, Emit};
use crate::model::Modeled;
use crate::parser::{agrees, productive, Outcome, PResult, Parser};
use crate::primitive::{Any, Just};
use crate::repeat::{lemma_attempt, spec_attempt, spec_budget, Repeated, SeparatedBy};
use crate::sequence::Then;
use vstd::prelude::*;

verus! {

/// If nothing in a parser acts on the state only when the parser is run for
/// its output, a run to validate and a run for the output, from the same
/// cursor, end alike: they leave the cursor at the same place, in the same
/// state, both succeed or both fail, and they fail with the same error. They
/// differ in that only the second has an output.
pub proof fn law_mode_equivalence<I, O, E, S, P>(
    p: &P,
    start: Cursor<I, E, S>,
    checked: PResult<O, E>,
    after_check: Cursor<I, E, S>,
    emitted: PResult<O, E>,
    after_emit: Cursor<I, E, S>,
) where I: Input, O: Modeled, E: Error<I>, S: Modeled, P: Parser<I, O, E, S>
    requires
        p.wf(),
        start.wf(),
        p.mode_free(),
        after_check == p.spec_go(false, start).cursor,
        agrees::<Check, O, E>(checked, p.spec_go(false, start).result),
        after_emit == p.spec_go(true, start).cursor,
        agrees::<Emit, O, E>(emitted, p.spec_go(true, start).result),
    ensures
        after_check == after_emit,
        checked is Ok <==> emitted is Ok,
        checked is Err ==> checked->Err_0.model() == emitted->Err_0.model(),
        checked is Ok ==> checked->Ok_0 is None && emitted->Ok_0 is Some,
{
    p.lemma_modes(start);
}

/// A parser run again from the offset at which it was run before does what
/// it did before, if the first run has left the user's state as it was:
/// going back to an offset undoes the reading, and nothing else.
///
/// The second run has the result of the first, stops at the same offset and
/// leaves the same state. The errors that the first run recovered from, it
/// recovers from again.
pub proof fn law_rewind_exact<I, O, E, S, P>(p: &P, emit: bool, start: Cursor<I, E, S>) where
    I: Input,
    O: Modeled,
    E: Error<I>,
    S: Modeled,
    P: Parser<I, O, E, S>,

    requires
        p.wf(),
        start.wf(),
        p.spec_go(emit, start).cursor.state == start.state,
    ensures
        ({
            let first = p.spec_go(emit, start);
            let again = p.spec_go(emit, first.cursor.rewind(start.offset));
            &&& again.result == first.result
            &&& again.cursor.offset == first.cursor.offset
            &&& again.cursor.state == first.cursor.state
            &&& again.cursor.errors == first.cursor.errors + first.cursor.errors.skip(
                start.errors.len() as int,
            )
        }),
{
    let first = p.spec_go(emit, start);
    p.lemma_spec_go(emit, start);
    p.lemma_recovered(emit, start, first.cursor.errors);
    assert(first.cursor.rewind(start.offset) == start.with_errors(first.cursor.errors));
}

/// Where the first of two alternatives succeeds, the choice is the first
/// alternative's run: the second alternative is not run, and leaves no trace
/// in the user's state or among the recovered errors.
pub proof fn law_choice_bias<I, O, E, S, A, B>(
    choice: &Or<A, B, O>,
    emit: bool,
    c: Cursor<I, E, S>,
) where
    I: Input,
    O: Modeled,
    E: Error<I>,
    S: Modeled,
    A: Parser<I, O, E, S>,
    B: Parser<I, O, E, S>,

    requires
        choice.parser_a.spec_go(emit, c).result is Ok,
    ensures
        choice.spec_go(emit, c) == choice.parser_a.spec_go(emit, c),
{
}

/// A negative lookahead reads nothing, whether it succeeds or fails: it
/// leaves the cursor at the offset at which it started, and succeeds exactly
/// where the parser it looks ahead with fails.
pub proof fn law_not_reads_nothing<I, E, S, A, OA>(
    p: &Not<A, OA>,
    emit: bool,
    c: Cursor<I, E, S>,
) where
    I: Input,
    OA: Modeled,
    E: Error<I>,
    S: Modeled,
    A: Parser<I, OA, E, S>,

    ensures
        p.spec_go(emit, c).cursor.offset == c.offset,
        p.spec_go(emit, c).result is Ok <==> p.parser.spec_go(false, c).result is Err,
{
}

/// A lookahead that succeeds reads nothing: it leaves the cursor at the
/// offset at which it started, with the output of the parser it looks ahead
/// with.
pub proof fn law_rewind_reads_nothing<I, O, E, S, A>(
    p: &Rewind<A>,
    emit: bool,
    c: Cursor<I, E, S>,
) where
    I: Input,
    O: Modeled,
    E: Error<I>,
    S: Modeled,
    A: Parser<I, O, E, S>,

    requires
        Parser::<I, O, E, S>::spec_go(p, emit, c).result is Ok,
    ensures
        Parser::<I, O, E, S>::spec_go(p, emit, c).cursor.offset == c.offset,
        Parser::<I, O, E, S>::spec_go(p, emit, c).result == p.parser.spec_go(emit, c).result,
{
}

/// A vector collects exactly the items pushed, in order.
pub proof fn law_vec_collects<T: Modeled>(items: Seq<T::Model>)
    ensures
        spec_collect::<T, Vec<T>>(items) == items,
    decreases items.len(),
{
    if items.len() > 0 {
        law_vec_collects::<T>(items.drop_last());
        assert(items.drop_last().push(items.last()) =~= items);
    } else {
        assert(items =~= Seq::empty());
    }
}

/// The parser of any token reads a token whenever it succeeds, so that it
/// can be repeated without an upper bound.
pub proof fn law_any_reads<I: Input, E: Error<I>, S: Modeled>(p: &Any)
    ensures
        productive::<I, I::Token, E, S, Any>(p),
{
    assert forall|emit: bool, c: Cursor<I, E, S>|
        c.wf() && (#[trigger] Parser::<I, I::Token, E, S>::spec_go(p, emit, c)).result
            is Ok implies {
            Parser::<I, I::Token, E, S>::spec_go(p, emit, c).cursor.offset > c.offset
        } by {
        c.input.lemma_boundaries(c.offset);
    }
}

/// The parser of one token reads a token whenever it succeeds, so that it
/// can be repeated without an upper bound.
pub proof fn law_just_reads<I: Input, E: Error<I>, S: Modeled>(p: &Just<I::Token>)
    ensures
        productive::<I, I::Token, E, S, Just<I::Token>>(p),
{
    assert forall|emit: bool, c: Cursor<I, E, S>|
        c.wf() && (#[trigger] Parser::<I, I::Token, E, S>::spec_go(p, emit, c)).result
            is Ok implies {
            Parser::<I, I::Token, E, S>::spec_go(p, emit, c).cursor.offset > c.offset
        } by {
        c.input.lemma_boundaries(c.offset);
    }
}

/// A sequence reads a token whenever it succeeds if its first part does.
pub proof fn law_then_reads<I, E, S, A, B, OA, OB>(p: &Then<A, B, OA, OB, E, S>) where
    I: Input,
    OA: Modeled,
    OB: Modeled,
    E: Error<I>,
    S: Modeled,
    A: Parser<I, OA, E, S>,
    B: Parser<I, OB, E, S>,

    requires
        p.wf(),
        productive::<I, OA, E, S, A>(&p.parser_a),
    ensures
        productive::<I, (OA, OB), E, S, Then<A, B, OA, OB, E, S>>(p),
{
    assert forall|emit: bool, c: Cursor<I, E, S>|
        c.wf() && (#[trigger] p.spec_go(emit, c)).result is Ok implies {
            p.spec_go(emit, c).cursor.offset > c.offset
        } by {
        p.parser_a.lemma_spec_go(emit, c);
        p.parser_b.lemma_spec_go(emit, p.parser_a.spec_go(emit, c).cursor);
    }
}

/// The cursor after `i` runs of `p` in a row from `c`.
pub open spec fn spec_after<I, O, E, S, P>(p: &P, emit: bool, c: Cursor<I, E, S>, i: nat) -> Cursor<
    I,
    E,
    S,
> where I: Input, O: Modeled, E: Error<I>, S: Modeled, P: Parser<I, O, E, S>
    decreases i,
{
    if i == 0 {
        c
    } else {
        p.spec_go(emit, spec_after(p, emit, c, (i - 1) as nat)).cursor
    }
}

/// The outputs of the first `k` runs of `p` in a row from `c`.
pub open spec fn spec_outputs<I, O, E, S, P>(p: &P, emit: bool, c: Cursor<I, E, S>, k: nat) -> Seq<
    O::Model,
> where I: Input, O: Modeled, E: Error<I>, S: Modeled, P: Parser<I, O, E, S> {
    Seq::new(k, |i: int| p.spec_go(emit, spec_after(p, emit, c, i as nat)).result->Ok_0)
}

/// The input holds exactly `k` units from `c` on: `p` succeeds `k` times in
/// a row from `c`, and then fails.
pub open spec fn spec_units<I, O, E, S, P>(
    p: &P,
    emit: bool,
    c: Cursor<I, E, S>,
    k: nat,
) -> bool where
    I: Input,
    O: Modeled,
    E: Error<I>,
    S: Modeled,
    P: Parser<I, O, E, S>,
 {
    &&& forall|i: nat| i < k ==> p.spec_go(emit, #[trigger] spec_after(p, emit, c, i)).result is Ok
    &&& p.spec_go(emit, spec_after(p, emit, c, k)).result is Err
}

/// Runs in a row leave the cursor at a boundary of the same input.
pub proof fn lemma_after<I, O, E, S, P>(p: &P, emit: bool, c: Cursor<I, E, S>, i: nat) where
    I: Input,
    O: Modeled,
    E: Error<I>,
    S: Modeled,
    P: Parser<I, O, E, S>,

    requires
        p.wf(),
        c.wf(),
    ensures
        spec_after(p, emit, c, i).wf(),
        spec_after(p, emit, c, i).input == c.input,
        spec_after(p, emit, c, i).offset >= c.offset,
    decreases i,
{
    if i > 0 {
        lemma_after(p, emit, c, (i - 1) as nat);
        p.lemma_spec_go(emit, spec_after(p, emit, c, (i - 1) as nat));
    }
}

/// The smaller of `k` and the bound `at_most`, if there is one.
pub open spec fn spec_capped(k: nat, at_most: Option<usize>) -> nat {
    match at_most {
        Some(m) => if k < m {
            k
        } else {
            m as nat
        },
        None => k,
    }
}

/// Whether an input of `k` units holds as many as the repetition collects.
pub open spec fn spec_reaches(at_most: Option<usize>, k: nat) -> bool {
    at_most matches Some(m) && m <= k
}

/// What a repetition does from the cursor after `j` units, with their
/// outputs collected: see [`law_repeated_bounds`].
pub proof fn lemma_repeated_units<I, E, S, A, OA, C>(
    r: &Repeated<A, OA, I, C, E, S>,
    emit: bool,
    c: Cursor<I, E, S>,
    k: nat,
    j: nat,
) where
    I: Input,
    E: Error<I>,
    S: Modeled,
    OA: Modeled,
    A: Parser<I, OA, E, S>,
    C: Container<OA>,

    requires
        r.wf(),
        c.wf(),
        spec_units(&r.parser, emit, c, k),
        j <= k,
        r.at_most matches Some(m) ==> j <= m,
    ensures
        ({
            let ran = r.spec_rounds(
                emit,
                spec_after(&r.parser, emit, c, j),
                j,
                spec_collect::<OA, C>(spec_outputs(&r.parser, emit, c, j)),
            );
            let stop = spec_capped(k, r.at_most);
            &&& ran.result is Ok <==> r.at_least <= k || spec_reaches(r.at_most, k)
            &&& ran.cursor.offset == spec_after(&r.parser, emit, c, stop).offset
            &&& spec_reaches(r.at_most, k) ==> ran.cursor == spec_after(&r.parser, emit, c, stop)
            &&& ran.result is Ok ==> ran.result->Ok_0 == spec_collect::<OA, C>(
                spec_outputs(&r.parser, emit, c, stop),
            )
            &&& ran.result is Err ==> ran.result->Err_0 == r.parser.spec_go(
                emit,
                spec_after(&r.parser, emit, c, k),
            ).result->Err_0
        }),
    decreases k - j,
{
    let p = &r.parser;
    let here = spec_after(p, emit, c, j);
    lemma_after(p, emit, c, j);
    p.lemma_spec_go(emit, here);
    let item = p.spec_go(emit, here);
    if !r.spec_full(j) && j < k {
        assert(p.spec_go(emit, spec_after(p, emit, c, j)).result is Ok);
        assert(spec_after(p, emit, c, j + 1) == item.cursor);
        let outputs = spec_outputs(p, emit, c, j + 1);
        assert(outputs.drop_last() =~= spec_outputs(p, emit, c, j));
        assert(outputs.last() == item.result->Ok_0);
        here.input.lemma_boundaries(here.offset);
        item.cursor.input.lemma_boundaries(item.cursor.offset);
        lemma_repeated_units(r, emit, c, k, j + 1);
    }
}

/// On an input that holds exactly `k` units, a repetition of at least `n`
/// and at most `m` of them succeeds if and only if `n` is not above `k`, or
/// `m` is not: where `n` is not above `m`, as bounds are meant to be, if and
/// only if `n` is not above `k`.
///
/// If it succeeds, it has read `k` units or `m`, whichever is fewer, and
/// collected their outputs in order; with an upper bound of 0, that is
/// nothing. Where the input holds `m` units or more, the cursor is left as
/// the `m`th unit left it: the parser is not run again. If the repetition
/// fails, it fails with the error of the run that found no unit, and the
/// cursor is left at the offset at which that run began: after the `k`
/// units, which is where the repetition began only if `k` is 0.
pub proof fn law_repeated_bounds<I, E, S, A, OA, C>(
    r: &Repeated<A, OA, I, C, E, S>,
    emit: bool,
    c: Cursor<I, E, S>,
    k: nat,
) where
    I: Input,
    E: Error<I>,
    S: Modeled,
    OA: Modeled,
    A: Parser<I, OA, E, S>,
    C: Container<OA>,

    requires
        r.wf(),
        c.wf(),
        spec_units(&r.parser, emit, c, k),
    ensures
        r.spec_go(emit, c).result is Ok <==> r.at_least <= k || spec_reaches(r.at_most, k),
        r.spec_go(emit, c).result is Ok ==> r.spec_go(emit, c).cursor.offset == spec_after(
            &r.parser,
            emit,
            c,
            spec_capped(k, r.at_most),
        ).offset && r.spec_go(emit, c).result->Ok_0 == spec_collect::<OA, C>(
            spec_outputs(&r.parser, emit, c, spec_capped(k, r.at_most)),
        ),
        r.at_most is Some && r.at_most->0 <= k ==> r.spec_go(emit, c).cursor == spec_after(
            &r.parser,
            emit,
            c,
            r.at_most->0 as nat,
        ),
        r.at_most == Some(0usize) ==> r.spec_go(emit, c) == (Outcome {
            cursor: c,
            result: Ok(C::spec_empty()),
        }),
        r.spec_go(emit, c).result is Err ==> r.spec_go(emit, c).cursor.offset == spec_after(
            &r.parser,
            emit,
            c,
            k,
        ).offset && r.spec_go(emit, c).result->Err_0 == r.parser.spec_go(
            emit,
            spec_after(&r.parser, emit, c, k),
        ).result->Err_0,
{
    lemma_repeated_units(r, emit, c, k, 0);
    assert(spec_outputs(&r.parser, emit, c, 0) =~= Seq::empty());
}

/// What a repetition of exactly `N` does from the cursor after `j` units,
/// with their outputs collected: see [`law_exact_arity`].
pub proof fn lemma_exact_units<I, E, S, A, OA, C, const N: usize>(
    r: &RepeatedExactly<A, OA, C, N>,
    emit: bool,
    c: Cursor<I, E, S>,
    k: nat,
    j: nat,
) where
    I: Input,
    E: Error<I>,
    S: Modeled,
    OA: Modeled,
    A: Parser<I, OA, E, S>,
    C: ContainerExactly<OA, N>,

    requires
        r.wf(),
        c.wf(),
        spec_units(&r.parser, emit, c, k),
        j <= k,
        j < N,
    ensures
        ({
            let ran = r.spec_rounds(
                emit,
                spec_after(&r.parser, emit, c, j),
                spec_outputs(&r.parser, emit, c, j),
            );
            &&& ran.result is Ok <==> N <= k
            &&& ran.result is Ok ==> ran.cursor == spec_after(&r.parser, emit, c, N as nat)
                && ran.result->Ok_0 == C::spec_take(spec_outputs(&r.parser, emit, c, N as nat))
            &&& ran.result is Err ==> ran.cursor.offset == spec_after(&r.parser, emit, c, k).offset
                && ran.result->Err_0 == r.parser.spec_go(
                emit,
                spec_after(&r.parser, emit, c, k),
            ).result->Err_0
        }),
    decreases k - j,
{
    let p = &r.parser;
    let here = spec_after(p, emit, c, j);
    let item = p.spec_go(emit, here);
    if j < k {
        assert(p.spec_go(emit, spec_after(p, emit, c, j)).result is Ok);
        assert(spec_after(p, emit, c, j + 1) == item.cursor);
        assert(
            spec_outputs(p, emit, c, j + 1) =~= spec_outputs(p, emit, c, j).push(item.result->Ok_0)
        );
        if j + 1 < N {
            lemma_exact_units(r, emit, c, k, j + 1);
        }
    }
}

/// On an input that holds exactly `k` units, a repetition of exactly `N`
/// of them succeeds if and only if `N` is not above `k`.
///
/// If it succeeds, it has read `N` units and collected their outputs in
/// order. If it fails, which it does on every input that holds fewer than
/// `N` units, it fails with the error of the run that found no unit, and
/// hands out none of the outputs collected until then.
pub proof fn law_exact_arity<I, E, S, A, OA, C, const N: usize>(
    r: &RepeatedExactly<A, OA, C, N>,
    emit: bool,
    c: Cursor<I, E, S>,
    k: nat,
) where
    I: Input,
    E: Error<I>,
    S: Modeled,
    OA: Modeled,
    A: Parser<I, OA, E, S>,
    C: ContainerExactly<OA, N>,

    requires
        r.wf(),
        c.wf(),
        spec_units(&r.parser, emit, c, k),
    ensures
        r.spec_go(emit, c).result is Ok <==> N <= k,
        r.spec_go(emit, c).result is Ok ==> r.spec_go(emit, c).cursor == spec_after(
            &r.parser,
            emit,
            c,
            N as nat,
        )
            && r.spec_go(emit, c).result->Ok_0 == C::spec_take(
                spec_outputs(&r.parser, emit, c, N as nat),
            ),
        r.spec_go(emit, c).result is Err ==> r.spec_go(emit, c).cursor.offset == spec_after(
            &r.parser,
            emit,
            c,
            k,
        ).offset && r.spec_go(emit, c).result->Err_0 == r.parser.spec_go(
            emit,
            spec_after(&r.parser, emit, c, k),
        ).result->Err_0,
{
    lemma_exact_units(r, emit, c, k, 0);
    assert(spec_outputs(&r.parser, emit, c, 0) =~= Seq::empty());
}

impl<A, B, OA, OB, I, C, E, S> SeparatedBy<A, B, OA, OB, I, C, E, S> where
    I: Input,
    E: Error<I>,
    S: Modeled,
    OA: Modeled,
    OB: Modeled,
    A: Parser<I, OA, E, S>,
    B: Parser<I, OB, E, S>,
    C: Container<OA>,
 {
    /// Where the repetition looks for its first item, from `c`: at `c`, or,
    /// if it takes a leading separator, where the attempt to read one has
    /// left the cursor.
    pub open spec fn spec_start(&self, c: Cursor<I, E, S>) -> Cursor<I, E, S> {
        if self.allow_leading {
            spec_attempt(&self.separator, c)
        } else {
            c
        }
    }

    /// The cursor after `i` items, with separators between them, from `c`.
    pub open spec fn spec_after_items(&self, emit: bool, c: Cursor<I, E, S>, i: nat) -> Cursor<
        I,
        E,
        S,
    >
        decreases i,
    {
        if i <= 1 {
            self.parser.spec_go(emit, c).cursor
        } else {
            self.parser.spec_go(
                emit,
                self.separator.spec_go(
                    false,
                    self.spec_after_items(emit, c, (i - 1) as nat),
                ).cursor,
            ).cursor
        }
    }

    /// The output of item `i`, counted from 0, of the items from `c`.
    pub open spec fn spec_item(&self, emit: bool, c: Cursor<I, E, S>, i: nat) -> OA::Model {
        if i == 0 {
            self.parser.spec_go(emit, c).result->Ok_0
        } else {
            self.parser.spec_go(
                emit,
                self.separator.spec_go(false, self.spec_after_items(emit, c, i)).cursor,
            ).result->Ok_0
        }
    }

    /// The outputs of the first `n` items from `c`.
    pub open spec fn spec_items(&self, emit: bool, c: Cursor<I, E, S>, n: nat) -> Seq<OA::Model> {
        Seq::new(n, |i: int| self.spec_item(emit, c, i as nat))
    }

    /// The input holds `n` items with a separator between each two, from
    /// `c`: the item parser succeeds at `c`, and after each of the first
    /// `n - 1` items the separator succeeds, and after it the item parser.
    pub open spec fn spec_list(&self, emit: bool, c: Cursor<I, E, S>, n: nat) -> bool {
        &&& n >= 1
        &&& self.parser.spec_go(emit, c).result is Ok
        &&& forall|i: nat|
            1 <= i < n ==> {
                let sep = self.separator.spec_go(
                    false,
                    #[trigger] self.spec_after_items(emit, c, i),
                );
                sep.result is Ok && self.parser.spec_go(emit, sep.cursor).result is Ok
            }
    }

    /// No further item follows the `n`th: the separator fails after it, or
    /// the item parser fails after that separator.
    pub open spec fn spec_list_ends(&self, emit: bool, c: Cursor<I, E, S>, n: nat) -> bool {
        let sep = self.separator.spec_go(false, self.spec_after_items(emit, c, n));
        sep.result is Err || self.parser.spec_go(emit, sep.cursor).result is Err
    }

    /// Whether the repetition stops at the `n`th item for having reached
    /// its upper bound: then it looks no further.
    pub open spec fn spec_full_at(&self, n: nat) -> bool {
        n >= 2 && self.at_most == Some(n as usize)
    }

    /// Where the rounds end on a list of `n` items: after the `n`th item,
    /// the cursor back at the offset at which that item ended if anything
    /// was tried after it.
    pub open spec fn spec_rounds_end(&self, emit: bool, c: Cursor<I, E, S>, n: nat) -> Cursor<
        I,
        E,
        S,
    > {
        let last = self.spec_after_items(emit, c, n);
        let sep = self.separator.spec_go(false, last);
        if self.spec_full_at(n) {
            last
        } else if sep.result is Err {
            sep.cursor.rewind(last.offset)
        } else {
            self.parser.spec_go(emit, sep.cursor).cursor.rewind(last.offset)
        }
    }

    /// The items of a list leave the cursor at a boundary of the same input.
    pub proof fn lemma_after_items(&self, emit: bool, c: Cursor<I, E, S>, i: nat)
        requires
            self.parser.wf(),
            self.separator.wf(),
            c.wf(),
        ensures
            self.spec_after_items(emit, c, i).wf(),
            self.spec_after_items(emit, c, i).input == c.input,
        decreases i,
    {
        self.parser.lemma_spec_go(emit, c);
        if i > 1 {
            self.lemma_after_items(emit, c, (i - 1) as nat);
            let before = self.spec_after_items(emit, c, (i - 1) as nat);
            self.separator.lemma_spec_go(false, before);
            self.parser.lemma_spec_go(emit, self.separator.spec_go(false, before).cursor);
        }
    }

    /// What the rounds do from the cursor after `j` items of a list of `n`,
    /// with their outputs collected: see [`law_separated_by_round_trip`].
    pub proof fn lemma_rounds_on_list(&self, emit: bool, c: Cursor<I, E, S>, n: nat, j: nat)
        requires
            self.wf(),
            c.wf(),
            self.spec_list(emit, c, n),
            self.spec_full_at(n) || self.spec_list_ends(emit, c, n),
            self.at_least <= n,
            self.at_most matches Some(m) ==> n <= m,
            1 <= j <= n,
            j == n ==> !self.spec_full_at(n),
        ensures
            self.spec_rounds(
                emit,
                self.spec_after_items(emit, c, j),
                j,
                spec_collect::<OA, C>(self.spec_items(emit, c, j)),
            ) == self.spec_finish(
                self.spec_rounds_end(emit, c, n),
                spec_collect::<OA, C>(self.spec_items(emit, c, n)),
            ),
        decreases n - j,
    {
        let here = self.spec_after_items(emit, c, j);
        self.lemma_after_items(emit, c, j);
        self.separator.lemma_spec_go(false, here);
        let sep = self.separator.spec_go(false, here);
        self.parser.lemma_spec_go(emit, sep.cursor);
        let item = self.parser.spec_go(emit, sep.cursor);
        here.input.lemma_boundaries(here.offset);
        item.cursor.input.lemma_boundaries(item.cursor.offset);
        if j < n {
            assert(sep.result is Ok && item.result is Ok);
            assert(self.spec_after_items(emit, c, j + 1) == item.cursor);
            let items = self.spec_items(emit, c, j + 1);
            assert(items.drop_last() =~= self.spec_items(emit, c, j));
            assert(items.last() == item.result->Ok_0);
            if spec_budget(self.at_most, item.cursor, j + 1) < spec_budget(self.at_most, here, j)
                && !(self.at_most matches Some(m) && j + 1 >= m) {
                self.lemma_rounds_on_list(emit, c, n, j + 1);
            }
        }
    }
}

/// A list of `n` items with a separator between each two, and no further
/// item after it, is parsed whole by a repetition with separators whose
/// bounds allow `n` items: it succeeds with the outputs of exactly the `n`
/// items, in order.
///
/// The list begins where the repetition looks for its first item
/// ([`SeparatedBy::spec_start`]): at the cursor, if no leading separator is
/// taken or none is there, and after the leading separator otherwise.
///
/// If the repetition takes no trailing separator, it leaves the cursor at
/// the offset at which the last item ended: no separator is read after the
/// last item, and a separator that was read in search of a further item is
/// given back. If it takes a trailing separator, one separator is read
/// after the last item if there is one, and its absence is no error.
pub proof fn law_separated_by_round_trip<I, E, S, A, B, OA, OB, C>(
    list: &SeparatedBy<A, B, OA, OB, I, C, E, S>,
    emit: bool,
    c: Cursor<I, E, S>,
    n: nat,
) where
    I: Input,
    E: Error<I>,
    S: Modeled,
    OA: Modeled,
    OB: Modeled,
    A: Parser<I, OA, E, S>,
    B: Parser<I, OB, E, S>,
    C: Container<OA>,

    requires
        list.wf(),
        c.wf(),
        list.spec_list(emit, list.spec_start(c), n),
        list.spec_full_at(n) || list.spec_list_ends(emit, list.spec_start(c), n),
        list.at_least <= n,
        list.at_most matches Some(m) ==> n <= m,
    ensures
        !list.allow_leading ==> list.spec_start(c) == c,
        list.spec_start(c).offset >= c.offset,
        list.spec_go(emit, c).result is Ok,
        list.spec_go(emit, c).result->Ok_0 == spec_collect::<OA, C>(
            list.spec_items(emit, list.spec_start(c), n),
        ),
        !list.allow_trailing ==> list.spec_go(emit, c).cursor.offset == list.spec_after_items(
            emit,
            list.spec_start(c),
            n,
        ).offset,
        list.allow_trailing ==> list.spec_go(emit, c).cursor == spec_attempt(
            &list.separator,
            list.spec_rounds_end(emit, list.spec_start(c), n),
        ),
{
    let start = list.spec_start(c);
    lemma_attempt(&list.separator, c);
    list.lemma_rounds_on_list(emit, start, n, 1);
    let first = list.spec_items(emit, start, 1);
    assert(first.drop_last() =~= Seq::empty());
    assert(first.last() == list.parser.spec_go(emit, start).result->Ok_0);
    assert(spec_collect::<OA, C>(first.drop_last()) == C::spec_empty());
    assert(spec_collect::<OA, C>(first) == C::spec_push(
        C::spec_empty(),
        list.parser.spec_go(emit, start).result->Ok_0,
    ));
    assert(list.spec_after_items(emit, start, 1) == list.parser.spec_go(emit, start).cursor);
    list.lemma_after_items(emit, start, n);
    let last = list.spec_after_items(emit, start, n);
    list.separator.lemma_spec_go(false, last);
    list.parser.lemma_spec_go(emit, list.separator.spec_go(false, last).cursor);
}

} // verus!
