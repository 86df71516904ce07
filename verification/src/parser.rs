//! What a parser is.

use crate::error::{Error, Located};
use crate::input::{Cursor, Input, InputRef};
use crate::mode::{Emit, Mode};
use crate::model::{lemma_models_push, Modeled};
use crate::primitive::unexpected;
use vstd::prelude::*;

verus! {

/// What a run of a parser hands back: its output, present exactly when the
/// mode emits, or the error it failed with.
pub type PResult<O, E> = Result<Option<O>, Located<E>>;

/// What a run of a parser comes to: where the cursor is left, and the model
/// of the output or of the error.
pub struct Outcome<I, V, E: Modeled, S: Modeled> {
    /// The cursor after the run.
    pub cursor: Cursor<I, E, S>,
    /// The model of the output, or of the error.
    pub result: Result<V, Located<E::Model>>,
}

/// Whether `after` is `before` with more at its end.
pub open spec fn grown<A>(before: Seq<A>, after: Seq<A>) -> bool {
    before.len() <= after.len() && after.take(before.len() as int) == before
}

/// Whether two cursors differ only in the errors recovered from before
/// them: `a` is where a run has come to that started with the recovered
/// errors `before_a`, and `b` where a run has come to that started with
/// `before_b`. They are at the same place in the same state, and both runs
/// have added the same errors to those they started with.
pub open spec fn alike_cursors<I, E: Modeled, S: Modeled>(
    a: Cursor<I, E, S>,
    before_a: Seq<E::Model>,
    b: Cursor<I, E, S>,
    before_b: Seq<E::Model>,
) -> bool {
    &&& a.input == b.input
    &&& a.offset == b.offset
    &&& a.state == b.state
    &&& grown(before_a, a.errors)
    &&& b.errors == before_b + a.errors.skip(before_a.len() as int)
}

/// Whether two runs differ only in the errors recovered from before them:
/// they have the same result, and leave cursors that are alike.
pub open spec fn alike<I, V, E: Modeled, S: Modeled>(
    a: Outcome<I, V, E, S>,
    before_a: Seq<E::Model>,
    b: Outcome<I, V, E, S>,
    before_b: Seq<E::Model>,
) -> bool {
    a.result == b.result && alike_cursors(a.cursor, before_a, b.cursor, before_b)
}

/// A cursor is like itself with other recovered errors.
pub proof fn lemma_alike_still<I: Input, E: Modeled, S: Modeled>(
    c: Cursor<I, E, S>,
    errors: Seq<E::Model>,
)
    ensures
        alike_cursors(c, c.errors, c.with_errors(errors), errors),
{
    assert(c.errors.take(c.errors.len() as int) =~= c.errors);
    assert(errors + c.errors.skip(c.errors.len() as int) =~= errors);
}

/// Cursors that are alike stay alike when their runs go on alike.
pub proof fn lemma_alike_chain<I, E: Modeled, S: Modeled>(
    a: Cursor<I, E, S>,
    before_a: Seq<E::Model>,
    b: Cursor<I, E, S>,
    before_b: Seq<E::Model>,
    a2: Cursor<I, E, S>,
    b2: Cursor<I, E, S>,
)
    requires
        alike_cursors(a, before_a, b, before_b),
        alike_cursors(a2, a.errors, b2, b.errors),
    ensures
        alike_cursors(a2, before_a, b2, before_b),
{
    let n = before_a.len() as int;
    let m = a.errors.len() as int;
    assert(a2.errors.take(n) =~= a2.errors.take(m).take(n));
    assert(a2.errors.skip(n) =~= a.errors.skip(n) + a2.errors.skip(m)) by {
        assert(a2.errors =~= a2.errors.take(m) + a2.errors.skip(m));
    }
    assert(b2.errors =~= before_b + a2.errors.skip(n));
}

/// Cursors that are alike stay alike when the same error is recovered from
/// at both.
pub proof fn lemma_alike_emit<I: Input, E: Modeled, S: Modeled>(
    a: Cursor<I, E, S>,
    before_a: Seq<E::Model>,
    b: Cursor<I, E, S>,
    before_b: Seq<E::Model>,
    e: E::Model,
)
    requires
        alike_cursors(a, before_a, b, before_b),
    ensures
        alike_cursors(a.emit(e), before_a, b.emit(e), before_b),
{
    let n = before_a.len() as int;
    assert(a.emit(e).errors.take(n) =~= a.errors.take(n));
    assert(a.emit(e).errors.skip(n) =~= a.errors.skip(n).push(e));
    assert(b.emit(e).errors =~= before_b + a.emit(e).errors.skip(n));
}

/// Whether the result `r` of a run in mode `M` is the one that `spec` calls
/// for: it succeeds or fails as `spec` does, with the same error, and with the
/// same output where the mode emits one.
pub open spec fn agrees<M: Mode, O: Modeled, E: Modeled>(
    r: PResult<O, E>,
    spec: Result<O::Model, Located<E::Model>>,
) -> bool {
    match r {
        Ok(out) => {
            &&& spec is Ok
            &&& out is Some <==> M::emits()
            &&& out is Some ==> out->0.model() == spec->Ok_0
        },
        Err(e) => spec is Err && e.model() == spec->Err_0,
    }
}

/// A parser of inputs `I` with outputs `O`, errors `E` and user state `S`.
///
/// A parser is a description: running it changes the input handle and
/// nothing else, so that it can be run again, on this input or another.
/// What a run does is a function, [`Parser::spec_go`], of where the run
/// starts.
pub trait Parser<I: Input, O: Modeled, E: Error<I>, S: Modeled> {
    /// Whether the parser can be run: the functions it was built from are
    /// defined on every argument and give equal results on equal arguments,
    /// and a repetition cannot go on forever.
    spec fn wf(&self) -> bool;

    /// What a run from the cursor `c` comes to, for its output if `emit`
    /// holds, and only to validate the input if not.
    spec fn spec_go(&self, emit: bool, c: Cursor<I, E, S>) -> Outcome<I, O::Model, E, S>;

    /// A run leaves the cursor at a boundary of the same input, and not before
    /// the offset at which it started.
    proof fn lemma_spec_go(&self, emit: bool, c: Cursor<I, E, S>)
        requires
            self.wf(),
            c.wf(),
        ensures
            self.spec_go(emit, c).cursor.wf(),
            self.spec_go(emit, c).cursor.input == c.input,
            self.spec_go(emit, c).cursor.offset >= c.offset,
    ;

    /// A run does not depend on the errors that were recovered from before
    /// it: it only adds to them, and with other errors before it, it would
    /// end alike and add the same.
    proof fn lemma_recovered(&self, emit: bool, c: Cursor<I, E, S>, errors: Seq<E::Model>)
        requires
            self.wf(),
            c.wf(),
        ensures
            alike(
                self.spec_go(emit, c),
                c.errors,
                self.spec_go(emit, c.with_errors(errors)),
                errors,
            ),
    ;

    /// Whether a run to validate and a run for the output are the same run,
    /// but for the output: whether nothing in the parser acts on the state
    /// only when it is run for its output.
    spec fn mode_free(&self) -> bool;

    /// If nothing in the parser acts on the state only when it is run for
    /// its output, a run to validate and a run for the output come to the
    /// same.
    proof fn lemma_modes(&self, c: Cursor<I, E, S>)
        requires
            self.wf(),
            c.wf(),
            self.mode_free(),
        ensures
            self.spec_go(true, c) == self.spec_go(false, c),
    ;

    /// Runs the parser in mode `M`.
    ///
    /// The run leaves the input handle where `spec_go` says for the mode, and
    /// succeeds or fails as `spec_go` says for the mode. A run in the mode
    /// [`Check`](crate::mode::Check) hands back no output, and a run in the
    /// mode [`Emit`] hands back the output that `spec_go` says.
    fn go<M: Mode>(&self, inp: &mut InputRef<I, E, S>) -> (r: PResult<O, E>)
        requires
            self.wf(),
            old(inp).wf(),
        ensures
            final(inp).wf(),
            final(inp)@ == self.spec_go(M::emits(), old(inp)@).cursor,
            agrees::<M, O, E>(r, self.spec_go(M::emits(), old(inp)@).result),
    ;
}

/// What parsing all of `input` with `p` gives, from the state `state`: the
/// output if there is one, the errors, and the state at the end.
pub open spec fn spec_parse<I: Input, O: Modeled, E: Error<I>, S: Modeled, P: Parser<I, O, E, S>>(
    p: &P,
    input: I,
    state: S::Model,
) -> (Option<O::Model>, Seq<E::Model>, S::Model) {
    let ran = p.spec_go(true, Cursor { input, offset: 0, state, errors: Seq::empty() });
    match ran.result {
        Ok(v) => if ran.cursor.at_end() {
            (Some(v), ran.cursor.errors, ran.cursor.state)
        } else {
            (
                None,
                ran.cursor.errors.push(unexpected(ran.cursor, seq![None]).err),
                ran.cursor.state,
            )
        },
        Err(e) => (None, ran.cursor.errors.push(e.err), ran.cursor.state),
    }
}

/// Parses all of `input` with `parser`, starting in the state `state`.
/// Gives the output if there is one, the errors, and the state at the end.
///
/// There is an output if the parser succeeds and has then read all of the
/// input. The errors are those that were recovered from, followed, if there
/// is no output, by the error that the parser failed with or by an error for
/// the token found where the input should have ended.
pub fn parse_with_state<I: Input, O: Modeled, E: Error<I>, S: Modeled, P: Parser<I, O, E, S>>(
    parser: &P,
    input: I,
    state: S,
) -> (r: (Option<O>, Vec<E>, S))
    requires
        parser.wf(),
    ensures
        (r.0.model(), r.1.model(), r.2.model()) == spec_parse(parser, input, state.model()),
{
    let mut inp = InputRef::new(input, state);
    let res = parser.go::<Emit>(&mut inp);
    let failure = match res {
        Ok(out) => {
            let before = inp.save();
            let (at, tok) = inp.next();
            match tok {
                None => {
                    let (state, errors) = inp.finish();
                    return (out, errors, state);
                },
                Some(t) => {
                    let span = inp.span_since(before);
                    let expected: Vec<Option<I::Token>> = vec![None];
                    proof {
                        assert(expected.model() =~= seq![None]);
                    }
                    E::expected_found(expected, Some(t), span)
                },
            }
        },
        Err(e) => e.err,
    };
    let (state, errors) = inp.finish();
    let mut errors = errors;
    proof {
        lemma_models_push(errors@, failure);
    }
    errors.push(failure);
    (None, errors, state)
}

/// Parses all of `input` with `parser`, which keeps no state. Gives the
/// output if there is one, and the errors, as [`parse_with_state`] does.
pub fn parse<I: Input, O: Modeled, E: Error<I>, P: Parser<I, O, E, ()>>(parser: &P, input: I) -> (r:
    (Option<O>, Vec<E>))
    requires
        parser.wf(),
    ensures
        r.0.model() == spec_parse(parser, input, ()).0,
        r.1.model() == spec_parse(parser, input, ()).1,
{
    let (output, errors, _) = parse_with_state(parser, input, ());
    (output, errors)
}

/// Runs of a parser from cursors that are alike are alike.
pub proof fn lemma_recovered_after<I, O, E, S, P>(
    p: &P,
    emit: bool,
    at: Cursor<I, E, S>,
    before: Seq<E::Model>,
    at2: Cursor<I, E, S>,
    before2: Seq<E::Model>,
) where I: Input, O: Modeled, E: Error<I>, S: Modeled, P: Parser<I, O, E, S>
    requires
        p.wf(),
        at.wf(),
        alike_cursors(at, before, at2, before2),
    ensures
        alike(p.spec_go(emit, at), before, p.spec_go(emit, at2), before2),
{
    p.lemma_recovered(emit, at, at2.errors);
    assert(at.with_errors(at2.errors) == at2);
    lemma_alike_chain(
        at,
        before,
        at2,
        before2,
        p.spec_go(emit, at).cursor,
        p.spec_go(emit, at2).cursor,
    );
}

/// Whether every successful run of `p` reads at least one token.
pub open spec fn productive<I: Input, O: Modeled, E: Error<I>, S: Modeled, P: Parser<I, O, E, S>>(
    p: &P,
) -> bool {
    forall|emit: bool, c: Cursor<I, E, S>|
        c.wf() && (#[trigger] p.spec_go(emit, c)).result is Ok ==> p.spec_go(emit, c).cursor.offset
            > c.offset
}

} // verus!
