//! Scripts: what a procedure asks of the platform, answer by answer, and what it returns.

use vstd::prelude::*;

use crate::call::{Call, Reply};

verus! {

/// A dialogue with the platform: either it is over, with a result, or it makes a call and goes
/// on in a way that depends on the answer.
#[verifier::reject_recursive_types(R)]
pub enum Script<R> {
    /// The dialogue is over.
    Return(R),
    /// A call, and how the dialogue goes on after each answer to it.
    Ask(Call, spec_fn(Reply) -> Script<R>),
}

/// A call together with the answer that it got.
pub struct Exchange {
    /// The call.
    pub call: Call,
    /// Its answer.
    pub reply: Reply,
}

impl<R> Script<R> {
    /// The call that the dialogue makes next, or none if it is over.
    pub open spec fn next_call(self) -> Option<Call> {
        match self {
            Script::Return(_) => None,
            Script::Ask(call, _) => Some(call),
        }
    }

    /// How the dialogue goes on after `reply`.
    pub open spec fn after(self, reply: Reply) -> Script<R>
        recommends
            self is Ask,
    {
        (self->Ask_1)(reply)
    }

    /// This dialogue, followed by the one that `rest` gives for its result. To look several calls
    /// ahead, a proof reveals it with as much fuel.
    pub open spec fn followed_by<S>(self, rest: spec_fn(R) -> Script<S>) -> Script<S>
        decreases self,
    {
        match self {
            Script::Return(result) => rest(result),
            Script::Ask(call, more) => Script::Ask(call, |reply: Reply| more(reply).followed_by(rest)),
        }
    }

    /// Whether `log` is a whole run of the dialogue that ends with `result`.
    pub open spec fn runs(self, log: Seq<Exchange>, result: R) -> bool
        decreases log.len(),
    {
        match self {
            Script::Return(value) => log.len() == 0 && value == result,
            Script::Ask(call, more) => {
                &&& log.len() > 0
                &&& log[0].call == call
                &&& call.takes(log[0].reply)
                &&& more(log[0].reply).runs(log.drop_first(), result)
            },
        }
    }
}

/// Every dialogue comes to an end, whatever the answers are: if `answer` gives the answer to
/// each call, by the number of calls before it and by the call, there is a run with just these
/// answers.
pub proof fn law_every_dialogue_ends<R>(script: Script<R>, answer: spec_fn(int, Call) -> Reply)
    requires
        forall|n: int, call: Call| call.takes(#[trigger] answer(n, call)),
    ensures
        exists|log: Seq<Exchange>, result: R| #[trigger]
            script.runs(log, result) && forall|i: int|
                0 <= i < log.len() ==> (#[trigger] log[i]).reply == answer(i, log[i].call),
    decreases script,
{
    match script {
        Script::Return(result) => {
            assert(script.runs(Seq::empty(), result));
        },
        Script::Ask(call, more) => {
            let reply = answer(0, call);
            let later = |n: int, call: Call| answer(n + 1, call);
            law_every_dialogue_ends(more(reply), later);
            let (rest, result) = choose|rest: Seq<Exchange>, result: R| #[trigger]
                more(reply).runs(rest, result) && forall|i: int|
                    0 <= i < rest.len() ==> (#[trigger] rest[i]).reply == later(i, rest[i].call);
            let log = seq![Exchange { call, reply }] + rest;
            assert(log.drop_first() =~= rest);
            assert forall|i: int| 0 <= i < log.len() implies (#[trigger] log[i]).reply == answer(
                i,
                log[i].call,
            ) by {
                if i > 0 {
                    assert(log[i] == rest[i - 1]);
                }
            }
            assert(script.runs(log, result));
        },
    }
}

/// A run of two dialogues in a row is a run of the first and then one of the second. Returns
/// where the first ends, and with what result.
pub proof fn lemma_runs_split<R, S>(
    first: Script<R>,
    rest: spec_fn(R) -> Script<S>,
    log: Seq<Exchange>,
    result: S,
) -> (split: (int, R))
    requires
        first.followed_by(rest).runs(log, result),
    ensures
        0 <= split.0 <= log.len(),
        first.runs(log.take(split.0), split.1),
        rest(split.1).runs(log.skip(split.0), result),
    decreases log.len(),
{
    match first {
        Script::Return(value) => {
            assert(log.skip(0) =~= log);
            (0, value)
        },
        Script::Ask(_, more) => {
            let reply = log[0].reply;
            let (n, value) = lemma_runs_split(more(reply), rest, log.drop_first(), result);
            assert(log.take(n + 1).drop_first() =~= log.drop_first().take(n));
            assert(log.skip(n + 1) =~= log.drop_first().skip(n));
            (n + 1, value)
        },
    }
}

/// How far a procedure has come.
#[derive(Debug)]
pub enum Step<P, R> {
    /// It waits for the answer to a call.
    Waits(P),
    /// It is over, with a result.
    Over(R),
}

/// A resumable procedure that waits for the answer to a call. It follows its script: it makes
/// the calls of the script, goes on as the script does after each answer, and ends with the
/// result of the script.
pub trait Procedure: Sized {
    /// What the procedure returns.
    type Output;

    /// The rest of the dialogue that the procedure holds.
    spec fn script(&self) -> Script<Self::Output>;

    /// A procedure has a call to make.
    proof fn lemma_asks(&self)
        ensures
            self.script() is Ask,
    ;

    /// The call that the procedure waits for.
    fn pending(&self) -> (call: Call)
        ensures
            self.script().next_call() == Some(call),
    ;

    /// Goes on after the answer to the pending call.
    fn resume(self, reply: &Reply) -> (step: Step<Self, Self::Output>)
        requires
            self.script()->Ask_0.takes(*reply),
        ensures
            step matches Step::Waits(next) ==> next.script() == self.script().after(*reply),
            step matches Step::Over(result) ==> self.script().after(*reply) == Script::Return(
                result,
            ),
    ;
}

impl<P: Procedure> Step<P, P::Output> {
    /// The rest of the dialogue.
    pub open spec fn script(self) -> Script<P::Output> {
        match self {
            Step::Waits(procedure) => procedure.script(),
            Step::Over(result) => Script::Return(result),
        }
    }
}

/// Driving a procedure runs its script: if it goes through `states`, makes the calls of `log`,
/// gets the answers of `log` and is over with `result` after the last one, then `log` is a run
/// of the script that it started with, with that result.
pub proof fn law_driving_runs_the_script<P: Procedure>(
    states: Seq<P>,
    log: Seq<Exchange>,
    result: P::Output,
)
    requires
        log.len() == states.len(),
        states.len() > 0,
        forall|i: int|
            0 <= i < states.len() ==> (#[trigger] states[i]).script().next_call() == Some(
                log[i].call,
            ) && log[i].call.takes(log[i].reply),
        forall|i: int|
            0 < i < states.len() ==> (#[trigger] states[i]).script() == states[i
                - 1].script().after(log[i - 1].reply),
        states.last().script().after(log.last().reply) == Script::Return(result),
    ensures
        states[0].script().runs(log, result),
    decreases log.len(),
{
    reveal_with_fuel(Script::runs, 2);
    assert(states[0].script() is Ask);
    let more = states.drop_first();
    let rest = log.drop_first();
    if more.len() > 0 {
        assert forall|i: int| 0 <= i < more.len() implies (
        #[trigger] more[i]).script().next_call() == Some(rest[i].call) && rest[i].call.takes(
            rest[i].reply,
        ) by {
            assert(more[i] == states[i + 1]);
        }
        assert forall|i: int| 0 < i < more.len() implies (#[trigger] more[i]).script()
            == more[i - 1].script().after(rest[i - 1].reply) by {
            assert(more[i] == states[i + 1]);
        }
        law_driving_runs_the_script(more, rest, result);
        assert(states[1].script() == states[0].script().after(log[0].reply));
    }
}

} // verus!
