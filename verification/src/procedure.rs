//! What it means for the driver to carry out a procedure, one register access at a time.

use crate::registers::{Access, Reply};
use vstd::prelude::*;

verus! {

/// How far a procedure gets with a given sequence of replies.
///
/// A procedure makes its register accesses one after the other and gets one reply to each. So the
/// replies alone decide what it does.
#[verifier::ext_equal]
pub struct Run<V> {
    /// The accesses made, in order. While there is no outcome, the last of them is still waiting
    /// for its reply.
    pub issued: Seq<Access>,
    /// What the procedure came to, once it has finished.
    pub outcome: Option<V>,
    /// The replies that the procedure had no need of.
    pub rest: Seq<Reply>,
}

impl<V> Run<V> {
    /// Whether each access got one of `replies`, in order, and none is left over that a waiting
    /// access could have got.
    pub open spec fn orderly(self, replies: Seq<Reply>) -> bool {
        match self.outcome {
            None => self.issued.len() == replies.len() + 1 && self.rest.len() == 0,
            Some(_) => {
                &&& self.issued.len() <= replies.len()
                &&& self.rest == replies.skip(self.issued.len() as int)
            },
        }
    }
}

/// A procedure that is over, with the outcome `value`.
pub open spec fn finished<V>(value: V, replies: Seq<Reply>) -> Run<V> {
    Run { issued: Seq::empty(), outcome: Some(value), rest: replies }
}

/// A procedure that waits for the reply to `access`.
pub open spec fn waiting<V>(access: Access) -> Run<V> {
    Run { issued: seq![access], outcome: None, rest: Seq::empty() }
}

/// The run `run`, with `access` made before it.
pub open spec fn prepend<V>(access: Access, run: Run<V>) -> Run<V> {
    Run { issued: seq![access] + run.issued, outcome: run.outcome, rest: run.rest }
}

/// A procedure that makes `access` and goes on as `next` once the first of `replies` is there.
pub open spec fn exchange<V>(access: Access, replies: Seq<Reply>, next: Run<V>) -> Run<V> {
    if replies.len() == 0 {
        waiting(access)
    } else {
        prepend(access, next)
    }
}

/// A procedure that runs as `first` and goes on as `next` once that has finished.
pub open spec fn then<A, B>(first: Run<A>, next: Run<B>) -> Run<B> {
    match first.outcome {
        None => Run { issued: first.issued, outcome: None, rest: first.rest },
        Some(_) => Run {
            issued: first.issued + next.issued,
            outcome: next.outcome,
            rest: next.rest,
        },
    }
}

/// A procedure of the driver in the course of being carried out.
///
/// Whoever holds one makes the [`pending`](Procedure::pending) access, hands its reply to
/// [`step`](Procedure::step), and goes on with what that returns until nothing is pending. Then
/// [`finish`](Procedure::finish) gives the result.
pub trait Procedure: Sized {
    /// What the procedure comes to.
    type Output;

    /// The output as a mathematical value.
    type Value;

    /// The mathematical value of an output.
    spec fn value(output: Self::Output) -> Self::Value;

    /// Whether the procedure is in a state that it can reach.
    spec fn inv(&self) -> bool;

    /// How far the procedure gets from here with the given replies.
    spec fn run(&self, replies: Seq<Reply>) -> Run<Self::Value>;

    /// The access that is to be made next, if the procedure is not over.
    fn pending(&self) -> (access: Option<Access>)
        requires
            self.inv(),
        ensures
            access matches Some(a) ==> {
                &&& self.run(Seq::empty()) == waiting::<Self::Value>(a)
                &&& self.run(Seq::empty()).issued[0] == a
            },
            access is None ==> self.run(Seq::empty()).outcome is Some,
    ;

    /// Goes on with the reply to the pending access.
    fn step(self, reply: Reply) -> (next: Self)
        requires
            self.inv(),
            self.run(Seq::empty()).outcome is None,
            self.run(Seq::empty()).issued[0].answered_by(reply),
        ensures
            next.inv(),
            forall|replies: Seq<Reply>|
                self.run(seq![reply] + replies) == prepend(
                    self.run(Seq::empty()).issued[0],
                    #[trigger] next.run(replies),
                ),
    ;

    /// The result of a procedure that is over.
    fn finish(self) -> (output: Self::Output)
        requires
            self.inv(),
            self.run(Seq::empty()).outcome is Some,
        ensures
            forall|replies: Seq<Reply>|
                #[trigger] self.run(replies) == finished(Self::value(output), replies),
    ;
}

/// Making an access before a procedure, and then another, is making it before both.
pub broadcast proof fn lemma_then_prepend<A, B>(access: Access, first: Run<A>, next: Run<B>)
    ensures
        #[trigger] then(prepend(access, first), next) == prepend(access, then(first, next)),
{
    assert((seq![access] + first.issued) + next.issued =~= seq![access] + (first.issued
        + next.issued));
}

/// Nothing comes before what follows a procedure that is over.
pub broadcast proof fn lemma_then_finished<A, B>(value: A, replies: Seq<Reply>, next: Run<B>)
    ensures
        #[trigger] then(finished(value, replies), next) == next,
{
    assert(Seq::<Access>::empty() + next.issued =~= next.issued);
}

/// The replies after the first.
pub broadcast proof fn lemma_skip_first(reply: Reply, replies: Seq<Reply>)
    ensures
        #[trigger] (seq![reply] + replies).skip(1) == replies,
{
    assert((seq![reply] + replies).skip(1) =~= replies);
}

/// A procedure that is over is orderly.
pub broadcast proof fn lemma_finished_orderly<V>(value: V, replies: Seq<Reply>)
    ensures
        #[trigger] finished(value, replies).orderly(replies),
{
    assert(replies.skip(0) =~= replies);
}

/// An exchange before an orderly procedure is orderly.
pub broadcast proof fn lemma_exchange_orderly<V>(access: Access, replies: Seq<Reply>, next: Run<V>)
    requires
        replies.len() > 0 ==> next.orderly(replies.skip(1)),
    ensures
        #[trigger] exchange(access, replies, next).orderly(replies),
{
    if replies.len() > 0 && next.outcome is Some {
        let made = next.issued.len() as int;
        assert(replies.skip(1).skip(made) =~= replies.skip(made + 1));
    }
}

/// Two orderly procedures, one after the other, are orderly.
pub broadcast proof fn lemma_then_orderly<A, B>(first: Run<A>, next: Run<B>, replies: Seq<Reply>)
    requires
        first.orderly(replies),
        first.outcome is Some ==> next.orderly(first.rest),
    ensures
        #[trigger] then(first, next).orderly(replies),
{
    if first.outcome is Some && next.outcome is Some {
        let made = first.issued.len() as int;
        let more = next.issued.len() as int;
        assert(replies.skip(made).skip(more) =~= replies.skip(made + more));
    }
}

pub broadcast group group_orderly {
    lemma_finished_orderly,
    lemma_exchange_orderly,
    lemma_then_orderly,
}

pub broadcast group group_procedure {
    lemma_then_prepend,
    lemma_then_finished,
    lemma_skip_first,
}

} // verus!
