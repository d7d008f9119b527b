//! Saying access for access what a procedure does.

use crate::procedure::{exchange, finished, then, Run};
use crate::registers::{Access, Reply};
use vstd::prelude::*;

verus! {

/// Whether the run makes the accesses of `script` in order, as far as the replies go, and comes to
/// `value` when each of them has got its reply.
pub open spec fn plays<V>(run: Run<V>, replies: Seq<Reply>, script: Seq<Access>, value: V) -> bool {
    if replies.len() < script.len() {
        &&& run.issued == script.take(replies.len() as int + 1)
        &&& run.outcome == None::<V>
        &&& run.rest == Seq::<Reply>::empty()
    } else {
        &&& run.issued == script
        &&& run.outcome == Some(value)
        &&& run.rest == replies.skip(script.len() as int)
    }
}

/// Whether the run is `first` and, once that has come to something, `next`.
pub open spec fn in_turn<A, B>(run: Run<B>, first: Run<A>, next: Run<B>) -> bool {
    match first.outcome {
        None => {
            &&& run.issued == first.issued
            &&& run.outcome == None::<B>
            &&& run.rest == first.rest
        },
        Some(_) => {
            &&& run.issued == first.issued + next.issued
            &&& run.outcome == next.outcome
            &&& run.rest == next.rest
        },
    }
}

/// Whether the run is `first` and comes to `value` once that has come to something.
pub open spec fn comes_to<A, B>(run: Run<B>, first: Run<A>, value: B) -> bool {
    &&& run.issued == first.issued
    &&& run.outcome == match first.outcome {
        None => None,
        Some(_) => Some(value),
    }
    &&& run.rest == first.rest
}

pub proof fn lemma_finished_plays<V>(value: V, replies: Seq<Reply>)
    ensures
        plays(finished(value, replies), replies, Seq::empty(), value),
{
    assert(replies.skip(0) =~= replies);
}

pub proof fn lemma_exchange_plays<V>(
    access: Access,
    replies: Seq<Reply>,
    next: Run<V>,
    script: Seq<Access>,
    value: V,
)
    requires
        replies.len() > 0 ==> plays(next, replies.skip(1), script, value),
    ensures
        plays(exchange(access, replies, next), replies, seq![access] + script, value),
{
    let both = seq![access] + script;
    if replies.len() == 0 {
        assert(both.take(1) =~= seq![access]);
    } else if replies.skip(1).len() < script.len() {
        assert(both.take(replies.len() as int + 1) =~= seq![access] + script.take(
            replies.skip(1).len() as int + 1,
        ));
    } else {
        assert(replies.skip(1).skip(script.len() as int) =~= replies.skip(both.len() as int));
    }
}

pub proof fn lemma_then_plays<A, B>(
    first: Run<A>,
    next: Run<B>,
    replies: Seq<Reply>,
    opening: Seq<Access>,
    made: A,
    script: Seq<Access>,
    value: B,
)
    requires
        plays(first, replies, opening, made),
        first.outcome is Some ==> plays(next, first.rest, script, value),
    ensures
        plays(then(first, next), replies, opening + script, value),
{
    let both = opening + script;
    let rest = replies.skip(opening.len() as int);
    if replies.len() < opening.len() {
        assert(both.take(replies.len() as int + 1) =~= opening.take(replies.len() as int + 1));
    } else if rest.len() < script.len() {
        let made = rest.len() as int + 1;
        assert(both.take(replies.len() as int + 1) =~= opening + script.take(made));
    } else {
        assert(rest.skip(script.len() as int) =~= replies.skip(both.len() as int));
    }
}

pub proof fn lemma_then_in_turn<A, B>(first: Run<A>, next: Run<B>)
    ensures
        in_turn(then(first, next), first, next),
{
}

pub proof fn lemma_then_comes_to<A, B>(first: Run<A>, value: B)
    ensures
        comes_to(then(first, finished(value, first.rest)), first, value),
{
    if first.outcome is Some {
        assert(first.issued + Seq::<Access>::empty() =~= first.issued);
    }
}

} // verus!
