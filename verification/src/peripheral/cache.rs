//! Invalidating the memory cache.

use crate::procedure::{finished, group_orderly, group_procedure, prepend, waiting, Procedure, Run};
use crate::registers::{Access, CacheCommand, Reply};
use vstd::prelude::*;

verus! {

broadcast use group_procedure;

/// Invalidating the complete memory cache: waiting for the cache controller to be idle, starting
/// the command, and waiting for it to finish.
///
/// Where another command slips in between, the waiting begins anew.
#[verifier::opaque]
pub open spec fn invalidate_cache_run(replies: Seq<Reply>) -> Run<()>
    decreases replies.len(),
{
    if replies.len() == 0 {
        waiting(Access::ReadCacheGo)
    } else {
        prepend(
            Access::ReadCacheGo,
            if replies[0]->CacheGo_0 {
                invalidate_cache_run(replies.skip(1))
            } else {
                invalidate_start_run(replies.skip(1))
            },
        )
    }
}

/// Invalidating the memory cache, from the point where the command is started.
#[verifier::opaque]
pub open spec fn invalidate_start_run(replies: Seq<Reply>) -> Run<()>
    decreases replies.len(),
{
    let access = Access::StartCacheCommand(CacheCommand::invalidate_all());
    if replies.len() == 0 {
        waiting(access)
    } else {
        prepend(
            access,
            if replies[0]->CacheStarted_0 {
                invalidate_wait_run(replies.skip(1))
            } else {
                invalidate_cache_run(replies.skip(1))
            },
        )
    }
}

/// Invalidating the memory cache, from the point where the command runs.
#[verifier::opaque]
pub open spec fn invalidate_wait_run(replies: Seq<Reply>) -> Run<()>
    decreases replies.len(),
{
    if replies.len() == 0 {
        waiting(Access::ReadCacheGo)
    } else {
        prepend(
            Access::ReadCacheGo,
            if replies[0]->CacheGo_0 {
                invalidate_wait_run(replies.skip(1))
            } else {
                finished((), replies.skip(1))
            },
        )
    }
}

proof fn lemma_invalidate_parts_orderly(replies: Seq<Reply>)
    ensures
        invalidate_cache_run(replies).orderly(replies),
        invalidate_start_run(replies).orderly(replies),
        invalidate_wait_run(replies).orderly(replies),
    decreases replies.len(),
{
    broadcast use group_orderly;

    reveal(invalidate_cache_run);
    reveal(invalidate_start_run);
    reveal(invalidate_wait_run);
    if replies.len() > 0 {
        let more = replies.skip(1);
        lemma_invalidate_parts_orderly(more);
        assert forall|made: int| 0 <= made <= more.len() implies #[trigger] more.skip(made)
            == replies.skip(made + 1) by {
            assert(more.skip(made) =~= replies.skip(made + 1));
        }
    }
}

/// Invalidating the memory cache is orderly.
pub proof fn lemma_invalidate_cache_orderly(replies: Seq<Reply>)
    ensures
        invalidate_cache_run(replies).orderly(replies),
{
    lemma_invalidate_parts_orderly(replies);
}

/// Invalidates the memory cache.
#[derive(Copy, Clone, Debug)]
pub struct InvalidateCache {
    phase: InvalidatePhase,
}

#[derive(Copy, Clone, Debug)]
enum InvalidatePhase {
    WaitIdle,
    Start,
    WaitDone,
    Over,
}

impl InvalidateCache {
    /// Starts with waiting for the cache controller to be idle.
    pub fn new() -> (invalidate: Self)
        ensures
            invalidate.inv(),
            forall|replies: Seq<Reply>|
                #[trigger] invalidate.run(replies) == invalidate_cache_run(replies),
    {
        InvalidateCache { phase: InvalidatePhase::WaitIdle }
    }
}

impl Procedure for InvalidateCache {
    type Output = ();

    type Value = ();

    open spec fn value(output: Self::Output) -> Self::Value {
        output
    }

    closed spec fn inv(&self) -> bool {
        true
    }

    closed spec fn run(&self, replies: Seq<Reply>) -> Run<Self::Value> {
        match self.phase {
            InvalidatePhase::WaitIdle => invalidate_cache_run(replies),
            InvalidatePhase::Start => invalidate_start_run(replies),
            InvalidatePhase::WaitDone => invalidate_wait_run(replies),
            InvalidatePhase::Over => finished((), replies),
        }
    }

    fn pending(&self) -> (access: Option<Access>) {
        reveal(invalidate_cache_run);
        reveal(invalidate_start_run);
        reveal(invalidate_wait_run);
        match self.phase {
            InvalidatePhase::WaitIdle => Some(Access::ReadCacheGo),
            InvalidatePhase::Start => Some(
                Access::StartCacheCommand(
                    CacheCommand {
                        invw0: true,
                        pushw0: false,
                        invw1: true,
                        pushw1: false,
                        go: true,
                    },
                ),
            ),
            InvalidatePhase::WaitDone => Some(Access::ReadCacheGo),
            InvalidatePhase::Over => None,
        }
    }

    fn step(self, reply: Reply) -> (next: Self) {
        reveal(invalidate_cache_run);
        reveal(invalidate_start_run);
        reveal(invalidate_wait_run);
        let phase = match (self.phase, reply) {
            (InvalidatePhase::WaitIdle, Reply::CacheGo(true)) => InvalidatePhase::WaitIdle,
            (InvalidatePhase::WaitIdle, Reply::CacheGo(false)) => InvalidatePhase::Start,
            (InvalidatePhase::Start, Reply::CacheStarted(true)) => InvalidatePhase::WaitDone,
            (InvalidatePhase::Start, Reply::CacheStarted(false)) => InvalidatePhase::WaitIdle,
            (InvalidatePhase::WaitDone, Reply::CacheGo(true)) => InvalidatePhase::WaitDone,
            (InvalidatePhase::WaitDone, Reply::CacheGo(false)) => InvalidatePhase::Over,
            _ => unreached(),
        };
        InvalidateCache { phase }
    }

    fn finish(self) -> (output: Self::Output) {
        reveal(invalidate_cache_run);
        reveal(invalidate_start_run);
        reveal(invalidate_wait_run);
    }
}

} // verus!
