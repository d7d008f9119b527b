//! A write that ended well leaves nothing of the old contents in the memory cache.

use crate::nor_flash::erase::{erase_commanded, erase_run, settle_run};
use crate::nor_flash::program::{
    page_program_run, page_program_sequence, program_clear, program_data_run, program_filled,
    program_launched, program_ready, program_waited,
};
use crate::nor_flash::status::{lemma_run_command_orderly, run_command_run};
use crate::nor_flash::write_enable::{
    enable_write_run, lemma_enable_write_orderly, lemma_wait_write_orderly, wait_write_run,
};
use crate::nor_flash::{PageProgramError, WriteError};
use crate::peripheral::cache::{invalidate_cache_run, invalidate_start_run, invalidate_wait_run};
use crate::peripheral::command::{launch_run, lemma_launch_orderly};
use crate::peripheral::fifo::{fill_run, lemma_fill_orderly};
use crate::peripheral::wait::{
    lemma_wait_command_done_orderly, lemma_wait_tx_ready_orderly, wait_command_done_run,
    wait_tx_ready_run,
};
use crate::peripheral::CommandSequence;
use crate::procedure::{exchange, then, Run};
use crate::registers::{Access, CacheCommand, Reply};
use vstd::prelude::*;

verus! {

/// Whether the access with the index `at` starts invalidating the whole cache, and the accesses
/// after it do nothing but wait for that to be over, and find that it is.
pub open spec fn invalidated_at(issued: Seq<Access>, replies: Seq<Reply>, at: int) -> bool {
    &&& 0 <= at < issued.len() - 1
    &&& issued.len() <= replies.len()
    &&& issued[at] == Access::StartCacheCommand(CacheCommand::invalidate_all())
    &&& replies[at]->CacheStarted_0
    &&& forall|i: int| at < i < issued.len() ==> #[trigger] issued[i] == Access::ReadCacheGo
    &&& !(replies[issued.len() - 1]->CacheGo_0)
}

/// Whether the last thing that happened was that the whole cache was invalidated.
pub open spec fn invalidated_last(issued: Seq<Access>, replies: Seq<Reply>) -> bool {
    exists|at: int| invalidated_at(issued, replies, at)
}

proof fn lemma_invalidated_later(first: Seq<Access>, next: Seq<Access>, replies: Seq<Reply>)
    requires
        first.len() <= replies.len(),
        invalidated_last(next, replies.skip(first.len() as int)),
    ensures
        invalidated_last(first + next, replies),
{
    let rest = replies.skip(first.len() as int);
    let at = choose|at: int| invalidated_at(next, rest, at);
    let both = first + next;
    let later = first.len() + at;
    assert forall|i: int| later < i < both.len() implies #[trigger] both[i]
        == Access::ReadCacheGo by {
        assert(both[i] == next[i - first.len()]);
    }
    assert(rest[next.len() - 1] == replies[both.len() - 1]);
    assert(rest[at] == replies[later]);
    assert(invalidated_at(both, replies, later));
}

proof fn lemma_then_invalidated<A, B>(first: Run<A>, next: Run<B>, replies: Seq<Reply>)
    requires
        first.orderly(replies),
        first.outcome is Some,
        invalidated_last(next.issued, first.rest),
    ensures
        invalidated_last(then(first, next).issued, replies),
{
    lemma_invalidated_later(first.issued, next.issued, replies);
}

proof fn lemma_exchange_invalidated<V>(access: Access, replies: Seq<Reply>, next: Run<V>)
    requires
        replies.len() > 0,
        invalidated_last(next.issued, replies.skip(1)),
    ensures
        invalidated_last(exchange(access, replies, next).issued, replies),
{
    lemma_invalidated_later(seq![access], next.issued, replies);
}

/// How waiting for the cache command goes: it reads until the command is over.
proof fn lemma_invalidate_wait(replies: Seq<Reply>)
    requires
        invalidate_wait_run(replies).outcome is Some,
    ensures
        ({
            let issued = invalidate_wait_run(replies).issued;
            &&& 0 < issued.len() <= replies.len()
            &&& forall|i: int| 0 <= i < issued.len() ==> #[trigger] issued[i] == Access::ReadCacheGo
            &&& !(replies[issued.len() - 1]->CacheGo_0)
        }),
    decreases replies.len(),
{
    reveal(invalidate_wait_run);
    let issued = invalidate_wait_run(replies).issued;
    if replies[0]->CacheGo_0 {
        lemma_invalidate_wait(replies.skip(1));
        let more = invalidate_wait_run(replies.skip(1)).issued;
        assert(issued == seq![Access::ReadCacheGo] + more);
        assert(replies.skip(1)[more.len() - 1] == replies[issued.len() - 1]);
    } else {
        assert(issued =~= seq![Access::ReadCacheGo]);
    }
}

proof fn lemma_invalidate_parts(replies: Seq<Reply>)
    ensures
        invalidate_cache_run(replies).outcome is Some ==> invalidated_last(
            invalidate_cache_run(replies).issued,
            replies,
        ),
        invalidate_start_run(replies).outcome is Some ==> invalidated_last(
            invalidate_start_run(replies).issued,
            replies,
        ),
    decreases replies.len(),
{
    reveal(invalidate_cache_run);
    reveal(invalidate_start_run);
    if replies.len() > 0 {
        let more = replies.skip(1);
        lemma_invalidate_parts(more);
        if invalidate_cache_run(replies).outcome is Some {
            let next = if replies[0]->CacheGo_0 {
                invalidate_cache_run(more)
            } else {
                invalidate_start_run(more)
            };
            lemma_exchange_invalidated(Access::ReadCacheGo, replies, next);
        }
        let run = invalidate_start_run(replies);
        if run.outcome is Some {
            let start = Access::StartCacheCommand(CacheCommand::invalidate_all());
            if replies[0]->CacheStarted_0 {
                lemma_invalidate_wait(more);
                let waited = invalidate_wait_run(more).issued;
                assert(run.issued == seq![start] + waited);
                assert(more[waited.len() - 1] == replies[run.issued.len() - 1]);
                assert(invalidated_at(run.issued, replies, 0));
            } else {
                lemma_exchange_invalidated(start, replies, invalidate_cache_run(more));
            }
        }
    }
}

/// Invalidating the memory cache ends with the whole cache invalidated.
pub proof fn lemma_invalidate_cache(replies: Seq<Reply>)
    ensures
        invalidate_cache_run(replies).outcome is Some ==> invalidated_last(
            invalidate_cache_run(replies).issued,
            replies,
        ),
{
    lemma_invalidate_parts(replies);
}

proof fn lemma_settle_invalidates(replies: Seq<Reply>)
    requires
        settle_run(replies).outcome == Some(Ok::<(), WriteError>(())),
    ensures
        invalidated_last(settle_run(replies).issued, replies),
{
    let wait = wait_write_run(replies);
    lemma_wait_write_orderly(replies);
    lemma_invalidate_cache(wait.rest);
    let invalidate = invalidate_cache_run(wait.rest);
    assert(settle_run(replies).issued =~= wait.issued + invalidate.issued);
    lemma_then_invalidated(wait, invalidate, replies);
}

/// When erasing has ended well, the whole memory cache was invalidated last.
pub proof fn lemma_erase_invalidates(sequence: CommandSequence, replies: Seq<Reply>)
    requires
        erase_run(sequence, replies).outcome == Some(Ok::<(), WriteError>(())),
    ensures
        invalidated_last(erase_run(sequence, replies).issued, replies),
{
    let enable = enable_write_run(replies);
    lemma_enable_write_orderly(replies);
    let command = run_command_run(sequence, enable.rest);
    lemma_run_command_orderly(sequence, enable.rest);
    let settle = settle_run(command.rest);
    lemma_settle_invalidates(command.rest);
    lemma_then_invalidated(command, settle, enable.rest);
    lemma_then_invalidated(enable, erase_commanded(command), replies);
}

proof fn lemma_program_data_invalidates(data: Seq<u8>, replies: Seq<Reply>)
    requires
        program_data_run(data, replies).outcome == Some(Ok::<(), PageProgramError>(())),
    ensures
        invalidated_last(program_data_run(data, replies).issued, replies),
    decreases replies.len(),
{
    reveal(program_data_run);
    let run = program_data_run(data, replies);
    if data.len() == 0 {
        let wait = wait_command_done_run(replies);
        lemma_wait_command_done_orderly(replies);
        assert(run == program_waited(wait));
        let settle = settle_run(wait.rest);
        assert(settle.outcome->0->Ok_0 == ());
        lemma_settle_invalidates(wait.rest);
        assert(run.issued =~= wait.issued + settle.issued);
        lemma_then_invalidated(wait, settle, replies);
    } else {
        let wait = wait_tx_ready_run(replies);
        lemma_wait_tx_ready_orderly(replies);
        assert(run == program_ready(data, wait));
        let fill = fill_run(data, wait.rest);
        lemma_fill_orderly(data, wait.rest);
        let filled = program_filled(data, fill);
        let next = program_data_run(data.skip(fill.outcome->0), fill.rest);
        assert(run == then(wait, filled));
        assert(filled == then(fill, next));
        lemma_program_data_invalidates(data.skip(fill.outcome->0), fill.rest);
        lemma_then_invalidated(fill, next, wait.rest);
        lemma_then_invalidated(wait, filled, replies);
    }
}

/// When programming a page has ended well, the whole memory cache was invalidated last.
pub proof fn lemma_page_program_invalidates(
    address: u32,
    data: Seq<u8>,
    page_size: u32,
    replies: Seq<Reply>,
)
    requires
        page_program_run(address, data, page_size, replies).outcome == Some(
            Ok::<(), PageProgramError>(()),
        ),
    ensures
        invalidated_last(page_program_run(address, data, page_size, replies).issued, replies),
{
    let enable = enable_write_run(replies);
    lemma_enable_write_orderly(replies);
    let sequence = page_program_sequence(address, data.len() as int);
    let launch = launch_run(sequence, enable.rest.skip(1));
    lemma_launch_orderly(sequence, enable.rest.skip(1));
    let next = program_data_run(data, launch.rest);
    lemma_program_data_invalidates(data, launch.rest);
    lemma_then_invalidated(launch, next, enable.rest.skip(1));
    lemma_exchange_invalidated(
        Access::ClearTxFifo,
        enable.rest,
        program_launched(data, launch),
    );
    lemma_then_invalidated(enable, program_clear(address, data, enable.rest), replies);
}

} // verus!
