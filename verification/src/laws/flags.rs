//! Which interrupt flags the driver clears.

use crate::peripheral::check::{
    check_ended_run, check_flags_run, check_run, lemma_check_ended_orderly,
};
use crate::peripheral::command::{launch_address, launch_run};
use crate::peripheral::wait::{
    lemma_poll_orderly, lemma_wait_command_done_orderly, lemma_wait_rx_ready_orderly,
    lemma_wait_tx_ready_orderly, poll_run, wait_command_done_run, wait_rx_ready_run,
    wait_tx_ready_run,
};
use crate::peripheral::{CommandSequence, WaitCommandError, WaitTxReadyError};
use crate::registers::{Access, Interrupts, Reply};
use vstd::prelude::*;

verus! {

/// Whether none of the accesses clears an interrupt flag.
pub open spec fn clears_nothing(issued: Seq<Access>) -> bool {
    forall|i: int| 0 <= i < issued.len() ==> !(#[trigger] issued[i] is ClearInterrupts)
}

/// Whether the last of the accesses clears `flags`, and no other access clears any.
pub open spec fn clears_last(issued: Seq<Access>, flags: Interrupts) -> bool {
    &&& issued.len() > 0
    &&& issued.last() == Access::ClearInterrupts(flags)
    &&& clears_nothing(issued.drop_last())
}

/// Whether `flags` say that a command failed, and the last accesses clear those that say so, and
/// then the one that says that the command is done, if it is set. No other access clears any.
pub open spec fn clears_failed(issued: Seq<Access>, flags: Interrupts) -> bool {
    &&& flags.failed()
    &&& if flags.ipcmddone {
        &&& issued.len() > 0
        &&& issued.last() == Access::ClearInterrupts(flags.done())
        &&& clears_last(issued.drop_last(), flags.errors())
    } else {
        clears_last(issued, flags.errors())
    }
}

/// Whether the access with the index `at` is the last that read the interrupt flags.
pub open spec fn flags_read_at(issued: Seq<Access>, replies: Seq<Reply>, at: int) -> bool {
    &&& 0 <= at < issued.len() <= replies.len()
    &&& issued[at] == Access::ReadInterrupts
    &&& forall|i: int| at < i < issued.len() ==> !(#[trigger] issued[i] is ReadInterrupts)
}

/// Whether the flags that were read last say that the command is done, and exactly those that say
/// that it finished are cleared, with the last access and no other.
pub open spec fn clears_read_done(issued: Seq<Access>, replies: Seq<Reply>) -> bool {
    exists|at: int|
        {
            &&& #[trigger] flags_read_at(issued, replies, at)
            &&& replies[at].interrupts().ipcmddone
            &&& clears_last(issued, replies[at].interrupts().finished())
        }
}

/// Whether the flags that were read last say that the command failed, and exactly those that say
/// so are cleared, and then the one that says that it is done, if it is set.
pub open spec fn clears_read_errors(issued: Seq<Access>, replies: Seq<Reply>) -> bool {
    exists|at: int|
        {
            &&& #[trigger] flags_read_at(issued, replies, at)
            &&& clears_failed(issued, replies[at].interrupts())
        }
}

/// Checking for errors reads the interrupt register once, and first. It fails exactly when a
/// flag says that the command failed. Only then are flags cleared, with the last access: exactly
/// the flags that are set and say that the command failed.
pub proof fn lemma_check_clears_set_flags(replies: Seq<Reply>)
    requires
        replies.len() > 0,
    ensures
        ({
            let run = check_run(replies);
            let flags = replies[0].interrupts();
            &&& run.issued.len() > 0 && run.issued[0] == Access::ReadInterrupts
            &&& forall|i: int| 0 < i < run.issued.len() ==> !(run.issued[i] is ReadInterrupts)
            &&& forall|i: int|
                0 <= i < run.issued.len() ==> (#[trigger] run.issued[i] matches
                    Access::ClearInterrupts(cleared) ==> {
                    &&& flags.failed()
                    &&& cleared == flags.errors()
                    &&& cleared.within(flags)
                })
            &&& run.outcome matches Some(result) ==> match result {
                Ok(read) => !flags.failed() && read == flags && clears_nothing(run.issued),
                Err(_) => flags.failed() && clears_last(run.issued, flags.errors()),
            }
        }),
{
    let run = check_run(replies);
    let flags = replies[0].interrupts();
    let checked = check_flags_run(flags, replies.skip(1));
    assert(run.issued =~= seq![Access::ReadInterrupts] + checked.issued);
    if flags.ipcmderr {
        assert(checked.issued[0] == Access::ReadStatus1);
    }
}

/// Checking the flags of a command that may have ended clears nothing without an error, and
/// everything that says that the command ended with one.
proof fn lemma_check_ended_clears(replies: Seq<Reply>)
    ensures
        ({
            let run = check_ended_run(replies);
            let flags = replies[0].interrupts();
            run.outcome matches Some(result) ==> {
                &&& replies.len() > 0
                &&& result != Err::<Interrupts, _>(WaitCommandError::ArbiterIdle)
                &&& match result {
                    Ok(read) => {
                        &&& read == flags
                        &&& !flags.failed()
                        &&& run.issued == seq![Access::ReadInterrupts]
                    },
                    Err(_) => {
                        &&& flags_read_at(run.issued, replies, 0)
                        &&& clears_failed(run.issued, flags)
                    },
                }
            }
        }),
{
    reveal(check_ended_run);
    let run = check_ended_run(replies);
    let check = check_run(replies);
    let flags = replies[0].interrupts();
    lemma_check_ended_orderly(replies);
    if run.outcome is Some {
        lemma_check_clears_set_flags(replies);
        if check.outcome->0 is Err && flags.ipcmddone {
            assert(run.issued =~= check.issued.push(Access::ClearInterrupts(flags.done())));
            assert(run.issued.drop_last() =~= check.issued);
        } else {
            assert(run.issued =~= check.issued);
        }
    }
}

/// A look at the peripheral that shows no error clears nothing. One that shows an error clears
/// the flags that say so, and then the one that says that the command is done.
proof fn lemma_poll_clears(replies: Seq<Reply>)
    ensures
        ({
            let poll = poll_run(replies);
            poll.outcome matches Some(result) ==> {
                &&& result != Err::<(bool, Interrupts), _>(WaitCommandError::ArbiterIdle)
                &&& match result {
                    Ok(_) => clears_nothing(poll.issued),
                    Err(_) => clears_read_errors(poll.issued, replies),
                }
            }
        }),
{
    let poll = poll_run(replies);
    lemma_poll_orderly(replies);
    if poll.outcome is Some {
        let check = check_ended_run(replies.skip(1));
        lemma_check_ended_clears(replies.skip(1));
        let flags = replies.skip(1)[0].interrupts();
        assert(poll.issued =~= seq![Access::ReadStatus0] + check.issued);
        if poll.outcome->0 is Err {
            lemma_clears_failed_after(seq![Access::ReadStatus0], check.issued, flags);
            lemma_flags_read_later(seq![Access::ReadStatus0], check.issued, replies, 0);
        }
    }
}

proof fn lemma_clears_failed_after(before: Seq<Access>, after: Seq<Access>, flags: Interrupts)
    requires
        clears_nothing(before),
        clears_failed(after, flags),
    ensures
        clears_failed(before + after, flags),
{
    if flags.ipcmddone {
        assert((before + after).drop_last() =~= before + after.drop_last());
        lemma_clears_last_after(before, after.drop_last(), flags.errors());
    } else {
        lemma_clears_last_after(before, after, flags.errors());
    }
}

proof fn lemma_clears_last_after(before: Seq<Access>, after: Seq<Access>, flags: Interrupts)
    requires
        clears_nothing(before),
        clears_last(after, flags),
    ensures
        clears_last(before + after, flags),
{
    assert((before + after).drop_last() =~= before + after.drop_last());
}

proof fn lemma_flags_read_later(
    before: Seq<Access>,
    after: Seq<Access>,
    replies: Seq<Reply>,
    at: int,
)
    requires
        before.len() + after.len() <= replies.len(),
        flags_read_at(after, replies.skip(before.len() as int), at),
    ensures
        flags_read_at(before + after, replies, before.len() + at),
        replies[before.len() + at] == replies.skip(before.len() as int)[at],
{
    let both = before + after;
    assert forall|i: int| before.len() + at < i < both.len() implies !(#[trigger] both[i]
        is ReadInterrupts) by {
        assert(both[i] == after[i - before.len()]);
    }
}

proof fn lemma_clears_read_done_after(
    before: Seq<Access>,
    after: Seq<Access>,
    replies: Seq<Reply>,
)
    requires
        before.len() + after.len() <= replies.len(),
        clears_nothing(before),
        clears_read_done(after, replies.skip(before.len() as int)),
    ensures
        clears_read_done(before + after, replies),
{
    let rest = replies.skip(before.len() as int);
    let at = choose|at: int|
        {
            &&& #[trigger] flags_read_at(after, rest, at)
            &&& rest[at].interrupts().ipcmddone
            &&& clears_last(after, rest[at].interrupts().finished())
        };
    lemma_flags_read_later(before, after, replies, at);
    lemma_clears_last_after(before, after, rest[at].interrupts().finished());
}

proof fn lemma_clears_read_errors_after(
    before: Seq<Access>,
    after: Seq<Access>,
    replies: Seq<Reply>,
)
    requires
        before.len() + after.len() <= replies.len(),
        clears_nothing(before),
        clears_read_errors(after, replies.skip(before.len() as int)),
    ensures
        clears_read_errors(before + after, replies),
{
    let rest = replies.skip(before.len() as int);
    let at = choose|at: int|
        {
            &&& #[trigger] flags_read_at(after, rest, at)
            &&& clears_failed(after, rest[at].interrupts())
        };
    lemma_flags_read_later(before, after, replies, at);
    lemma_clears_failed_after(before, after, rest[at].interrupts());
}

/// Waiting for the command to be done ends by clearing the flags that say that it finished or
/// failed, and clears nothing before. Only when the arbiter went idle there is nothing to clear.
pub proof fn lemma_wait_command_done_clears(replies: Seq<Reply>)
    ensures
        ({
            let run = wait_command_done_run(replies);
            run.outcome matches Some(result) ==> match result {
                Ok(()) => clears_read_done(run.issued, replies),
                Err(WaitCommandError::ArbiterIdle) => clears_nothing(run.issued),
                Err(_) => clears_read_errors(run.issued, replies),
            }
        }),
    decreases replies.len(),
{
    reveal(wait_command_done_run);
    let run = wait_command_done_run(replies);
    let poll = poll_run(replies);
    if run.outcome is Some {
        lemma_poll_orderly(replies);
        lemma_poll_clears(replies);
        lemma_poll_looks(replies);
        match poll.outcome->0 {
            Err(_) => {
                assert(run.issued =~= poll.issued);
            },
            Ok((idle, flags)) => {
                if flags.ipcmddone {
                    let clear = seq![Access::ClearInterrupts(flags.finished())];
                    assert(run.issued =~= poll.issued + clear);
                    assert(clears_last(clear, flags.finished()));
                    lemma_clears_last_after(poll.issued, clear, flags.finished());
                    assert(flags_read_at(run.issued, replies, 1));
                } else if idle {
                    assert(run.issued =~= poll.issued);
                } else {
                    let more = wait_command_done_run(poll.rest);
                    lemma_wait_command_done_orderly(poll.rest);
                    lemma_wait_command_done_clears(poll.rest);
                    assert(run.issued =~= poll.issued + more.issued);
                    if more.outcome->0 is Ok {
                        lemma_clears_read_done_after(poll.issued, more.issued, replies);
                    } else if more.outcome->0->Err_0 !is ArbiterIdle {
                        lemma_clears_read_errors_after(poll.issued, more.issued, replies);
                    }
                }
            },
        }
    }
}

/// Waiting for data clears nothing, unless an error is reported. So a command that is done can
/// still be waited for.
pub proof fn lemma_wait_rx_ready_clears(replies: Seq<Reply>)
    ensures
        ({
            let run = wait_rx_ready_run(replies);
            run.outcome matches Some(result) ==> match result {
                Ok(()) => clears_nothing(run.issued),
                Err(WaitCommandError::ArbiterIdle) => clears_nothing(run.issued),
                Err(_) => clears_read_errors(run.issued, replies),
            }
        }),
    decreases replies.len(),
{
    reveal(wait_rx_ready_run);
    let run = wait_rx_ready_run(replies);
    let poll = poll_run(replies);
    if run.outcome is Some {
        lemma_poll_orderly(replies);
        lemma_poll_clears(replies);
        lemma_poll_looks(replies);
        match poll.outcome->0 {
            Err(_) => {
                assert(run.issued =~= poll.issued);
            },
            Ok((idle, flags)) => {
                if flags.ipcmddone || flags.iprxwa || idle {
                    assert(run.issued =~= poll.issued);
                } else {
                    let more = wait_rx_ready_run(poll.rest);
                    lemma_wait_rx_ready_orderly(poll.rest);
                    lemma_wait_rx_ready_clears(poll.rest);
                    assert(run.issued =~= poll.issued + more.issued);
                    if more.outcome->0 is Err && more.outcome->0->Err_0 !is ArbiterIdle {
                        lemma_clears_read_errors_after(poll.issued, more.issued, replies);
                    }
                }
            },
        }
    }
}

/// Waiting for room clears nothing when there is room. When the command is done instead, the
/// flag that says so is cleared, so there is nothing left to wait for.
pub proof fn lemma_wait_tx_ready_clears(replies: Seq<Reply>)
    ensures
        ({
            let run = wait_tx_ready_run(replies);
            run.outcome matches Some(result) ==> match result {
                Ok(()) => clears_nothing(run.issued),
                Err(WaitTxReadyError::CommandFinished) => clears_read_done(run.issued, replies),
                Err(WaitTxReadyError::CommandError(WaitCommandError::ArbiterIdle)) => {
                    clears_nothing(run.issued)
                },
                Err(_) => clears_read_errors(run.issued, replies),
            }
        }),
    decreases replies.len(),
{
    reveal(wait_tx_ready_run);
    let run = wait_tx_ready_run(replies);
    let poll = poll_run(replies);
    if run.outcome is Some {
        lemma_poll_orderly(replies);
        lemma_poll_clears(replies);
        lemma_poll_looks(replies);
        match poll.outcome->0 {
            Err(_) => {
                assert(run.issued =~= poll.issued);
            },
            Ok((idle, flags)) => {
                if flags.ipcmddone {
                    let clear = seq![Access::ClearInterrupts(flags.finished())];
                    assert(run.issued =~= poll.issued + clear);
                    assert(clears_last(clear, flags.finished()));
                    lemma_clears_last_after(poll.issued, clear, flags.finished());
                    assert(flags_read_at(run.issued, replies, 1));
                } else if flags.iptxwe || idle {
                    assert(run.issued =~= poll.issued);
                } else {
                    let more = wait_tx_ready_run(poll.rest);
                    lemma_wait_tx_ready_orderly(poll.rest);
                    lemma_wait_tx_ready_clears(poll.rest);
                    assert(run.issued =~= poll.issued + more.issued);
                    if more.outcome->0 == Err::<(), _>(WaitTxReadyError::CommandFinished) {
                        lemma_clears_read_done_after(poll.issued, more.issued, replies);
                    } else if more.outcome->0 is Err && more.outcome->0->Err_0
                        != WaitTxReadyError::CommandError(WaitCommandError::ArbiterIdle) {
                        lemma_clears_read_errors_after(poll.issued, more.issued, replies);
                    }
                }
            },
        }
    }
}

/// Whether the two accesses before `end` looked at the arbiter first and at the flags then, and
/// the flags showed no error.
pub open spec fn looked(issued: Seq<Access>, replies: Seq<Reply>, end: int) -> bool {
    &&& 2 <= end <= issued.len() <= replies.len()
    &&& issued[end - 2] == Access::ReadStatus0
    &&& issued[end - 1] == Access::ReadInterrupts
    &&& !replies[end - 1].interrupts().failed()
}

/// Whether the last look showed the arbiter idle, and afterwards the command not done.
pub open spec fn went_idle(issued: Seq<Access>, replies: Seq<Reply>) -> bool {
    let end = issued.len() as int;
    &&& looked(issued, replies, end)
    &&& replies[end - 2].arbidle()
    &&& !replies[end - 1].interrupts().ipcmddone
}

proof fn lemma_poll_looks(replies: Seq<Reply>)
    ensures
        poll_run(replies).outcome matches Some(Ok((idle, flags))) ==> {
            &&& poll_run(replies).issued.len() == 2
            &&& looked(poll_run(replies).issued, replies, 2)
            &&& replies[0].arbidle() == idle
            &&& replies[1].interrupts() == flags
        },
{
    let poll = poll_run(replies);
    lemma_poll_orderly(replies);
    if poll.outcome is Some && poll.outcome->0 is Ok {
        lemma_check_ended_clears(replies.skip(1));
        assert(poll.issued =~= seq![Access::ReadStatus0, Access::ReadInterrupts]);
    }
}

/// What the waiting reports is what the last look at the peripheral showed. The command is done
/// when its flag is set, and exactly the flags that said so are cleared. The arbiter is reported
/// idle only when it was idle before the command was seen not done.
pub proof fn lemma_wait_command_done_looks(replies: Seq<Reply>)
    ensures
        ({
            let run = wait_command_done_run(replies);
            let end = run.issued.len() as int;
            &&& run.outcome == Some(Ok::<(), WaitCommandError>(())) ==> {
                &&& looked(run.issued, replies, end - 1)
                &&& replies[end - 2].interrupts().ipcmddone
                &&& run.issued[end - 1] == Access::ClearInterrupts(
                    replies[end - 2].interrupts().finished(),
                )
            }
            &&& run.outcome == Some(Err::<(), _>(WaitCommandError::ArbiterIdle)) ==> went_idle(
                run.issued,
                replies,
            )
        }),
    decreases replies.len(),
{
    reveal(wait_command_done_run);
    let run = wait_command_done_run(replies);
    let poll = poll_run(replies);
    lemma_poll_orderly(replies);
    lemma_poll_clears(replies);
    lemma_poll_looks(replies);
    if run.outcome is Some && poll.outcome->0 is Ok {
        let (idle, flags) = poll.outcome->0->Ok_0;
        if flags.ipcmddone {
            assert(run.issued =~= poll.issued + seq![Access::ClearInterrupts(flags.finished())]);
        } else if idle {
            assert(run.issued =~= poll.issued);
        } else {
            let more = wait_command_done_run(poll.rest);
            lemma_wait_command_done_looks(poll.rest);
            assert(run.issued =~= poll.issued + more.issued);
            assert(poll.rest =~= replies.skip(2));
        }
    }
}

/// What the waiting reports is what the last look at the peripheral showed: there is data when
/// the command is done or the watermark is reached.
pub proof fn lemma_wait_rx_ready_looks(replies: Seq<Reply>)
    ensures
        ({
            let run = wait_rx_ready_run(replies);
            let end = run.issued.len() as int;
            &&& run.outcome == Some(Ok::<(), WaitCommandError>(())) ==> {
                let flags = replies[end - 1].interrupts();
                &&& looked(run.issued, replies, end)
                &&& flags.ipcmddone || flags.iprxwa
            }
            &&& run.outcome == Some(Err::<(), _>(WaitCommandError::ArbiterIdle)) ==> {
                &&& went_idle(run.issued, replies)
                &&& !replies[end - 1].interrupts().iprxwa
            }
        }),
    decreases replies.len(),
{
    reveal(wait_rx_ready_run);
    let run = wait_rx_ready_run(replies);
    let poll = poll_run(replies);
    lemma_poll_orderly(replies);
    lemma_poll_clears(replies);
    lemma_poll_looks(replies);
    if run.outcome is Some && poll.outcome->0 is Ok {
        let (idle, flags) = poll.outcome->0->Ok_0;
        if flags.ipcmddone || flags.iprxwa || idle {
            assert(run.issued =~= poll.issued);
        } else {
            let more = wait_rx_ready_run(poll.rest);
            lemma_wait_rx_ready_looks(poll.rest);
            assert(run.issued =~= poll.issued + more.issued);
            assert(poll.rest =~= replies.skip(2));
        }
    }
}

/// What the waiting reports is what the last look at the peripheral showed: there is room when
/// the watermark is reached and the command is not done.
pub proof fn lemma_wait_tx_ready_looks(replies: Seq<Reply>)
    ensures
        ({
            let run = wait_tx_ready_run(replies);
            let end = run.issued.len() as int;
            &&& run.outcome == Some(Ok::<(), WaitTxReadyError>(())) ==> {
                let flags = replies[end - 1].interrupts();
                &&& looked(run.issued, replies, end)
                &&& flags.iptxwe && !flags.ipcmddone
            }
            &&& run.outcome == Some(Err::<(), _>(WaitTxReadyError::CommandFinished)) ==> {
                &&& looked(run.issued, replies, end - 1)
                &&& replies[end - 2].interrupts().ipcmddone
            }
            &&& run.outcome == Some(
                Err::<(), _>(WaitTxReadyError::CommandError(WaitCommandError::ArbiterIdle)),
            ) ==> {
                &&& went_idle(run.issued, replies)
                &&& !replies[end - 1].interrupts().iptxwe
            }
        }),
    decreases replies.len(),
{
    reveal(wait_tx_ready_run);
    let run = wait_tx_ready_run(replies);
    let poll = poll_run(replies);
    lemma_poll_orderly(replies);
    lemma_poll_clears(replies);
    lemma_poll_looks(replies);
    if run.outcome is Some && poll.outcome->0 is Ok {
        let (idle, flags) = poll.outcome->0->Ok_0;
        if flags.ipcmddone {
            assert(run.issued =~= poll.issued + seq![Access::ClearInterrupts(flags.finished())]);
        } else if flags.iptxwe || idle {
            assert(run.issued =~= poll.issued);
        } else {
            let more = wait_tx_ready_run(poll.rest);
            lemma_wait_tx_ready_looks(poll.rest);
            assert(run.issued =~= poll.issued + more.issued);
            assert(poll.rest =~= replies.skip(2));
        }
    }
}

/// Before a command sequence is started, all flags are cleared that an earlier command left behind,
/// and no others. Then come the address, everything else, and the start, in this order.
pub proof fn lemma_launch_clears(sequence: CommandSequence, replies: Seq<Reply>)
    requires
        launch_run(sequence, replies).outcome is Some,
    ensures
        ({
            let issued = launch_run(sequence, replies).issued;
            let end = issued.len() - 3;
            let flags = replies[0].interrupts();
            &&& if flags.failed() {
                clears_failed(issued.take(end), flags)
            } else {
                clears_last(issued.take(end), flags.done())
            }
            &&& issued.skip(end) == seq![
                Access::WriteIpControl0(sequence.address),
                Access::WriteIpControl1(sequence.control1()),
                Access::TriggerCommand,
            ]
        }),
{
    let run = launch_run(sequence, replies);
    let check = check_ended_run(replies);
    lemma_check_ended_clears(replies);
    let last = seq![
        Access::WriteIpControl0(sequence.address),
        Access::WriteIpControl1(sequence.control1()),
        Access::TriggerCommand,
    ];
    let first = match check.outcome->0 {
        Ok(flags) => {
            let clear = seq![Access::ClearInterrupts(flags.finished())];
            assert(clears_last(clear, flags.finished()));
            lemma_clears_last_after(check.issued, clear, flags.finished());
            assert(launch_address(sequence, check.rest.skip(1)).issued =~= last);
            check.issued + clear
        },
        Err(_) => {
            assert(launch_address(sequence, check.rest).issued =~= last);
            check.issued
        },
    };
    assert(run.issued =~= first + last);
    assert(run.issued.take(run.issued.len() - 3) =~= first);
    assert(run.issued.skip(run.issued.len() - 3) =~= last);
}

} // verus!
