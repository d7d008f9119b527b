//! What the peripheral is asked, what each answer leads to, and what is cleared.

use crate::laws::scripts::{
    lemma_exchange_plays, lemma_finished_plays, lemma_then_plays, plays,
};
use crate::peripheral::cache::{invalidate_cache_run, invalidate_start_run, invalidate_wait_run};
use crate::peripheral::check::{
    check_ended_run, check_flags_run, check_run, clear_run, command_error,
};
use crate::peripheral::command::{
    launch_address, launch_clear, launch_control, launch_run, launch_trigger,
    start_command_sequence_run,
};
use crate::peripheral::wait::{
    poll_check, poll_run, wait_command_done_run, wait_rx_ready_run, wait_tx_ready_run,
};
use crate::peripheral::{
    CommandErrorCode, CommandFailed, CommandSequence, InvalidCommandSequence, WaitCommandError,
    WaitTxReadyError,
};
use crate::procedure::{finished, Run};
use crate::registers::{Access, CacheCommand, Interrupts, IpControl1, Reply};
use vstd::prelude::*;

verus! {

/// The error that flags which were read first, and the reply after them, stand for. A failed
/// command comes before a timeout, a timeout before failed data learning, and that before a grant
/// that did not come.
pub open spec fn reported(flags: Interrupts, status1: Reply) -> WaitCommandError {
    if flags.ipcmderr {
        WaitCommandError::CommandFailed(
            CommandFailed {
                sequence_index: status1->Status1_0,
                error_code: CommandErrorCode::of_bits(status1->Status1_1),
            },
        )
    } else if flags.seqtimeout {
        WaitCommandError::ExecutionTimeout
    } else if flags.datalearnfail {
        WaitCommandError::DataLearnFailed
    } else {
        WaitCommandError::GrantTimeout
    }
}

/// Whether a flag says that the command failed.
pub open spec fn shows_error(flags: Interrupts) -> bool {
    flags.ipcmderr || flags.seqtimeout || flags.datalearnfail || flags.ipcmdge
}

/// Reading the flags and, if they show an error, reading what it was and clearing the four error
/// flags as they were read.
pub open spec fn check_script(flags: Interrupts) -> Seq<Access> {
    let clear = Access::ClearInterrupts(
        Interrupts {
            ipcmddone: false,
            ipcmdge: flags.ipcmdge,
            ipcmderr: flags.ipcmderr,
            iprxwa: false,
            iptxwe: false,
            datalearnfail: flags.datalearnfail,
            seqtimeout: flags.seqtimeout,
        },
    );
    if flags.ipcmderr {
        seq![Access::ReadInterrupts, Access::ReadStatus1, clear]
    } else if shows_error(flags) {
        seq![Access::ReadInterrupts, clear]
    } else {
        seq![Access::ReadInterrupts]
    }
}

/// Clearing the flag that says that the command is done, and no other.
pub open spec fn clear_done() -> Access {
    Access::ClearInterrupts(
        Interrupts {
            ipcmddone: true,
            ipcmdge: false,
            ipcmderr: false,
            iprxwa: false,
            iptxwe: false,
            datalearnfail: false,
            seqtimeout: false,
        },
    )
}

/// Writing to the register that clears flags, without clearing any.
pub open spec fn clear_none() -> Access {
    Access::ClearInterrupts(
        Interrupts {
            ipcmddone: false,
            ipcmdge: false,
            ipcmderr: false,
            iprxwa: false,
            iptxwe: false,
            datalearnfail: false,
            seqtimeout: false,
        },
    )
}

/// A check of the flags as above and, if they show an error and the command done at once, clearing
/// the latter as well.
pub open spec fn ended_script(flags: Interrupts) -> Seq<Access> {
    if shows_error(flags) && flags.ipcmddone {
        check_script(flags).push(clear_done())
    } else {
        check_script(flags)
    }
}

/// What a check of the flags comes to: the error if there is one, and the flags as they were read
/// if there is none.
pub open spec fn checked(flags: Interrupts, status1: Reply) -> Result<
    Interrupts,
    WaitCommandError,
> {
    if shows_error(flags) {
        Err(reported(flags, status1))
    } else {
        Ok(flags)
    }
}

proof fn lemma_clear_plays<V>(flags: Interrupts, value: V, replies: Seq<Reply>)
    ensures
        plays(
            clear_run(flags, value, replies),
            replies,
            seq![Access::ClearInterrupts(flags)],
            value,
        ),
{
    let clear = Access::ClearInterrupts(flags);
    let none = Seq::<Access>::empty();
    lemma_finished_plays(value, replies.skip(1));
    lemma_exchange_plays(clear, replies, finished(value, replies.skip(1)), none, value);
    assert(seq![clear] + none =~= seq![clear]);
}

/// What checking for errors does, access for access, and what it comes to.
pub proof fn lemma_check(replies: Seq<Reply>)
    ensures
        plays(
            check_run(replies),
            replies,
            check_script(replies[0]->Interrupts_0),
            checked(replies[0]->Interrupts_0, replies[1]),
        ),
{
    let flags = replies[0]->Interrupts_0;
    let value = checked(flags, replies[1]);
    let more = replies.skip(1);
    let next = check_flags_run(flags, more);
    let clear = Access::ClearInterrupts(flags.errors());
    if flags.ipcmderr {
        let error = Err::<Interrupts, _>(command_error(more[0]));
        let cleared = clear_run(flags.errors(), error, more.skip(1));
        lemma_clear_plays(flags.errors(), error, more.skip(1));
        lemma_exchange_plays(Access::ReadStatus1, more, cleared, seq![clear], error);
        let tail = seq![Access::ReadStatus1] + seq![clear];
        lemma_exchange_plays(Access::ReadInterrupts, replies, next, tail, error);
        assert(seq![Access::ReadInterrupts] + tail =~= check_script(flags));
        if replies.len() >= 2 {
            assert(more[0] == replies[1]);
        }
    } else if shows_error(flags) {
        lemma_clear_plays(flags.errors(), value, more);
        lemma_exchange_plays(Access::ReadInterrupts, replies, next, seq![clear], value);
        assert(seq![Access::ReadInterrupts] + seq![clear] =~= check_script(flags));
    } else {
        lemma_finished_plays(value, more);
        lemma_exchange_plays(Access::ReadInterrupts, replies, next, Seq::empty(), value);
        assert(seq![Access::ReadInterrupts] + Seq::<Access>::empty() =~= check_script(flags));
    }
}

/// What checking the flags of a command that may have ended does, access for access.
pub proof fn lemma_check_ended(replies: Seq<Reply>)
    ensures
        plays(
            check_ended_run(replies),
            replies,
            ended_script(replies[0]->Interrupts_0),
            checked(replies[0]->Interrupts_0, replies[1]),
        ),
{
    reveal(check_ended_run);
    let flags = replies[0]->Interrupts_0;
    let value = checked(flags, replies[1]);
    let check = check_run(replies);
    lemma_check(replies);
    if shows_error(flags) && flags.ipcmddone {
        lemma_clear_plays(flags.done(), value, check.rest);
        assert(Access::ClearInterrupts(flags.done()) == clear_done());
        lemma_then_plays(
            check,
            clear_run(flags.done(), value, check.rest),
            replies,
            check_script(flags),
            value,
            seq![clear_done()],
            value,
        );
        assert(check_script(flags) + seq![clear_done()] =~= ended_script(flags));
    } else {
        lemma_finished_plays(value, check.rest);
        lemma_then_plays(
            check,
            finished(value, check.rest),
            replies,
            check_script(flags),
            value,
            Seq::empty(),
            value,
        );
        assert(check_script(flags) + Seq::<Access>::empty() =~= ended_script(flags));
    }
}

/// Clearing what an earlier command left behind; then the address, and the register with the index,
/// the number of sequences less one, the data size and the mode; then the trigger.
pub open spec fn start_script(
    start: u8,
    count: u8,
    address: u32,
    data_size: u16,
    parallel: bool,
    flags: Interrupts,
) -> Seq<Access> {
    let left = if shows_error(flags) {
        ended_script(flags)
    } else if flags.ipcmddone {
        seq![Access::ReadInterrupts, clear_done()]
    } else {
        seq![Access::ReadInterrupts, clear_none()]
    };
    let iseqnum = if count == 0 {
        0u8
    } else {
        (count - 1) as u8
    };
    left + seq![
        Access::WriteIpControl0(address),
        Access::WriteIpControl1(
            IpControl1 { idatsz: data_size, iseqid: start, iseqnum, iparen: parallel },
        ),
        Access::TriggerCommand,
    ]
}

/// What starting a valid command sequence does, access for access.
pub proof fn lemma_launch(sequence: CommandSequence, replies: Seq<Reply>)
    ensures
        plays(
            launch_run(sequence, replies),
            replies,
            start_script(
                sequence.start,
                sequence.count,
                sequence.address,
                sequence.data_size,
                sequence.parallel,
                replies[0]->Interrupts_0,
            ),
            (),
        ),
{
    let flags = replies[0]->Interrupts_0;
    let value = checked(flags, replies[1]);
    let check = check_ended_run(replies);
    lemma_check_ended(replies);
    let address = Access::WriteIpControl0(sequence.address);
    let control = Access::WriteIpControl1(sequence.control1());
    let trigger = Access::TriggerCommand;
    let last = seq![address] + (seq![control] + (seq![trigger] + Seq::<Access>::empty()));
    let script = start_script(
        sequence.start,
        sequence.count,
        sequence.address,
        sequence.data_size,
        sequence.parallel,
        flags,
    );
    assert(last =~= seq![address, control, trigger]);
    if shows_error(flags) {
        lemma_address_plays(sequence, check.rest);
        lemma_then_plays(
            check,
            launch_address(sequence, check.rest),
            replies,
            ended_script(flags),
            value,
            last,
            (),
        );
        assert(ended_script(flags) + last =~= script);
    } else {
        let clear = Access::ClearInterrupts(flags.finished());
        lemma_address_plays(sequence, check.rest.skip(1));
        lemma_exchange_plays(
            clear,
            check.rest,
            launch_address(sequence, check.rest.skip(1)),
            last,
            (),
        );
        lemma_then_plays(
            check,
            launch_clear(sequence, flags, check.rest),
            replies,
            ended_script(flags),
            value,
            seq![clear] + last,
            (),
        );
        assert(clear == if flags.ipcmddone {
            clear_done()
        } else {
            clear_none()
        });
        assert(ended_script(flags) + (seq![clear] + last) =~= script);
    }
}

proof fn lemma_address_plays(sequence: CommandSequence, replies: Seq<Reply>)
    ensures
        plays(
            launch_address(sequence, replies),
            replies,
            seq![Access::WriteIpControl0(sequence.address)] + (seq![
                Access::WriteIpControl1(sequence.control1()),
            ] + (seq![Access::TriggerCommand] + Seq::<Access>::empty())),
            (),
        ),
{
    let none = Seq::<Access>::empty();
    let third = replies.skip(1).skip(1);
    lemma_finished_plays((), third.skip(1));
    lemma_exchange_plays(Access::TriggerCommand, third, finished((), third.skip(1)), none, ());
    lemma_exchange_plays(
        Access::WriteIpControl1(sequence.control1()),
        replies.skip(1),
        launch_trigger(third),
        seq![Access::TriggerCommand] + none,
        (),
    );
    lemma_exchange_plays(
        Access::WriteIpControl0(sequence.address),
        replies,
        launch_control(sequence, replies.skip(1)),
        seq![Access::WriteIpControl1(sequence.control1())] + (seq![Access::TriggerCommand] + none),
        (),
    );
}

/// Whether the run starts the command sequence, access for access: it does nothing, and says so,
/// where the sequence does not fall within the LUT.
pub open spec fn starts(
    run: Run<Result<(), InvalidCommandSequence>>,
    sequence: CommandSequence,
    replies: Seq<Reply>,
) -> bool {
    let fits = if sequence.count <= 1 {
        sequence.start <= 31
    } else {
        sequence.start + sequence.count <= 31
    };
    if fits {
        plays(
            run,
            replies,
            start_script(
                sequence.start,
                sequence.count,
                sequence.address,
                sequence.data_size,
                sequence.parallel,
                replies[0]->Interrupts_0,
            ),
            Ok::<(), InvalidCommandSequence>(()),
        )
    } else {
        plays(
            run,
            replies,
            Seq::<Access>::empty(),
            Err::<(), InvalidCommandSequence>(
                InvalidCommandSequence { start: sequence.start, count: sequence.count },
            ),
        )
    }
}

/// What starting a command sequence does, access for access.
pub proof fn lemma_start(sequence: CommandSequence, replies: Seq<Reply>)
    ensures
        starts(start_command_sequence_run(sequence, replies), sequence, replies),
{
    if sequence.valid() {
        let launch = launch_run(sequence, replies);
        lemma_launch(sequence, replies);
        lemma_finished_plays(Ok::<(), InvalidCommandSequence>(()), launch.rest);
        let script = start_script(
            sequence.start,
            sequence.count,
            sequence.address,
            sequence.data_size,
            sequence.parallel,
            replies[0]->Interrupts_0,
        );
        lemma_then_plays(
            launch,
            finished(Ok::<(), InvalidCommandSequence>(()), launch.rest),
            replies,
            script,
            (),
            Seq::empty(),
            Ok(()),
        );
        assert(script + Seq::<Access>::empty() =~= script);
    } else {
        lemma_finished_plays(
            Err::<(), _>(
                InvalidCommandSequence { start: sequence.start, count: sequence.count },
            ),
            replies,
        );
    }
}

/// Looking once: at the arbiter first, and at the flags then.
pub open spec fn look_script(flags: Interrupts) -> Seq<Access> {
    seq![Access::ReadStatus0] + ended_script(flags)
}

proof fn lemma_poll(replies: Seq<Reply>)
    ensures
        plays(
            poll_run(replies),
            replies,
            look_script(replies[1]->Interrupts_0),
            match checked(replies[1]->Interrupts_0, replies[2]) {
                Ok(flags) => Ok((replies[0]->Status0_0, flags)),
                Err(error) => Err(error),
            },
        ),
{
    let more = replies.skip(1);
    let check = check_ended_run(more);
    lemma_check_ended(more);
    let idle = replies[0]->Status0_0;
    let found = checked(more[0]->Interrupts_0, more[1]);
    let value = match found {
        Ok(flags) => Ok((idle, flags)),
        Err(error) => Err(error),
    };
    lemma_finished_plays(value, check.rest);
    lemma_then_plays(
        check,
        finished(value, check.rest),
        more,
        ended_script(more[0]->Interrupts_0),
        found,
        Seq::empty(),
        value,
    );
    let script = ended_script(more[0]->Interrupts_0);
    assert(script + Seq::<Access>::empty() =~= script);
    lemma_exchange_plays(
        Access::ReadStatus0,
        replies,
        poll_check(idle, check),
        script,
        value,
    );
    let actual = look_script(replies[1]->Interrupts_0);
    if replies.len() >= 2 {
        assert(more[0] == replies[1]);
        if replies.len() >= 3 {
            assert(more[1] == replies[2]);
        }
    } else {
        let opening = seq![Access::ReadStatus0, Access::ReadInterrupts];
        assert((seq![Access::ReadStatus0] + script).take(replies.len() as int + 1)
            =~= actual.take(replies.len() as int + 1));
    }
}

/// Whether a look that has got its two replies leaves it open how the command ends.
pub open spec fn undecided(idle: bool, flags: Interrupts) -> bool {
    !idle && !flags.ipcmddone && !shows_error(flags)
}

/// Waiting for the command to be done takes one look after the other. The first that shows an error
/// ends it with that error, the first that shows the command done ends it well and clears that
/// flag, and the first that shows neither and the arbiter idle ends it with that.
pub proof fn lemma_wait_command_done(replies: Seq<Reply>)
    ensures
        ({
            let run = wait_command_done_run(replies);
            let idle = replies[0]->Status0_0;
            let flags = replies[1]->Interrupts_0;
            if replies.len() >= 2 && undecided(idle, flags) {
                let next = wait_command_done_run(replies.skip(2));
                &&& run.issued == seq![Access::ReadStatus0, Access::ReadInterrupts] + next.issued
                &&& run.outcome == next.outcome
                &&& run.rest == next.rest
            } else if shows_error(flags) {
                plays(
                    run,
                    replies,
                    look_script(flags),
                    Err::<(), WaitCommandError>(reported(flags, replies[2])),
                )
            } else if flags.ipcmddone {
                plays(
                    run,
                    replies,
                    seq![Access::ReadStatus0, Access::ReadInterrupts, clear_done()],
                    Ok::<(), WaitCommandError>(()),
                )
            } else {
                plays(
                    run,
                    replies,
                    seq![Access::ReadStatus0, Access::ReadInterrupts],
                    Err::<(), WaitCommandError>(WaitCommandError::ArbiterIdle),
                )
            }
        }),
{
    reveal(wait_command_done_run);
    let run = wait_command_done_run(replies);
    let poll = poll_run(replies);
    let flags = replies[1]->Interrupts_0;
    let both = seq![Access::ReadStatus0, Access::ReadInterrupts];
    lemma_poll(replies);
    if !shows_error(flags) {
        assert(look_script(flags) =~= both);
    }
    let none = Seq::<Access>::empty();
    if poll.outcome is None {
        assert(run.issued == poll.issued);
        if !shows_error(flags) && flags.ipcmddone {
            let script = seq![Access::ReadStatus0, Access::ReadInterrupts, clear_done()];
            assert(script.take(replies.len() as int + 1) =~= both.take(replies.len() as int + 1));
        }
    } else if shows_error(flags) {
        assert(poll.issued + none =~= poll.issued);
    } else if flags.ipcmddone {
        assert(flags.finished() == clear_done()->ClearInterrupts_0);
        lemma_clear_plays(flags.finished(), Ok::<(), WaitCommandError>(()), poll.rest);
        lemma_then_plays(
            poll,
            clear_run(flags.finished(), Ok::<(), WaitCommandError>(()), poll.rest),
            replies,
            both,
            poll.outcome->0,
            seq![clear_done()],
            Ok(()),
        );
        assert(both + seq![clear_done()] =~= seq![
            Access::ReadStatus0,
            Access::ReadInterrupts,
            clear_done(),
        ]);
    } else if replies[0]->Status0_0 {
        assert(poll.issued + none =~= poll.issued);
    }
}

/// Waiting for data takes one look after the other. The first that shows an error ends it with that
/// error, the first that shows the command done or a watermark of data ends it well without
/// clearing anything, and the first that shows none of them and the arbiter idle ends it with that.
pub proof fn lemma_wait_rx_ready(replies: Seq<Reply>)
    ensures
        ({
            let run = wait_rx_ready_run(replies);
            let idle = replies[0]->Status0_0;
            let flags = replies[1]->Interrupts_0;
            if replies.len() >= 2 && undecided(idle, flags) && !flags.iprxwa {
                let next = wait_rx_ready_run(replies.skip(2));
                &&& run.issued == seq![Access::ReadStatus0, Access::ReadInterrupts] + next.issued
                &&& run.outcome == next.outcome
                &&& run.rest == next.rest
            } else if shows_error(flags) {
                plays(
                    run,
                    replies,
                    look_script(flags),
                    Err::<(), WaitCommandError>(reported(flags, replies[2])),
                )
            } else {
                plays(
                    run,
                    replies,
                    seq![Access::ReadStatus0, Access::ReadInterrupts],
                    if flags.ipcmddone || flags.iprxwa {
                        Ok::<(), WaitCommandError>(())
                    } else {
                        Err(WaitCommandError::ArbiterIdle)
                    },
                )
            }
        }),
{
    reveal(wait_rx_ready_run);
    let run = wait_rx_ready_run(replies);
    let poll = poll_run(replies);
    let flags = replies[1]->Interrupts_0;
    lemma_poll(replies);
    if !shows_error(flags) {
        assert(look_script(flags) =~= seq![Access::ReadStatus0, Access::ReadInterrupts]);
    }
    if poll.outcome is None {
        assert(run.issued == poll.issued);
    } else {
        assert(poll.issued + Seq::<Access>::empty() =~= poll.issued);
    }
}

/// Waiting for room takes one look after the other. The first that shows an error ends it with that
/// error, the first that shows the command done ends it with that and clears the flag, the first
/// that shows room and the command not done ends it well, and the first that shows none of them and
/// the arbiter idle ends it with that.
pub proof fn lemma_wait_tx_ready(replies: Seq<Reply>)
    ensures
        ({
            let run = wait_tx_ready_run(replies);
            let idle = replies[0]->Status0_0;
            let flags = replies[1]->Interrupts_0;
            if replies.len() >= 2 && undecided(idle, flags) && !flags.iptxwe {
                let next = wait_tx_ready_run(replies.skip(2));
                &&& run.issued == seq![Access::ReadStatus0, Access::ReadInterrupts] + next.issued
                &&& run.outcome == next.outcome
                &&& run.rest == next.rest
            } else if shows_error(flags) {
                plays(
                    run,
                    replies,
                    look_script(flags),
                    Err::<(), WaitTxReadyError>(
                        WaitTxReadyError::CommandError(reported(flags, replies[2])),
                    ),
                )
            } else if flags.ipcmddone {
                plays(
                    run,
                    replies,
                    seq![Access::ReadStatus0, Access::ReadInterrupts, clear_done()],
                    Err::<(), WaitTxReadyError>(WaitTxReadyError::CommandFinished),
                )
            } else {
                plays(
                    run,
                    replies,
                    seq![Access::ReadStatus0, Access::ReadInterrupts],
                    if flags.iptxwe {
                        Ok::<(), WaitTxReadyError>(())
                    } else {
                        Err(WaitTxReadyError::CommandError(WaitCommandError::ArbiterIdle))
                    },
                )
            }
        }),
{
    reveal(wait_tx_ready_run);
    let run = wait_tx_ready_run(replies);
    let poll = poll_run(replies);
    let flags = replies[1]->Interrupts_0;
    let both = seq![Access::ReadStatus0, Access::ReadInterrupts];
    lemma_poll(replies);
    if !shows_error(flags) {
        assert(look_script(flags) =~= both);
    }
    if poll.outcome is None {
        assert(run.issued == poll.issued);
        if !shows_error(flags) && flags.ipcmddone {
            let script = seq![Access::ReadStatus0, Access::ReadInterrupts, clear_done()];
            assert(script.take(replies.len() as int + 1) =~= both.take(replies.len() as int + 1));
        }
    } else if !shows_error(flags) && flags.ipcmddone {
        let value = Err::<(), _>(WaitTxReadyError::CommandFinished);
        assert(flags.finished() == clear_done()->ClearInterrupts_0);
        lemma_clear_plays(flags.finished(), value, poll.rest);
        lemma_then_plays(
            poll,
            clear_run(flags.finished(), value, poll.rest),
            replies,
            both,
            poll.outcome->0,
            seq![clear_done()],
            value,
        );
        assert(both + seq![clear_done()] =~= seq![
            Access::ReadStatus0,
            Access::ReadInterrupts,
            clear_done(),
        ]);
    } else {
        assert(poll.issued + Seq::<Access>::empty() =~= poll.issued);
    }
}

/// Whether the run makes `access` and goes on as `next` once the reply to it is there.
pub open spec fn makes_first<V>(
    run: Run<V>,
    replies: Seq<Reply>,
    access: Access,
    next: Run<V>,
) -> bool {
    if replies.len() == 0 {
        plays(run, replies, seq![access], arbitrary::<V>())
    } else {
        &&& run.issued == seq![access] + next.issued
        &&& run.outcome == next.outcome
        &&& run.rest == next.rest
    }
}

/// Starting a command of the cache controller that invalidates both ways and pushes neither.
pub open spec fn start_invalidating() -> Access {
    Access::StartCacheCommand(
        CacheCommand { invw0: true, pushw0: false, invw1: true, pushw1: false, go: true },
    )
}

/// Invalidating the cache reads until the controller is idle, then tries to start the command, and
/// begins anew if it was not started.
pub proof fn lemma_invalidate(replies: Seq<Reply>)
    ensures
        makes_first(
            invalidate_cache_run(replies),
            replies,
            Access::ReadCacheGo,
            if replies[0]->CacheGo_0 {
                invalidate_cache_run(replies.skip(1))
            } else {
                invalidate_start_run(replies.skip(1))
            },
        ),
        makes_first(
            invalidate_start_run(replies),
            replies,
            start_invalidating(),
            if replies[0]->CacheStarted_0 {
                invalidate_wait_run(replies.skip(1))
            } else {
                invalidate_cache_run(replies.skip(1))
            },
        ),
        makes_first(
            invalidate_wait_run(replies),
            replies,
            Access::ReadCacheGo,
            if replies[0]->CacheGo_0 {
                invalidate_wait_run(replies.skip(1))
            } else {
                Run { issued: Seq::empty(), outcome: Some(()), rest: replies.skip(1) }
            },
        ),
{
    reveal(invalidate_cache_run);
    reveal(invalidate_start_run);
    reveal(invalidate_wait_run);
    assert(seq![Access::ReadCacheGo].take(1) =~= seq![Access::ReadCacheGo]);
    assert(seq![start_invalidating()].take(1) =~= seq![start_invalidating()]);
}

} // verus!
