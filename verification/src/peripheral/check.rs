//! Checking the interrupt flags for a command that failed.

use crate::peripheral::{CommandErrorCode, CommandFailed, WaitCommandError};
use crate::procedure::{exchange, finished, group_orderly, group_procedure, then, Procedure, Run};
use crate::registers::{Access, Interrupts, Reply};
use vstd::prelude::*;

verus! {

broadcast use group_procedure;

/// Clearing `flags`, and then being over.
pub open spec fn clear_run<V>(flags: Interrupts, value: V, replies: Seq<Reply>) -> Run<V> {
    exchange(Access::ClearInterrupts(flags), replies, finished(value, replies.skip(1)))
}

/// Checking the interrupt flags.
///
/// A flag that says that a command failed is reported and cleared, together with every other set
/// flag that says so. Without one nothing is cleared.
pub open spec fn check_run(replies: Seq<Reply>) -> Run<Result<Interrupts, WaitCommandError>> {
    exchange(
        Access::ReadInterrupts,
        replies,
        check_flags_run(replies[0].interrupts(), replies.skip(1)),
    )
}

/// Checking the interrupt flags, once they have been read.
///
/// What went wrong with a failed command is read before the flags are cleared.
pub open spec fn check_flags_run(flags: Interrupts, replies: Seq<Reply>) -> Run<
    Result<Interrupts, WaitCommandError>,
> {
    if flags.ipcmderr {
        exchange(
            Access::ReadStatus1,
            replies,
            clear_run(flags.errors(), Err(command_error(replies[0])), replies.skip(1)),
        )
    } else if flags.seqtimeout {
        clear_run(flags.errors(), Err(WaitCommandError::ExecutionTimeout), replies)
    } else if flags.datalearnfail {
        clear_run(flags.errors(), Err(WaitCommandError::DataLearnFailed), replies)
    } else if flags.ipcmdge {
        clear_run(flags.errors(), Err(WaitCommandError::GrantTimeout), replies)
    } else {
        finished(Ok(flags), replies)
    }
}

/// The error that the second status register reports.
pub open spec fn command_error(status1: Reply) -> WaitCommandError {
    WaitCommandError::CommandFailed(
        CommandFailed {
            sequence_index: status1->Status1_0,
            error_code: CommandErrorCode::of_bits(status1->Status1_1),
        },
    )
}

/// Checking the interrupt flags is orderly.
pub proof fn lemma_check_orderly(replies: Seq<Reply>)
    ensures
        check_run(replies).orderly(replies),
{
    broadcast use group_orderly;

}

/// Checking the interrupt flags of a command that may have ended.
///
/// A command that failed can be flagged done as well. That flag is cleared after the others, so
/// that nothing of a failed command stays flagged.
#[verifier::opaque]
pub open spec fn check_ended_run(replies: Seq<Reply>) -> Run<
    Result<Interrupts, WaitCommandError>,
> {
    check_ended_checked(replies[0].interrupts(), check_run(replies))
}

/// Checking the interrupt flags of a command that may have ended, from the point where `check`
/// checks them, and finds `flags`.
pub open spec fn check_ended_checked(
    flags: Interrupts,
    check: Run<Result<Interrupts, WaitCommandError>>,
) -> Run<Result<Interrupts, WaitCommandError>> {
    then(
        check,
        if check.outcome->0 is Err && flags.ipcmddone {
            clear_run(flags.done(), check.outcome->0, check.rest)
        } else {
            finished(check.outcome->0, check.rest)
        },
    )
}

/// Checking the interrupt flags of a command that may have ended is orderly.
pub proof fn lemma_check_ended_orderly(replies: Seq<Reply>)
    ensures
        check_ended_run(replies).orderly(replies),
        check_ended_run(replies).issued.len() > 0,
{
    broadcast use group_orderly;

    reveal(check_ended_run);
    lemma_check_orderly(replies);
}

/// The flags to clear, once a command has failed, of those that are set.
///
/// Flags that are not set in the input are not set in the output.
fn command_error_bits(interrupts: &Interrupts) -> (bits: Interrupts)
    ensures
        bits == interrupts.errors(),
{
    Interrupts {
        ipcmddone: false,
        ipcmdge: interrupts.ipcmdge,
        ipcmderr: interrupts.ipcmderr,
        iprxwa: false,
        iptxwe: false,
        datalearnfail: interrupts.datalearnfail,
        seqtimeout: interrupts.seqtimeout,
    }
}

/// The flags to clear, once a command has finished, of those that are set.
///
/// Flags that are not set in the input are not set in the output.
pub fn command_finished_bits(interrupts: &Interrupts) -> (bits: Interrupts)
    ensures
        bits == interrupts.finished(),
{
    Interrupts {
        ipcmddone: interrupts.ipcmddone,
        ipcmdge: interrupts.ipcmdge,
        ipcmderr: interrupts.ipcmderr,
        iprxwa: false,
        iptxwe: false,
        datalearnfail: interrupts.datalearnfail,
        seqtimeout: interrupts.seqtimeout,
    }
}

/// Checks the interrupt flags for a command that failed.
#[derive(Copy, Clone, Debug)]
pub struct CheckErrors {
    phase: CheckPhase,
}

#[derive(Copy, Clone, Debug)]
enum CheckPhase {
    ReadFlags,
    ReadError(Interrupts),
    Clear(Interrupts, WaitCommandError),
    Over(Result<Interrupts, WaitCommandError>),
}

impl CheckErrors {
    /// Starts with reading the flags.
    pub fn new() -> (check: Self)
        ensures
            check.inv(),
            forall|replies: Seq<Reply>| #[trigger] check.run(replies) == check_run(replies),
    {
        CheckErrors { phase: CheckPhase::ReadFlags }
    }
}

impl Procedure for CheckErrors {
    type Output = Result<Interrupts, WaitCommandError>;

    type Value = Result<Interrupts, WaitCommandError>;

    open spec fn value(output: Self::Output) -> Self::Value {
        output
    }

    closed spec fn inv(&self) -> bool {
        true
    }

    closed spec fn run(&self, replies: Seq<Reply>) -> Run<Self::Value> {
        match self.phase {
            CheckPhase::ReadFlags => check_run(replies),
            CheckPhase::ReadError(flags) => exchange(
                Access::ReadStatus1,
                replies,
                clear_run(flags.errors(), Err(command_error(replies[0])), replies.skip(1)),
            ),
            CheckPhase::Clear(flags, error) => clear_run(flags.errors(), Err(error), replies),
            CheckPhase::Over(result) => finished(result, replies),
        }
    }

    fn pending(&self) -> (access: Option<Access>) {
        match self.phase {
            CheckPhase::ReadFlags => Some(Access::ReadInterrupts),
            CheckPhase::ReadError(_) => Some(Access::ReadStatus1),
            CheckPhase::Clear(flags, _) => Some(
                Access::ClearInterrupts(command_error_bits(&flags)),
            ),
            CheckPhase::Over(_) => None,
        }
    }

    fn step(self, reply: Reply) -> (next: Self) {
        let phase = match (self.phase, reply) {
            (CheckPhase::ReadFlags, Reply::Interrupts(flags)) => {
                if flags.ipcmderr {
                    CheckPhase::ReadError(flags)
                } else if flags.seqtimeout {
                    CheckPhase::Clear(flags, WaitCommandError::ExecutionTimeout)
                } else if flags.datalearnfail {
                    CheckPhase::Clear(flags, WaitCommandError::DataLearnFailed)
                } else if flags.ipcmdge {
                    CheckPhase::Clear(flags, WaitCommandError::GrantTimeout)
                } else {
                    CheckPhase::Over(Ok(flags))
                }
            },
            (CheckPhase::ReadError(flags), Reply::Status1(sequence_index, code)) => {
                let error_code = CommandErrorCode::from_pac(code);
                let failed = CommandFailed { sequence_index, error_code };
                CheckPhase::Clear(flags, WaitCommandError::CommandFailed(failed))
            },
            (CheckPhase::Clear(_, error), _) => CheckPhase::Over(Err(error)),
            _ => unreached(),
        };
        CheckErrors { phase }
    }

    fn finish(self) -> (output: Self::Output) {
        match self.phase {
            CheckPhase::Over(result) => result,
            _ => unreached(),
        }
    }
}

/// Checks the interrupt flags of a command that may have ended.
#[derive(Copy, Clone, Debug)]
pub struct CheckEnded {
    phase: EndedPhase,
}

#[derive(Copy, Clone, Debug)]
enum EndedPhase {
    ReadFlags,
    Check(Interrupts, CheckErrors),
    Clear(Interrupts, WaitCommandError),
    Over(Result<Interrupts, WaitCommandError>),
}

impl CheckEnded {
    /// Starts with reading the flags.
    pub fn new() -> (check: Self)
        ensures
            check.inv(),
            forall|replies: Seq<Reply>| #[trigger] check.run(replies) == check_ended_run(replies),
    {
        CheckEnded { phase: EndedPhase::ReadFlags }
    }

    fn checking(flags: Interrupts, check: CheckErrors) -> (ended: Self)
        requires
            check.inv(),
        ensures
            ended.inv(),
            forall|replies: Seq<Reply>|
                #[trigger] ended.run(replies) == check_ended_checked(flags, check.run(replies)),
    {
        if check.pending().is_some() {
            return CheckEnded { phase: EndedPhase::Check(flags, check) };
        }
        match check.finish() {
            Err(error) if flags.ipcmddone => CheckEnded { phase: EndedPhase::Clear(flags, error) },
            result => CheckEnded { phase: EndedPhase::Over(result) },
        }
    }
}

impl Procedure for CheckEnded {
    type Output = Result<Interrupts, WaitCommandError>;

    type Value = Result<Interrupts, WaitCommandError>;

    open spec fn value(output: Self::Output) -> Self::Value {
        output
    }

    closed spec fn inv(&self) -> bool {
        match self.phase {
            EndedPhase::Check(_, check) => check.inv() && check.run(Seq::empty()).outcome is None,
            _ => true,
        }
    }

    closed spec fn run(&self, replies: Seq<Reply>) -> Run<Self::Value> {
        match self.phase {
            EndedPhase::ReadFlags => check_ended_run(replies),
            EndedPhase::Check(flags, check) => check_ended_checked(flags, check.run(replies)),
            EndedPhase::Clear(flags, error) => clear_run(flags.done(), Err(error), replies),
            EndedPhase::Over(result) => finished(result, replies),
        }
    }

    fn pending(&self) -> (access: Option<Access>) {
        reveal(check_ended_run);
        match &self.phase {
            EndedPhase::ReadFlags => Some(Access::ReadInterrupts),
            EndedPhase::Check(_, check) => check.pending(),
            EndedPhase::Clear(flags, _) => Some(
                Access::ClearInterrupts(
                    Interrupts {
                        ipcmddone: flags.ipcmddone,
                        ipcmdge: false,
                        ipcmderr: false,
                        iprxwa: false,
                        iptxwe: false,
                        datalearnfail: false,
                        seqtimeout: false,
                    },
                ),
            ),
            EndedPhase::Over(_) => None,
        }
    }

    fn step(self, reply: Reply) -> (next: Self) {
        reveal(check_ended_run);
        match (self.phase, reply) {
            (EndedPhase::ReadFlags, Reply::Interrupts(flags)) => {
                CheckEnded::checking(flags, CheckErrors::new().step(reply))
            },
            (EndedPhase::Check(flags, check), _) => CheckEnded::checking(flags, check.step(reply)),
            (EndedPhase::Clear(_, error), _) => CheckEnded { phase: EndedPhase::Over(Err(error)) },
            _ => unreached(),
        }
    }

    fn finish(self) -> (output: Self::Output) {
        reveal(check_ended_run);
        match self.phase {
            EndedPhase::Over(result) => result,
            _ => unreached(),
        }
    }
}

} // verus!
