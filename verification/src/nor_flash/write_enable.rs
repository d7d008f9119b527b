//! The write-enable latch, and waiting for a write to end.

use crate::nor_flash::sequence::WRITE_ENABLE_XPI;
use crate::nor_flash::status::{
    lemma_read_status_orderly, lemma_run_command_orderly, read_status_run, run_command_run,
    ReadStatus, RunCommand,
};
use crate::nor_flash::{ReadError, Status, WriteError};
use crate::peripheral::{CommandSequence, WaitCommandError};
use crate::procedure::{finished, group_orderly, group_procedure, then, Procedure, Run};
use crate::registers::{Access, Reply};
use vstd::prelude::*;

verus! {

broadcast use group_procedure;

/// How often the write-enable latch is tried to be set.
pub const WRITE_ENABLE_ATTEMPTS: u8 = 10;

/// The command that sets the write-enable latch.
pub open spec fn write_enable_sequence() -> CommandSequence {
    CommandSequence {
        start: WRITE_ENABLE_XPI,
        count: 1,
        address: 0,
        data_size: 0,
        parallel: false,
    }
}

/// Setting the write-enable latch, without verifying that it is set.
pub open spec fn set_write_enable_run(replies: Seq<Reply>) -> Run<Result<(), WaitCommandError>> {
    run_command_run(write_enable_sequence(), replies)
}

/// Setting the write-enable latch, and verifying that it is set.
pub open spec fn enable_write_run(replies: Seq<Reply>) -> Run<Result<(), WriteError>> {
    enable_write_status(read_status_run(replies), WRITE_ENABLE_ATTEMPTS as nat)
}

/// Setting and verifying the write-enable latch, from the point where `status` reads the status,
/// with as many attempts left to set the latch.
#[verifier::opaque]
pub open spec fn enable_write_status(
    status: Run<Result<Status, ReadError>>,
    attempts: nat,
) -> Run<Result<(), WriteError>>
    decreases attempts, 0int,
{
    then(
        status,
        match status.outcome->0 {
            Err(error) => finished(Err(WriteError::ReadStatus(error)), status.rest),
            Ok(read) => {
                if read.busy() {
                    finished(Err(WriteError::WriteInProgress), status.rest)
                } else if read.writable() {
                    finished(Ok(()), status.rest)
                } else if attempts == 0 {
                    finished(Err(WriteError::WriteEnableFailed), status.rest)
                } else {
                    enable_write_set(set_write_enable_run(status.rest), (attempts - 1) as nat)
                }
            },
        },
    )
}

/// Setting and verifying the write-enable latch, from the point where `set` sets it.
#[verifier::opaque]
pub open spec fn enable_write_set(
    set: Run<Result<(), WaitCommandError>>,
    attempts: nat,
) -> Run<Result<(), WriteError>>
    decreases attempts, 1int,
{
    then(
        set,
        match set.outcome->0 {
            Err(error) => finished(Err(WriteError::SetWriteEnable(error)), set.rest),
            Ok(()) => enable_write_status(read_status_run(set.rest), attempts),
        },
    )
}

/// Waiting for a write not to be in progress, by reading the status until it says so.
#[verifier::opaque]
pub open spec fn wait_write_run(replies: Seq<Reply>) -> Run<Result<(), WriteError>>
    decreases replies.len(), 0int,
{
    let status = read_status_run(replies);
    if status.outcome is Some {
        proof {
            lemma_read_status_orderly(replies);
        }
        wait_write_status(status)
    } else {
        Run { issued: status.issued, outcome: None, rest: status.rest }
    }
}

/// Waiting for a write not to be in progress, from the point where `status` reads the status.
pub open spec fn wait_write_status(status: Run<Result<Status, ReadError>>) -> Run<
    Result<(), WriteError>,
>
    decreases status.rest.len(), 1int,
{
    then(
        status,
        match status.outcome->0 {
            Err(error) => finished(Err(WriteError::ReadStatus(error)), status.rest),
            Ok(read) => {
                if read.busy() {
                    wait_write_run(status.rest)
                } else {
                    finished(Ok(()), status.rest)
                }
            },
        },
    )
}

proof fn lemma_enable_write_status_orderly(
    status: Run<Result<Status, ReadError>>,
    attempts: nat,
    replies: Seq<Reply>,
)
    requires
        status.orderly(replies),
    ensures
        enable_write_status(status, attempts).orderly(replies),
    decreases attempts,
{
    broadcast use group_orderly;

    reveal(enable_write_status);
    reveal(enable_write_set);
    if status.outcome is Some && attempts > 0 {
        let set = set_write_enable_run(status.rest);
        lemma_run_command_orderly(write_enable_sequence(), status.rest);
        lemma_read_status_orderly(set.rest);
        lemma_enable_write_status_orderly(
            read_status_run(set.rest),
            (attempts - 1) as nat,
            set.rest,
        );
    }
}

/// Setting and verifying the write-enable latch is orderly.
pub proof fn lemma_enable_write_orderly(replies: Seq<Reply>)
    ensures
        enable_write_run(replies).orderly(replies),
{
    lemma_read_status_orderly(replies);
    lemma_enable_write_status_orderly(
        read_status_run(replies),
        WRITE_ENABLE_ATTEMPTS as nat,
        replies,
    );
}

/// Waiting for a write not to be in progress is orderly.
pub proof fn lemma_wait_write_orderly(replies: Seq<Reply>)
    ensures
        wait_write_run(replies).orderly(replies),
    decreases replies.len(),
{
    broadcast use group_orderly;

    reveal(wait_write_run);
    lemma_read_status_orderly(replies);
    let status = read_status_run(replies);
    if status.outcome is Some {
        lemma_wait_write_orderly(status.rest);
    }
}

/// Sets the write-enable latch, and verifies that it is set.
#[derive(Debug)]
pub struct EnableWrite {
    attempts: u8,
    phase: EnablePhase,
}

#[derive(Debug)]
enum EnablePhase {
    Status(ReadStatus),
    Latch(RunCommand),
    Over(Result<(), WriteError>),
}

impl EnableWrite {
    /// Starts with the status.
    pub fn new() -> (enable: Self)
        ensures
            enable.inv(),
            forall|replies: Seq<Reply>| #[trigger] enable.run(replies) == enable_write_run(replies),
    {
        EnableWrite::reading(ReadStatus::new(), WRITE_ENABLE_ATTEMPTS)
    }

    fn reading(status: ReadStatus, attempts: u8) -> (enable: Self)
        requires
            status.inv(),
        ensures
            enable.inv(),
            forall|replies: Seq<Reply>|
                #[trigger] enable.run(replies) == enable_write_status(
                    status.run(replies),
                    attempts as nat,
                ),
    {
        reveal(enable_write_status);
        reveal(enable_write_set);
        if status.pending().is_some() {
            return EnableWrite { attempts, phase: EnablePhase::Status(status) };
        }
        match status.finish() {
            Err(error) => {
                let error = WriteError::ReadStatus(error);
                EnableWrite { attempts, phase: EnablePhase::Over(Err(error)) }
            },
            Ok(read) => {
                if read.is_write_in_progress() {
                    let error = WriteError::WriteInProgress;
                    EnableWrite { attempts, phase: EnablePhase::Over(Err(error)) }
                } else if read.is_write_enabled() {
                    EnableWrite { attempts, phase: EnablePhase::Over(Ok(())) }
                } else if attempts == 0 {
                    let error = WriteError::WriteEnableFailed;
                    EnableWrite { attempts, phase: EnablePhase::Over(Err(error)) }
                } else {
                    EnableWrite::setting(set_write_enable(), attempts - 1)
                }
            },
        }
    }

    fn setting(set: RunCommand, attempts: u8) -> (enable: Self)
        requires
            set.inv(),
        ensures
            enable.inv(),
            forall|replies: Seq<Reply>|
                #[trigger] enable.run(replies) == enable_write_set(
                    set.run(replies),
                    attempts as nat,
                ),
    {
        reveal(enable_write_status);
        reveal(enable_write_set);
        if set.pending().is_some() {
            return EnableWrite { attempts, phase: EnablePhase::Latch(set) };
        }
        match set.finish() {
            Err(error) => {
                let error = WriteError::SetWriteEnable(error);
                EnableWrite { attempts, phase: EnablePhase::Over(Err(error)) }
            },
            Ok(()) => {
                proof {
                    lemma_read_status_orderly(Seq::empty());
                }
                EnableWrite { attempts, phase: EnablePhase::Status(ReadStatus::new()) }
            },
        }
    }
}

/// Sets the write-enable latch without verifying that it is actually enabled.
pub fn set_write_enable() -> (set: RunCommand)
    ensures
        set.inv(),
        forall|replies: Seq<Reply>| #[trigger] set.run(replies) == set_write_enable_run(replies),
{
    RunCommand::new(
        CommandSequence {
            start: WRITE_ENABLE_XPI,
            count: 1,
            address: 0,
            data_size: 0,
            parallel: false,
        },
    )
}

impl Procedure for EnableWrite {
    type Output = Result<(), WriteError>;

    type Value = Result<(), WriteError>;

    open spec fn value(output: Self::Output) -> Self::Value {
        output
    }

    closed spec fn inv(&self) -> bool {
        match self.phase {
            EnablePhase::Status(status) => status.inv() && status.run(Seq::empty()).outcome is None,
            EnablePhase::Latch(set) => set.inv() && set.run(Seq::empty()).outcome is None,
            EnablePhase::Over(_) => true,
        }
    }

    closed spec fn run(&self, replies: Seq<Reply>) -> Run<Self::Value> {
        match self.phase {
            EnablePhase::Status(status) => enable_write_status(
                status.run(replies),
                self.attempts as nat,
            ),
            EnablePhase::Latch(set) => enable_write_set(set.run(replies), self.attempts as nat),
            EnablePhase::Over(result) => finished(result, replies),
        }
    }

    fn pending(&self) -> (access: Option<Access>) {
        reveal(enable_write_status);
        reveal(enable_write_set);
        match &self.phase {
            EnablePhase::Status(status) => status.pending(),
            EnablePhase::Latch(set) => set.pending(),
            EnablePhase::Over(_) => None,
        }
    }

    fn step(self, reply: Reply) -> (next: Self) {
        reveal(enable_write_status);
        reveal(enable_write_set);
        let attempts: u8 = self.attempts;
        match self.phase {
            EnablePhase::Status(status) => EnableWrite::reading(status.step(reply), attempts),
            EnablePhase::Latch(set) => EnableWrite::setting(set.step(reply), attempts),
            EnablePhase::Over(_) => unreached(),
        }
    }

    fn finish(self) -> (output: Self::Output) {
        reveal(enable_write_status);
        reveal(enable_write_set);
        match self.phase {
            EnablePhase::Over(result) => result,
            _ => unreached(),
        }
    }
}

/// Waits for a write not to be in progress.
#[derive(Debug)]
pub struct WaitWrite {
    phase: WaitWritePhase,
}

#[derive(Debug)]
enum WaitWritePhase {
    Status(ReadStatus),
    Over(Result<(), WriteError>),
}

impl WaitWrite {
    /// Starts with the status.
    pub fn new() -> (wait: Self)
        ensures
            wait.inv(),
            forall|replies: Seq<Reply>| #[trigger] wait.run(replies) == wait_write_run(replies),
    {
        reveal(wait_write_run);
        proof {
            lemma_read_status_orderly(Seq::empty());
        }
        WaitWrite { phase: WaitWritePhase::Status(ReadStatus::new()) }
    }

    fn reading(status: ReadStatus) -> (wait: Self)
        requires
            status.inv(),
        ensures
            wait.inv(),
            forall|replies: Seq<Reply>|
                #[trigger] wait.run(replies) == wait_write_status(status.run(replies)),
    {
        reveal(wait_write_run);
        if status.pending().is_some() {
            return WaitWrite { phase: WaitWritePhase::Status(status) };
        }
        match status.finish() {
            Err(error) => {
                let error = WriteError::ReadStatus(error);
                WaitWrite { phase: WaitWritePhase::Over(Err(error)) }
            },
            Ok(read) => {
                // There will not be a CPU event when the write ends, as the write is handled by
                // the flash chip.
                if read.is_write_in_progress() {
                    WaitWrite::new()
                } else {
                    WaitWrite { phase: WaitWritePhase::Over(Ok(())) }
                }
            },
        }
    }
}

impl Procedure for WaitWrite {
    type Output = Result<(), WriteError>;

    type Value = Result<(), WriteError>;

    open spec fn value(output: Self::Output) -> Self::Value {
        output
    }

    closed spec fn inv(&self) -> bool {
        match self.phase {
            WaitWritePhase::Status(status) => status.inv() && status.run(
                Seq::empty(),
            ).outcome is None,
            WaitWritePhase::Over(_) => true,
        }
    }

    closed spec fn run(&self, replies: Seq<Reply>) -> Run<Self::Value> {
        match self.phase {
            WaitWritePhase::Status(status) => wait_write_status(status.run(replies)),
            WaitWritePhase::Over(result) => finished(result, replies),
        }
    }

    fn pending(&self) -> (access: Option<Access>) {
        match &self.phase {
            WaitWritePhase::Status(status) => status.pending(),
            WaitWritePhase::Over(_) => None,
        }
    }

    fn step(self, reply: Reply) -> (next: Self) {
        match self.phase {
            WaitWritePhase::Status(status) => WaitWrite::reading(status.step(reply)),
            WaitWritePhase::Over(_) => unreached(),
        }
    }

    fn finish(self) -> (output: Self::Output) {
        match self.phase {
            WaitWritePhase::Over(result) => result,
            _ => unreached(),
        }
    }
}

} // verus!
