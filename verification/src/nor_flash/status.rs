//! Running a command, and reading the status of the flash memory.

use crate::nor_flash::sequence::READ_STATUS_XPI;
use crate::nor_flash::{NotEnoughData, ReadError, Status};
use crate::peripheral::command::{launch_run, lemma_launch_orderly, LaunchCommand};
use crate::peripheral::fifo::{drain_run, lemma_drain_orderly, DrainRxFifo};
use crate::peripheral::wait::{
    lemma_wait_command_done_orderly, wait_command_done_run, WaitCommandDone,
};
use crate::peripheral::{CommandSequence, WaitCommandError};
use crate::procedure::{exchange, finished, group_orderly, group_procedure, then, Procedure, Run};
use crate::registers::{Access, Reply};
use crate::words::{first_word, word_of};
use vstd::prelude::*;

verus! {

broadcast use group_procedure;

/// Starting a command and waiting for it to be done.
pub open spec fn run_command_run(sequence: CommandSequence, replies: Seq<Reply>) -> Run<
    Result<(), WaitCommandError>,
> {
    run_command_launched(launch_run(sequence, replies))
}

/// Running a command, from the point where `launch` starts it.
pub open spec fn run_command_launched(launch: Run<()>) -> Run<Result<(), WaitCommandError>> {
    then(launch, wait_command_done_run(launch.rest))
}

/// Running a command is orderly.
pub proof fn lemma_run_command_orderly(sequence: CommandSequence, replies: Seq<Reply>)
    ensures
        run_command_run(sequence, replies).orderly(replies),
{
    broadcast use group_orderly;

    lemma_launch_orderly(sequence, replies);
    lemma_wait_command_done_orderly(launch_run(sequence, replies).rest);
}

/// The command that reads the status.
pub open spec fn read_status_sequence() -> CommandSequence {
    CommandSequence {
        start: READ_STATUS_XPI,
        count: 1,
        address: 0,
        data_size: 4,
        parallel: false,
    }
}

/// What the buffer for the status holds before the status is read into it.
pub open spec fn status_buffer() -> Seq<u8> {
    seq![0xEF, 0xBE, 0xAD, 0xDE]
}

/// Reading the status of the flash memory.
#[verifier::opaque]
pub open spec fn read_status_run(replies: Seq<Reply>) -> Run<Result<Status, ReadError>> {
    exchange(
        Access::ClearRxFifo,
        replies,
        read_status_commanded(run_command_run(read_status_sequence(), replies.skip(1))),
    )
}

/// Reading the status, from the point where `command` runs.
pub open spec fn read_status_commanded(command: Run<Result<(), WaitCommandError>>) -> Run<
    Result<Status, ReadError>,
> {
    then(
        command,
        match command.outcome->0 {
            Err(error) => finished(Err(ReadError::WaitFinish(error)), command.rest),
            Ok(()) => read_status_drained(drain_run(status_buffer(), 0, 4, command.rest)),
        },
    )
}

/// Reading the status, from the point where `drain` gets it out of the FIFO.
pub open spec fn read_status_drained(drain: Run<(Seq<u8>, int)>) -> Run<
    Result<Status, ReadError>,
> {
    let (bytes, count) = drain.outcome->0;
    then(
        drain,
        finished(
            if count == 4 {
                Ok(Status { raw: word_of(bytes[0], bytes[1], bytes[2], bytes[3]) })
            } else {
                Err(
                    ReadError::NotEnoughData(
                        NotEnoughData { expected: 4, actual: count as usize },
                    ),
                )
            },
            drain.rest,
        ),
    )
}

/// Reading the status is orderly.
pub proof fn lemma_read_status_orderly(replies: Seq<Reply>)
    ensures
        read_status_run(replies).orderly(replies),
        read_status_run(replies).issued.len() > 0,
{
    broadcast use group_orderly;

    reveal(read_status_run);
    if replies.len() > 0 {
        let command = run_command_run(read_status_sequence(), replies.skip(1));
        lemma_run_command_orderly(read_status_sequence(), replies.skip(1));
        lemma_drain_orderly(status_buffer(), 0, 4, command.rest);
    }
}

/// Starts a command and waits for it to be done.
#[derive(Copy, Clone, Debug)]
pub struct RunCommand {
    phase: RunPhase,
}

#[derive(Copy, Clone, Debug)]
enum RunPhase {
    Launch(LaunchCommand),
    Wait(WaitCommandDone),
}

impl RunCommand {
    /// Starts with starting the command.
    pub fn new(sequence: CommandSequence) -> (command: Self)
        requires
            sequence.valid(),
        ensures
            command.inv(),
            forall|replies: Seq<Reply>|
                #[trigger] command.run(replies) == run_command_run(sequence, replies),
    {
        RunCommand::launching(LaunchCommand::new(sequence))
    }

    fn launching(launch: LaunchCommand) -> (command: Self)
        requires
            launch.inv(),
        ensures
            command.inv(),
            forall|replies: Seq<Reply>|
                #[trigger] command.run(replies) == run_command_launched(launch.run(replies)),
    {
        if launch.pending().is_some() {
            return RunCommand { phase: RunPhase::Launch(launch) };
        }
        launch.finish();
        RunCommand { phase: RunPhase::Wait(WaitCommandDone::new()) }
    }
}

impl Procedure for RunCommand {
    type Output = Result<(), WaitCommandError>;

    type Value = Result<(), WaitCommandError>;

    open spec fn value(output: Self::Output) -> Self::Value {
        output
    }

    closed spec fn inv(&self) -> bool {
        match self.phase {
            RunPhase::Launch(launch) => launch.inv() && launch.run(Seq::empty()).outcome is None,
            RunPhase::Wait(wait) => wait.inv(),
        }
    }

    closed spec fn run(&self, replies: Seq<Reply>) -> Run<Self::Value> {
        match self.phase {
            RunPhase::Launch(launch) => run_command_launched(launch.run(replies)),
            RunPhase::Wait(wait) => wait.run(replies),
        }
    }

    fn pending(&self) -> (access: Option<Access>) {
        match &self.phase {
            RunPhase::Launch(launch) => launch.pending(),
            RunPhase::Wait(wait) => wait.pending(),
        }
    }

    fn step(self, reply: Reply) -> (next: Self) {
        match self.phase {
            RunPhase::Launch(launch) => RunCommand::launching(launch.step(reply)),
            RunPhase::Wait(wait) => RunCommand { phase: RunPhase::Wait(wait.step(reply)) },
        }
    }

    fn finish(self) -> (output: Self::Output) {
        match self.phase {
            RunPhase::Launch(_) => unreached(),
            RunPhase::Wait(wait) => wait.finish(),
        }
    }
}

/// Reads the status of the flash memory.
#[derive(Debug)]
pub struct ReadStatus {
    phase: StatusPhase,
}

#[derive(Debug)]
enum StatusPhase {
    ClearFifo,
    Command(RunCommand),
    Drain(DrainRxFifo),
    Over(Result<Status, ReadError>),
}

impl ReadStatus {
    /// Starts with an empty RX FIFO.
    pub fn new() -> (read: Self)
        ensures
            read.inv(),
            forall|replies: Seq<Reply>| #[trigger] read.run(replies) == read_status_run(replies),
    {
        ReadStatus { phase: StatusPhase::ClearFifo }
    }

    fn commanding(command: RunCommand) -> (read: Self)
        requires
            command.inv(),
        ensures
            read.inv(),
            forall|replies: Seq<Reply>|
                #[trigger] read.run(replies) == read_status_commanded(command.run(replies)),
    {
        if command.pending().is_some() {
            return ReadStatus { phase: StatusPhase::Command(command) };
        }
        match command.finish() {
            Err(error) => {
                ReadStatus { phase: StatusPhase::Over(Err(ReadError::WaitFinish(error))) }
            },
            Ok(()) => {
                let buffer: Vec<u8> = vec![0xEF, 0xBE, 0xAD, 0xDE];
                assert(buffer@ =~= status_buffer());
                ReadStatus::draining(DrainRxFifo::new(buffer, 0, 4))
            },
        }
    }

    fn draining(drain: DrainRxFifo) -> (read: Self)
        requires
            drain.inv(),
            drain.size() == 4,
        ensures
            read.inv(),
            forall|replies: Seq<Reply>|
                #[trigger] read.run(replies) == read_status_drained(drain.run(replies)),
    {
        if drain.pending().is_some() {
            return ReadStatus { phase: StatusPhase::Drain(drain) };
        }
        let (buffer, actual) = drain.finish();
        let result = if actual == 4 {
            Ok(Status { raw: first_word(buffer.as_slice()) })
        } else {
            Err(ReadError::NotEnoughData(NotEnoughData { expected: 4, actual }))
        };
        ReadStatus { phase: StatusPhase::Over(result) }
    }
}

impl Procedure for ReadStatus {
    type Output = Result<Status, ReadError>;

    type Value = Result<Status, ReadError>;

    open spec fn value(output: Self::Output) -> Self::Value {
        output
    }

    closed spec fn inv(&self) -> bool {
        match self.phase {
            StatusPhase::Command(command) => command.inv() && command.run(
                Seq::empty(),
            ).outcome is None,
            StatusPhase::Drain(drain) => {
                &&& drain.inv()
                &&& drain.size() == 4
                &&& drain.run(Seq::empty()).outcome is None
            },
            _ => true,
        }
    }

    closed spec fn run(&self, replies: Seq<Reply>) -> Run<Self::Value> {
        match self.phase {
            StatusPhase::ClearFifo => read_status_run(replies),
            StatusPhase::Command(command) => read_status_commanded(command.run(replies)),
            StatusPhase::Drain(drain) => read_status_drained(drain.run(replies)),
            StatusPhase::Over(result) => finished(result, replies),
        }
    }

    fn pending(&self) -> (access: Option<Access>) {
        reveal(read_status_run);
        match &self.phase {
            StatusPhase::ClearFifo => Some(Access::ClearRxFifo),
            StatusPhase::Command(command) => command.pending(),
            StatusPhase::Drain(drain) => drain.pending(),
            StatusPhase::Over(_) => None,
        }
    }

    fn step(self, reply: Reply) -> (next: Self) {
        reveal(read_status_run);
        match self.phase {
            StatusPhase::ClearFifo => {
                ReadStatus::commanding(
                    RunCommand::new(
                        CommandSequence {
                            start: READ_STATUS_XPI,
                            count: 1,
                            address: 0,
                            data_size: 4,
                            parallel: false,
                        },
                    ),
                )
            },
            StatusPhase::Command(command) => ReadStatus::commanding(command.step(reply)),
            StatusPhase::Drain(drain) => ReadStatus::draining(drain.step(reply)),
            StatusPhase::Over(_) => unreached(),
        }
    }

    fn finish(self) -> (output: Self::Output) {
        reveal(read_status_run);
        match self.phase {
            StatusPhase::Over(result) => result,
            _ => unreached(),
        }
    }
}

} // verus!
