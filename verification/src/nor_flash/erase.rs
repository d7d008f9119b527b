//! Erasing, and what ends every write to the flash memory.

use crate::nor_flash::status::{lemma_run_command_orderly, run_command_run, RunCommand};
use crate::nor_flash::write_enable::{
    enable_write_run, lemma_enable_write_orderly, lemma_wait_write_orderly, wait_write_run,
    EnableWrite, WaitWrite,
};
use crate::nor_flash::WriteError;
use crate::peripheral::cache::{
    invalidate_cache_run, lemma_invalidate_cache_orderly, InvalidateCache,
};
use crate::peripheral::{CommandSequence, WaitCommandError};
use crate::procedure::{finished, group_orderly, group_procedure, then, Procedure, Run};
use crate::registers::{Access, Reply};
use vstd::prelude::*;

verus! {

broadcast use group_procedure;

/// Waiting for the write to end, and then invalidating the memory cache.
pub open spec fn settle_run(replies: Seq<Reply>) -> Run<Result<(), WriteError>> {
    settle_waited(wait_write_run(replies))
}

/// Ending a write, from the point where `wait` waits for it.
pub open spec fn settle_waited(wait: Run<Result<(), WriteError>>) -> Run<Result<(), WriteError>> {
    then(
        wait,
        match wait.outcome->0 {
            Err(error) => finished(Err(error), wait.rest),
            Ok(()) => settle_invalidated(invalidate_cache_run(wait.rest)),
        },
    )
}

/// Ending a write, from the point where `invalidate` invalidates the memory cache.
pub open spec fn settle_invalidated(invalidate: Run<()>) -> Run<Result<(), WriteError>> {
    then(invalidate, finished(Ok(()), invalidate.rest))
}

/// Ending a write is orderly.
pub proof fn lemma_settle_orderly(replies: Seq<Reply>)
    ensures
        settle_run(replies).orderly(replies),
{
    broadcast use group_orderly;

    lemma_wait_write_orderly(replies);
    lemma_invalidate_cache_orderly(wait_write_run(replies).rest);
}

/// The command of the LUT at `start` that erases what is at `address`.
pub open spec fn erase_sequence(start: u8, address: u32) -> CommandSequence {
    CommandSequence { start, count: 1, address, data_size: 0, parallel: false }
}

/// Erasing with the given command, once writing is enabled.
pub open spec fn erase_run(sequence: CommandSequence, replies: Seq<Reply>) -> Run<
    Result<(), WriteError>,
> {
    erase_enabled(sequence, enable_write_run(replies))
}

/// Erasing, from the point where `enable` enables writing.
pub open spec fn erase_enabled(
    sequence: CommandSequence,
    enable: Run<Result<(), WriteError>>,
) -> Run<Result<(), WriteError>> {
    then(
        enable,
        match enable.outcome->0 {
            Err(error) => finished(Err(error), enable.rest),
            Ok(()) => erase_commanded(run_command_run(sequence, enable.rest)),
        },
    )
}

/// Erasing, from the point where `command` runs.
pub open spec fn erase_commanded(command: Run<Result<(), WaitCommandError>>) -> Run<
    Result<(), WriteError>,
> {
    then(
        command,
        match command.outcome->0 {
            Err(error) => finished(Err(WriteError::WaitFinish(error)), command.rest),
            Ok(()) => settle_run(command.rest),
        },
    )
}

/// Erasing is orderly.
pub proof fn lemma_erase_orderly(sequence: CommandSequence, replies: Seq<Reply>)
    ensures
        erase_run(sequence, replies).orderly(replies),
{
    broadcast use group_orderly;

    lemma_enable_write_orderly(replies);
    let enable = enable_write_run(replies);
    lemma_run_command_orderly(sequence, enable.rest);
    lemma_settle_orderly(run_command_run(sequence, enable.rest).rest);
}

/// Waits for a write to end, and then invalidates the memory cache.
#[derive(Debug)]
pub struct SettleWrite {
    phase: SettlePhase,
}

#[derive(Debug)]
enum SettlePhase {
    Wait(WaitWrite),
    Invalidate(InvalidateCache),
    Over(Result<(), WriteError>),
}

impl SettleWrite {
    /// Starts with waiting for the write.
    pub fn new() -> (settle: Self)
        ensures
            settle.inv(),
            forall|replies: Seq<Reply>| #[trigger] settle.run(replies) == settle_run(replies),
    {
        SettleWrite::waiting(WaitWrite::new())
    }

    fn waiting(wait: WaitWrite) -> (settle: Self)
        requires
            wait.inv(),
        ensures
            settle.inv(),
            forall|replies: Seq<Reply>|
                #[trigger] settle.run(replies) == settle_waited(wait.run(replies)),
    {
        if wait.pending().is_some() {
            return SettleWrite { phase: SettlePhase::Wait(wait) };
        }
        match wait.finish() {
            Err(error) => SettleWrite { phase: SettlePhase::Over(Err(error)) },
            Ok(()) => SettleWrite::invalidating(InvalidateCache::new()),
        }
    }

    fn invalidating(invalidate: InvalidateCache) -> (settle: Self)
        requires
            invalidate.inv(),
        ensures
            settle.inv(),
            forall|replies: Seq<Reply>|
                #[trigger] settle.run(replies) == settle_invalidated(invalidate.run(replies)),
    {
        if invalidate.pending().is_some() {
            return SettleWrite { phase: SettlePhase::Invalidate(invalidate) };
        }
        invalidate.finish();
        SettleWrite { phase: SettlePhase::Over(Ok(())) }
    }
}

impl Procedure for SettleWrite {
    type Output = Result<(), WriteError>;

    type Value = Result<(), WriteError>;

    open spec fn value(output: Self::Output) -> Self::Value {
        output
    }

    closed spec fn inv(&self) -> bool {
        match self.phase {
            SettlePhase::Wait(wait) => wait.inv() && wait.run(Seq::empty()).outcome is None,
            SettlePhase::Invalidate(invalidate) => invalidate.inv() && invalidate.run(
                Seq::empty(),
            ).outcome is None,
            SettlePhase::Over(_) => true,
        }
    }

    closed spec fn run(&self, replies: Seq<Reply>) -> Run<Self::Value> {
        match self.phase {
            SettlePhase::Wait(wait) => settle_waited(wait.run(replies)),
            SettlePhase::Invalidate(invalidate) => settle_invalidated(invalidate.run(replies)),
            SettlePhase::Over(result) => finished(result, replies),
        }
    }

    fn pending(&self) -> (access: Option<Access>) {
        match &self.phase {
            SettlePhase::Wait(wait) => wait.pending(),
            SettlePhase::Invalidate(invalidate) => invalidate.pending(),
            SettlePhase::Over(_) => None,
        }
    }

    fn step(self, reply: Reply) -> (next: Self) {
        match self.phase {
            SettlePhase::Wait(wait) => SettleWrite::waiting(wait.step(reply)),
            SettlePhase::Invalidate(invalidate) => SettleWrite::invalidating(
                invalidate.step(reply),
            ),
            SettlePhase::Over(_) => unreached(),
        }
    }

    fn finish(self) -> (output: Self::Output) {
        match self.phase {
            SettlePhase::Over(result) => result,
            _ => unreached(),
        }
    }
}

/// Erases a part or all of the flash memory.
#[derive(Debug)]
pub struct Erase {
    sequence: CommandSequence,
    phase: ErasePhase,
}

#[derive(Debug)]
enum ErasePhase {
    Enable(EnableWrite),
    Command(RunCommand),
    Settle(SettleWrite),
    Over(Result<(), WriteError>),
}

impl Erase {
    /// Starts with enabling writes.
    pub fn new(sequence: CommandSequence) -> (erase: Self)
        requires
            sequence.valid(),
        ensures
            erase.inv(),
            forall|replies: Seq<Reply>|
                #[trigger] erase.run(replies) == erase_run(sequence, replies),
    {
        Erase::enabling(sequence, EnableWrite::new())
    }

    fn enabling(sequence: CommandSequence, enable: EnableWrite) -> (erase: Self)
        requires
            sequence.valid(),
            enable.inv(),
        ensures
            erase.inv(),
            forall|replies: Seq<Reply>|
                #[trigger] erase.run(replies) == erase_enabled(sequence, enable.run(replies)),
    {
        if enable.pending().is_some() {
            return Erase { sequence, phase: ErasePhase::Enable(enable) };
        }
        match enable.finish() {
            Err(error) => Erase { sequence, phase: ErasePhase::Over(Err(error)) },
            Ok(()) => Erase::commanding(sequence, RunCommand::new(sequence)),
        }
    }

    fn commanding(sequence: CommandSequence, command: RunCommand) -> (erase: Self)
        requires
            sequence.valid(),
            command.inv(),
        ensures
            erase.inv(),
            forall|replies: Seq<Reply>|
                #[trigger] erase.run(replies) == erase_commanded(command.run(replies)),
    {
        if command.pending().is_some() {
            return Erase { sequence, phase: ErasePhase::Command(command) };
        }
        match command.finish() {
            Err(error) => {
                let error = WriteError::WaitFinish(error);
                Erase { sequence, phase: ErasePhase::Over(Err(error)) }
            },
            Ok(()) => Erase { sequence, phase: ErasePhase::Settle(SettleWrite::new()) },
        }
    }
}

impl Procedure for Erase {
    type Output = Result<(), WriteError>;

    type Value = Result<(), WriteError>;

    open spec fn value(output: Self::Output) -> Self::Value {
        output
    }

    closed spec fn inv(&self) -> bool {
        &&& self.sequence.valid()
        &&& match self.phase {
            ErasePhase::Enable(enable) => enable.inv() && enable.run(Seq::empty()).outcome is None,
            ErasePhase::Command(command) => command.inv() && command.run(
                Seq::empty(),
            ).outcome is None,
            ErasePhase::Settle(settle) => settle.inv(),
            ErasePhase::Over(_) => true,
        }
    }

    closed spec fn run(&self, replies: Seq<Reply>) -> Run<Self::Value> {
        match self.phase {
            ErasePhase::Enable(enable) => erase_enabled(self.sequence, enable.run(replies)),
            ErasePhase::Command(command) => erase_commanded(command.run(replies)),
            ErasePhase::Settle(settle) => settle.run(replies),
            ErasePhase::Over(result) => finished(result, replies),
        }
    }

    fn pending(&self) -> (access: Option<Access>) {
        match &self.phase {
            ErasePhase::Enable(enable) => enable.pending(),
            ErasePhase::Command(command) => command.pending(),
            ErasePhase::Settle(settle) => settle.pending(),
            ErasePhase::Over(_) => None,
        }
    }

    fn step(self, reply: Reply) -> (next: Self) {
        let sequence = self.sequence;
        match self.phase {
            ErasePhase::Enable(enable) => Erase::enabling(sequence, enable.step(reply)),
            ErasePhase::Command(command) => Erase::commanding(sequence, command.step(reply)),
            ErasePhase::Settle(settle) => Erase {
                sequence,
                phase: ErasePhase::Settle(settle.step(reply)),
            },
            ErasePhase::Over(_) => unreached(),
        }
    }

    fn finish(self) -> (output: Self::Output) {
        match self.phase {
            ErasePhase::Settle(settle) => settle.finish(),
            ErasePhase::Over(result) => result,
            _ => unreached(),
        }
    }
}

} // verus!
