//! Reading the flash ID.

use crate::nor_flash::sequence::READ_ID;
use crate::nor_flash::{NotEnoughData, ReadError};
use crate::peripheral::command::{launch_run, lemma_launch_orderly, LaunchCommand};
use crate::peripheral::fifo::{drain_run, lemma_drain_orderly, DrainRxFifo};
use crate::peripheral::wait::{
    lemma_wait_command_done_orderly, lemma_wait_rx_ready_orderly, wait_command_done_run,
    wait_rx_ready_run, WaitCommandDone, WaitRxReady,
};
use crate::peripheral::{CommandSequence, WaitCommandError};
use crate::procedure::{exchange, finished, group_orderly, group_procedure, then, Procedure, Run};
use crate::registers::{Access, Reply};
use crate::words::{first_word, word_of};
use vstd::prelude::*;

verus! {

broadcast use group_procedure;

/// The command that reads the flash ID.
pub open spec fn read_id_sequence() -> CommandSequence {
    CommandSequence { start: READ_ID, count: 1, address: 0, data_size: 64, parallel: false }
}

/// What the buffer for the flash ID holds before the ID is read into it.
pub open spec fn id_buffer() -> Seq<u8> {
    seq![0xAA, 0xAA, 0xAA, 0xAA]
}

/// Reading the flash ID.
pub open spec fn read_id_run(replies: Seq<Reply>) -> Run<Result<u32, ReadError>> {
    exchange(
        Access::ClearRxFifo,
        replies,
        read_id_launched(launch_run(read_id_sequence(), replies.skip(1))),
    )
}

/// Reading the flash ID, from the point where `launch` starts the command.
pub open spec fn read_id_launched(launch: Run<()>) -> Run<Result<u32, ReadError>> {
    then(launch, read_id_ready(wait_rx_ready_run(launch.rest)))
}

/// Reading the flash ID, from the point where `wait` waits for data.
pub open spec fn read_id_ready(wait: Run<Result<(), WaitCommandError>>) -> Run<
    Result<u32, ReadError>,
> {
    then(
        wait,
        match wait.outcome->0 {
            Err(error) => finished(Err(ReadError::WaitRx(error)), wait.rest),
            Ok(()) => read_id_drained(drain_run(id_buffer(), 0, 4, wait.rest)),
        },
    )
}

/// Reading the flash ID, from the point where `drain` gets it out of the FIFO.
pub open spec fn read_id_drained(drain: Run<(Seq<u8>, int)>) -> Run<Result<u32, ReadError>> {
    let (bytes, count) = drain.outcome->0;
    then(drain, read_id_waited(bytes, count, wait_command_done_run(drain.rest)))
}

/// Reading the flash ID, from the point where `wait` waits for the command to be done, with
/// `count` bytes received.
pub open spec fn read_id_waited(
    bytes: Seq<u8>,
    count: int,
    wait: Run<Result<(), WaitCommandError>>,
) -> Run<Result<u32, ReadError>> {
    then(
        wait,
        finished(
            match wait.outcome->0 {
                Err(error) => Err(ReadError::WaitFinish(error)),
                Ok(()) => if count == 4 {
                    Ok(word_of(bytes[0], bytes[1], bytes[2], bytes[3]))
                } else {
                    Err(
                        ReadError::NotEnoughData(
                            NotEnoughData { expected: 4, actual: count as usize },
                        ),
                    )
                },
            },
            wait.rest,
        ),
    )
}

/// Reading the flash ID is orderly.
pub proof fn lemma_read_id_orderly(replies: Seq<Reply>)
    ensures
        read_id_run(replies).orderly(replies),
{
    broadcast use group_orderly;

    if replies.len() > 0 {
        lemma_launch_orderly(read_id_sequence(), replies.skip(1));
        let launch = launch_run(read_id_sequence(), replies.skip(1));
        lemma_wait_rx_ready_orderly(launch.rest);
        let ready = wait_rx_ready_run(launch.rest);
        lemma_drain_orderly(id_buffer(), 0, 4, ready.rest);
        lemma_wait_command_done_orderly(drain_run(id_buffer(), 0, 4, ready.rest).rest);
    }
}

/// Reads the flash ID.
#[derive(Debug)]
pub struct ReadId {
    phase: IdPhase,
}

#[derive(Debug)]
enum IdPhase {
    ClearFifo,
    Launch(LaunchCommand),
    Ready(WaitRxReady),
    Drain(DrainRxFifo),
    Wait(Vec<u8>, usize, WaitCommandDone),
    Over(Result<u32, ReadError>),
}

impl ReadId {
    /// Starts with an empty RX FIFO.
    pub fn new() -> (read: Self)
        ensures
            read.inv(),
            forall|replies: Seq<Reply>| #[trigger] read.run(replies) == read_id_run(replies),
    {
        ReadId { phase: IdPhase::ClearFifo }
    }

    fn launching(launch: LaunchCommand) -> (read: Self)
        requires
            launch.inv(),
        ensures
            read.inv(),
            forall|replies: Seq<Reply>|
                #[trigger] read.run(replies) == read_id_launched(launch.run(replies)),
    {
        if launch.pending().is_some() {
            return ReadId { phase: IdPhase::Launch(launch) };
        }
        launch.finish();
        ReadId::waiting(WaitRxReady::new())
    }

    fn waiting(wait: WaitRxReady) -> (read: Self)
        requires
            wait.inv(),
        ensures
            read.inv(),
            forall|replies: Seq<Reply>|
                #[trigger] read.run(replies) == read_id_ready(wait.run(replies)),
    {
        if wait.pending().is_some() {
            return ReadId { phase: IdPhase::Ready(wait) };
        }
        match wait.finish() {
            Err(error) => ReadId { phase: IdPhase::Over(Err(ReadError::WaitRx(error))) },
            Ok(()) => {
                let buffer: Vec<u8> = vec![0xAA, 0xAA, 0xAA, 0xAA];
                assert(buffer@ =~= id_buffer());
                ReadId::draining(DrainRxFifo::new(buffer, 0, 4))
            },
        }
    }

    fn draining(drain: DrainRxFifo) -> (read: Self)
        requires
            drain.inv(),
            drain.size() == 4,
        ensures
            read.inv(),
            forall|replies: Seq<Reply>|
                #[trigger] read.run(replies) == read_id_drained(drain.run(replies)),
    {
        if drain.pending().is_some() {
            return ReadId { phase: IdPhase::Drain(drain) };
        }
        let (buffer, actual) = drain.finish();
        ReadId::ending(buffer, actual, WaitCommandDone::new())
    }

    fn ending(buffer: Vec<u8>, actual: usize, wait: WaitCommandDone) -> (read: Self)
        requires
            wait.inv(),
            buffer@.len() == 4,
        ensures
            read.inv(),
            forall|replies: Seq<Reply>|
                #[trigger] read.run(replies) == read_id_waited(
                    buffer@,
                    actual as int,
                    wait.run(replies),
                ),
    {
        if wait.pending().is_some() {
            return ReadId { phase: IdPhase::Wait(buffer, actual, wait) };
        }
        let result = match wait.finish() {
            Err(error) => Err(ReadError::WaitFinish(error)),
            Ok(()) => if actual != 4 {
                Err(ReadError::NotEnoughData(NotEnoughData { expected: 4, actual }))
            } else {
                Ok(first_word(buffer.as_slice()))
            },
        };
        ReadId { phase: IdPhase::Over(result) }
    }
}

impl Procedure for ReadId {
    type Output = Result<u32, ReadError>;

    type Value = Result<u32, ReadError>;

    open spec fn value(output: Self::Output) -> Self::Value {
        output
    }

    closed spec fn inv(&self) -> bool {
        match self.phase {
            IdPhase::ClearFifo => true,
            IdPhase::Launch(launch) => launch.inv() && launch.run(Seq::empty()).outcome is None,
            IdPhase::Ready(wait) => wait.inv() && wait.run(Seq::empty()).outcome is None,
            IdPhase::Drain(drain) => {
                &&& drain.inv()
                &&& drain.size() == 4
                &&& drain.run(Seq::empty()).outcome is None
            },
            IdPhase::Wait(buffer, _, wait) => {
                &&& buffer@.len() == 4
                &&& wait.inv()
                &&& wait.run(Seq::empty()).outcome is None
            },
            IdPhase::Over(_) => true,
        }
    }

    closed spec fn run(&self, replies: Seq<Reply>) -> Run<Self::Value> {
        match self.phase {
            IdPhase::ClearFifo => read_id_run(replies),
            IdPhase::Launch(launch) => read_id_launched(launch.run(replies)),
            IdPhase::Ready(wait) => read_id_ready(wait.run(replies)),
            IdPhase::Drain(drain) => read_id_drained(drain.run(replies)),
            IdPhase::Wait(buffer, actual, wait) => read_id_waited(
                buffer@,
                actual as int,
                wait.run(replies),
            ),
            IdPhase::Over(result) => finished(result, replies),
        }
    }

    fn pending(&self) -> (access: Option<Access>) {
        match &self.phase {
            IdPhase::ClearFifo => Some(Access::ClearRxFifo),
            IdPhase::Launch(launch) => launch.pending(),
            IdPhase::Ready(wait) => wait.pending(),
            IdPhase::Drain(drain) => drain.pending(),
            IdPhase::Wait(_, _, wait) => wait.pending(),
            IdPhase::Over(_) => None,
        }
    }

    fn step(self, reply: Reply) -> (next: Self) {
        match self.phase {
            IdPhase::ClearFifo => {
                ReadId::launching(
                    LaunchCommand::new(
                        CommandSequence {
                            start: READ_ID,
                            count: 1,
                            address: 0,
                            data_size: 64,
                            parallel: false,
                        },
                    ),
                )
            },
            IdPhase::Launch(launch) => ReadId::launching(launch.step(reply)),
            IdPhase::Ready(wait) => ReadId::waiting(wait.step(reply)),
            IdPhase::Drain(drain) => ReadId::draining(drain.step(reply)),
            IdPhase::Wait(buffer, actual, wait) => ReadId::ending(
                buffer,
                actual,
                wait.step(reply),
            ),
            IdPhase::Over(_) => unreached(),
        }
    }

    fn finish(self) -> (output: Self::Output) {
        match self.phase {
            IdPhase::Over(result) => result,
            _ => unreached(),
        }
    }
}

} // verus!
