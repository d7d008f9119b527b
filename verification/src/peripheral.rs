//! Low level FlexSPI peripheral access.

use crate::laws::moving::{drains, fills, lemma_drain_exact, lemma_fill_exact};
use crate::laws::polling::{lemma_start, starts};
use crate::peripheral::cache::{invalidate_cache_run, InvalidateCache};
use crate::peripheral::check::{check_run, command_finished_bits, CheckErrors};
use crate::peripheral::command::{start_command_sequence_run, StartCommand};
use crate::peripheral::fifo::{drain_run, fill_run, DrainRxFifo, FillTxFifo};
use crate::peripheral::settings::{
    level_bytes_run, level_words_run, watermark_field, write_run, Level, ReadLevelBytes,
    ReadLevelWords, Write,
};
use crate::peripheral::wait::{
    wait_command_done_run, wait_rx_ready_run, wait_tx_ready_run, WaitCommandDone, WaitRxReady,
    WaitTxReady,
};
use crate::procedure::Procedure;
use crate::registers::{Access, Interrupts, IpControl1, Reply};
use vstd::prelude::*;

pub mod cache;
pub mod check;
pub mod command;
pub mod fifo;
pub mod settings;
pub mod wait;

verus! {

/// Low level FlexSPI interface.
///
/// The methods hand back what is to be done on the peripheral as a
/// [`Procedure`](crate::procedure::Procedure).
#[derive(Debug)]
pub struct FlexSpi<P> {
    /// The FlexSPI peripheral.
    ///
    /// This stands for unique access to the peripheral. The value itself is not needed.
    #[allow(unused)]
    flex_spi: P,
}

impl<P> FlexSpi<P> {
    /// The peripheral.
    pub closed spec fn peripheral(&self) -> P {
        self.flex_spi
    }

    /// Create a new FlexSPI peripheral.
    pub fn new(flex_spi: P) -> (created: Self)
        ensures
            created.peripheral() == flex_spi,
    {
        FlexSpi { flex_spi }
    }

    /// Start a command sequence from the LUT using the IP interface.
    ///
    /// Does not wait for the sequence to finish, as you may need to write to the TX FIFO or read
    /// from the RX FIFO.
    pub fn start_command_sequence(&mut self, sequence: CommandSequence) -> (start: StartCommand)
        ensures
            *final(self) == *old(self),
            start.inv(),
            forall|replies: Seq<Reply>|
                #[trigger] start.run(replies) == start_command_sequence_run(sequence, replies),
            forall|replies: Seq<Reply>| starts(#[trigger] start.run(replies), sequence, replies),
    {
        let start = StartCommand::new(sequence);
        assert forall|replies: Seq<Reply>|
            starts(#[trigger] start.run(replies), sequence, replies) by {
            lemma_start(sequence, replies);
        }
        start
    }

    /// Set the IP TX FIFO watermark to the given number of u64 entries.
    ///
    /// Note: Attempts to set the watermark level to zero will set the level to one 64 bit word
    /// instead.
    pub fn set_tx_fifo_watermark_u64_words(&mut self, num_u64: u8) -> (write: Write)
        ensures
            *final(self) == *old(self),
            write.inv(),
            forall|replies: Seq<Reply>|
                #[trigger] write.run(replies) == write_run(
                    Access::SetTxWatermark(watermark_field(num_u64)),
                    replies,
                ),
    {
        Write::new(Access::SetTxWatermark(num_u64.saturating_sub(1)))
    }

    /// Get the TX FIFO watermark level in `u64` words.
    pub fn get_tx_fifo_watermark_u64_words(&mut self) -> (read: ReadLevelWords)
        ensures
            *final(self) == *old(self),
            read.inv(),
            forall|replies: Seq<Reply>|
                #[trigger] read.run(replies) == level_words_run(Level::TxWatermark, replies),
    {
        ReadLevelWords::new(Level::TxWatermark)
    }

    /// Get the TX FIFO watermark level in bytes.
    pub fn get_tx_fifo_watermark_bytes(&mut self) -> (read: ReadLevelBytes)
        ensures
            *final(self) == *old(self),
            read.inv(),
            forall|replies: Seq<Reply>|
                #[trigger] read.run(replies) == level_bytes_run(Level::TxWatermark, replies),
    {
        ReadLevelBytes::new(Level::TxWatermark)
    }

    /// Set the IP RX FIFO watermark to the given number of u64 entries.
    ///
    /// Note: Attempts to set the watermark level to zero will set the level to one 64 bit word
    /// instead.
    pub fn set_rx_fifo_watermark_u64_words(&mut self, num_u64: u8) -> (write: Write)
        ensures
            *final(self) == *old(self),
            write.inv(),
            forall|replies: Seq<Reply>|
                #[trigger] write.run(replies) == write_run(
                    Access::SetRxWatermark(watermark_field(num_u64)),
                    replies,
                ),
    {
        Write::new(Access::SetRxWatermark(num_u64.saturating_sub(1)))
    }

    /// Get the RX FIFO watermark level in `u64` words.
    pub fn get_rx_fifo_watermark_u64_words(&self) -> (read: ReadLevelWords)
        ensures
            read.inv(),
            forall|replies: Seq<Reply>|
                #[trigger] read.run(replies) == level_words_run(Level::RxWatermark, replies),
    {
        ReadLevelWords::new(Level::RxWatermark)
    }

    /// Get the RX FIFO watermark level in bytes.
    pub fn get_rx_fifo_watermark_bytes(&self) -> (read: ReadLevelBytes)
        ensures
            read.inv(),
            forall|replies: Seq<Reply>|
                #[trigger] read.run(replies) == level_bytes_run(Level::RxWatermark, replies),
    {
        ReadLevelBytes::new(Level::RxWatermark)
    }

    /// Get the RX FIFO fill level in `u64` words.
    pub fn get_rx_fill_level_u64_words(&self) -> (read: ReadLevelWords)
        ensures
            read.inv(),
            forall|replies: Seq<Reply>|
                #[trigger] read.run(replies) == level_words_run(Level::RxFill, replies),
    {
        ReadLevelWords::new(Level::RxFill)
    }

    /// Get the RX FIFO fill level in bytes.
    pub fn get_rx_fill_level_bytes(&self) -> (read: ReadLevelBytes)
        ensures
            read.inv(),
            forall|replies: Seq<Reply>|
                #[trigger] read.run(replies) == level_bytes_run(Level::RxFill, replies),
    {
        ReadLevelBytes::new(Level::RxFill)
    }

    /// Wait for the command sequence to finish.
    ///
    /// You must always call this after executing a command sequence to clear the relevant
    /// interrupt bits. Additionally, the FlexSPI peripheral says it is undefined what happens when
    /// you start an IP command before the last one finished.
    pub fn wait_command_done(&mut self) -> (wait: WaitCommandDone)
        ensures
            *final(self) == *old(self),
            wait.inv(),
            forall|replies: Seq<Reply>|
                #[trigger] wait.run(replies) == wait_command_done_run(replies),
    {
        WaitCommandDone::new()
    }

    /// Wait for data in the RX FIFO to become available.
    ///
    /// Should only be called after starting a command sequence that reads data from the remote
    /// device.
    pub fn wait_rx_ready(&mut self) -> (wait: WaitRxReady)
        ensures
            *final(self) == *old(self),
            wait.inv(),
            forall|replies: Seq<Reply>|
                #[trigger] wait.run(replies) == wait_rx_ready_run(replies),
    {
        WaitRxReady::new()
    }

    /// Wait for space in the TX FIFO to become available.
    ///
    /// Should only be called after starting a command sequence that writes data to the remote
    /// device.
    pub fn wait_tx_ready(&mut self) -> (wait: WaitTxReady)
        ensures
            *final(self) == *old(self),
            wait.inv(),
            forall|replies: Seq<Reply>|
                #[trigger] wait.run(replies) == wait_tx_ready_run(replies),
    {
        WaitTxReady::new()
    }

    /// Clear the entire RX fifo.
    pub fn clear_rx_fifo(&mut self) -> (write: Write)
        ensures
            *final(self) == *old(self),
            write.inv(),
            forall|replies: Seq<Reply>|
                #[trigger] write.run(replies) == write_run(Access::ClearRxFifo, replies),
    {
        Write::new(Access::ClearRxFifo)
    }

    /// Clear the entire TX fifo.
    pub fn clear_tx_fifo(&mut self) -> (write: Write)
        ensures
            *final(self) == *old(self),
            write.inv(),
            forall|replies: Seq<Reply>|
                #[trigger] write.run(replies) == write_run(Access::ClearTxFifo, replies),
    {
        Write::new(Access::ClearTxFifo)
    }

    /// Write data to the IP TX FIFO and mark it ready for sending.
    ///
    /// This copies data into the IP TX FIFO, up to the watermark level.
    pub fn fill_tx_fifo<'d>(&mut self, buffer: &'d [u8]) -> (fill: FillTxFifo<'d>)
        ensures
            *final(self) == *old(self),
            fill.inv(),
            forall|replies: Seq<Reply>|
                #[trigger] fill.run(replies) == fill_run(buffer@, replies),
            forall|replies: Seq<Reply>| fills(#[trigger] fill.run(replies), buffer@, replies),
    {
        let fill = FillTxFifo::new(buffer);
        assert forall|replies: Seq<Reply>|
            fills(#[trigger] fill.run(replies), buffer@, replies) by {
            lemma_fill_exact(buffer@, replies);
        }
        fill
    }

    /// Drain the RX fifo.
    ///
    /// The outcome is the buffer and the number of bytes written into it.
    ///
    /// You should ensure that either the FIFO is filled to the watermark level,
    /// or this is the final drain in a transfer.
    ///
    /// This will always remove a full watermark of data from the FIFO,
    /// since that is the only way to remove any data from the FIFO.
    pub fn drain_rx_fifo(&mut self, buffer: Vec<u8>) -> (drain: DrainRxFifo)
        ensures
            *final(self) == *old(self),
            drain.inv(),
            forall|replies: Seq<Reply>|
                #[trigger] drain.run(replies) == drain_run(
                    buffer@,
                    0,
                    buffer@.len() as int,
                    replies,
                ),
            forall|replies: Seq<Reply>|
                drains(
                    #[trigger] drain.run(replies),
                    buffer@,
                    0,
                    buffer@.len() as int,
                    replies,
                ),
    {
        let room: usize = buffer.len();
        let ghost before = buffer@;
        let drain = DrainRxFifo::new(buffer, 0, room);
        assert forall|replies: Seq<Reply>|
            drains(#[trigger] drain.run(replies), before, 0, room as int, replies) by {
            lemma_drain_exact(before, 0, room as int, replies);
        }
        drain
    }

    /// Discard the AHB RX buffer.
    ///
    /// Warning! Currently not implemented: nothing is done.
    pub fn clear_ahb_rx_buffers(&mut self)
        ensures
            *final(self) == *old(self),
    {
    }

    /// Invalidate the complete memory cache.
    pub fn invalidate_cache(&mut self) -> (invalidate: InvalidateCache)
        ensures
            *final(self) == *old(self),
            invalidate.inv(),
            forall|replies: Seq<Reply>|
                #[trigger] invalidate.run(replies) == invalidate_cache_run(replies),
    {
        InvalidateCache::new()
    }

    /// Check the interrupt register for command errors, and clear them.
    ///
    /// Performs one read of the interrupt register and clears only the set bits that indicate that
    /// command failed. Only set bits will be cleared, and only if the interrupt flags indicate the
    /// command failed. If the outcome is `Ok`, no interrupt flags have been cleared. The flag that
    /// says that a command is done is not cleared in any case.
    ///
    /// The outcome is the value of the interrupt register if no error is detected.
    pub fn check_and_clear_command_errors(&mut self) -> (check: CheckErrors)
        ensures
            *final(self) == *old(self),
            check.inv(),
            forall|replies: Seq<Reply>|
                #[trigger] check.run(replies) == check_run(replies),
    {
        CheckErrors::new()
    }

    /// Clear all set interrupt bits that indicate a command finished (maybe with an error).
    ///
    /// Does not clear bits that are not set in the input.
    pub fn clear_command_finished_bits(&mut self, interrupts: &Interrupts) -> (write: Write)
        ensures
            *final(self) == *old(self),
            write.inv(),
            forall|replies: Seq<Reply>|
                #[trigger] write.run(replies) == write_run(
                    Access::ClearInterrupts(interrupts.finished()),
                    replies,
                ),
    {
        Write::new(Access::ClearInterrupts(command_finished_bits(interrupts)))
    }
}

/// A command sequence to run on the FlexSPI peripheral.
///
/// Note that this struct does not encode an actual command to send to the flash.
/// It points to pre-defined commands in the FlexSPI LUT (lookup table).
#[derive(Copy, Clone, Debug, PartialEq, Eq, Structural)]
pub struct CommandSequence {
    /// The start index in the LUT of the sequence to execute.
    pub start: u8,
    /// The number of sequences to run.
    ///
    /// If more than one, sequences will be run from the LUT in order, starting at
    /// [`start`](Self::start).
    /// A value of 0 is interpreted the same as 1: run a single sequence.
    ///
    /// The peripheral runs at most 8 sequences: of the count less one it takes the low three bits.
    pub count: u8,
    /// The physical flash address for the command sequence.
    ///
    /// This is used by the `RADDR` and `CADDR` instructions.
    pub address: u32,
    /// The data size for the instruction.
    ///
    /// This is used by the `DATSZ` instruction.
    pub data_size: u16,
    /// Enable parallel mode for this command sequence.
    ///
    /// In parallel mode, instructions are sent to two connected flash memories.
    /// Refer to the FlexSPI documentation in the RT6xx user manual for details about parallel mode.
    pub parallel: bool,
}

impl CommandSequence {
    /// Whether the start and the end of the sequence fall within the LUT.
    ///
    /// A single sequence can be at any of the 32 indexes. The end of more than one is taken
    /// behind the last of them, and is itself below 32.
    pub open spec fn valid(self) -> bool {
        if self.sequences() == 1 {
            self.start < 32
        } else {
            self.start + self.count < 32
        }
    }

    /// The number of sequences that run.
    pub open spec fn sequences(self) -> int {
        if self.count == 0 {
            1
        } else {
            self.count as int
        }
    }

    /// The fields of `IPCR1` that select the sequence.
    ///
    /// `ISEQNUM` is the number of sequences less one. The register has three bits for it and takes
    /// the low three bits of this value, so only a count of up to 8 runs that many sequences.
    pub open spec fn control1(self) -> IpControl1 {
        IpControl1 {
            idatsz: self.data_size,
            iseqid: self.start,
            iseqnum: (self.sequences() - 1) as u8,
            iparen: self.parallel,
        }
    }
}

/// Error that can occur while waiting for a command to complete or make progress.
#[derive(Copy, Clone, Debug, PartialEq, Eq, Structural)]
pub enum WaitCommandError {
    /// The arbiter went into idle state, but the command did not finish.
    ArbiterIdle,
    /// The command failed with an error.
    CommandFailed(CommandFailed),
    /// Timeout waiting for the arbiter to execute the command.
    GrantTimeout,
    /// The command sequence contained a data learn instruction that failed.
    DataLearnFailed,
    /// Timeout while executing the command.
    ExecutionTimeout,
}

/// The FlexSPI peripheral failed to execute a command.
#[derive(Copy, Clone, Debug, PartialEq, Eq, Structural)]
pub struct CommandFailed {
    /// The index of the sequence in the FlexSPI LUT that caused the error.
    pub sequence_index: u8,
    /// The error code reported by the flash.
    pub error_code: CommandErrorCode,
}

impl From<CommandFailed> for WaitCommandError {
    fn from(value: CommandFailed) -> (error: Self) {
        WaitCommandError::CommandFailed(value)
    }
}

impl vstd::std_specs::convert::FromSpecImpl<CommandFailed> for WaitCommandError {
    open spec fn obeys_from_spec() -> bool {
        true
    }

    open spec fn from_spec(value: CommandFailed) -> Self {
        WaitCommandError::CommandFailed(value)
    }
}

/// Error code reported by the FlexSPI peripheral when it fails to execute a command sequence.
#[derive(Copy, Clone, Debug, PartialEq, Eq, Structural)]
pub enum CommandErrorCode {
    /// No error occured.
    NoError,
    /// Unknown error code: 1.
    Unknown1,
    /// The sequence contains a JUMP_ON_CS instruction, which is not allowed for IP commands.
    IllegalJumpOnCs,
    /// The sequence contains an unknown opcode.
    UnknownOpcode,
    /// There was a DUMMY_SDR or DUMMY_RWDS_SDR instruction in a DDR sequence.
    DummySdrInDdrSequence,
    /// There was a DUMMY_DDR or DUMMY_RWDS_DDR instruction in a SDR sequence.
    DummyDdrInSdrSequence,
    /// The start address exceeds the total flash capacity.
    StartAddressOutOfBounds,
    /// Unknown error code: 7.
    Unknown7,
    /// Unknown error code: 8.
    Unknown8,
    /// Unknown error code: 9.
    Unknown9,
    /// Unknown error code: 10.
    Unknown10,
    /// Unknown error code: 11.
    Unknown11,
    /// Unknown error code: 12.
    Unknown12,
    /// Unknown error code: 13.
    Unknown13,
    /// The execution of the sequence timed out.
    SequenceTimeout,
    /// The access crossed a flash boundary.
    AccessCrossedFlashBoundary,
}

impl CommandErrorCode {
    /// The number by which the peripheral reports this error.
    pub open spec fn number(self) -> int {
        match self {
            CommandErrorCode::NoError => 0,
            CommandErrorCode::Unknown1 => 1,
            CommandErrorCode::IllegalJumpOnCs => 2,
            CommandErrorCode::UnknownOpcode => 3,
            CommandErrorCode::DummySdrInDdrSequence => 4,
            CommandErrorCode::DummyDdrInSdrSequence => 5,
            CommandErrorCode::StartAddressOutOfBounds => 6,
            CommandErrorCode::Unknown7 => 7,
            CommandErrorCode::Unknown8 => 8,
            CommandErrorCode::Unknown9 => 9,
            CommandErrorCode::Unknown10 => 10,
            CommandErrorCode::Unknown11 => 11,
            CommandErrorCode::Unknown12 => 12,
            CommandErrorCode::Unknown13 => 13,
            CommandErrorCode::SequenceTimeout => 14,
            CommandErrorCode::AccessCrossedFlashBoundary => 15,
        }
    }

    /// The error whose number is in the low four bits of `code`.
    pub open spec fn of_bits(code: u8) -> CommandErrorCode {
        choose|error: CommandErrorCode| #[trigger] error.number() == code % 16
    }

    /// The error that the field `IPCMDERRCODE` reports.
    ///
    /// The field has four bits; higher bits are ignored.
    pub fn from_pac(code: u8) -> (error: Self)
        ensures
            error.number() == code % 16,
            error == Self::of_bits(code),
    {
        assert(code & 0xF == code % 16) by (bit_vector);
        let error = match code & 0xF {
            0 => CommandErrorCode::NoError,
            1 => CommandErrorCode::Unknown1,
            2 => CommandErrorCode::IllegalJumpOnCs,
            3 => CommandErrorCode::UnknownOpcode,
            4 => CommandErrorCode::DummySdrInDdrSequence,
            5 => CommandErrorCode::DummyDdrInSdrSequence,
            6 => CommandErrorCode::StartAddressOutOfBounds,
            7 => CommandErrorCode::Unknown7,
            8 => CommandErrorCode::Unknown8,
            9 => CommandErrorCode::Unknown9,
            10 => CommandErrorCode::Unknown10,
            11 => CommandErrorCode::Unknown11,
            12 => CommandErrorCode::Unknown12,
            13 => CommandErrorCode::Unknown13,
            14 => CommandErrorCode::SequenceTimeout,
            _ => CommandErrorCode::AccessCrossedFlashBoundary,
        };
        assert(error.number() == code % 16);
        error
    }
}

/// Error that can occur while waiting for space in the TX FIFO.
#[derive(Copy, Clone, Debug, PartialEq, Eq, Structural)]
pub enum WaitTxReadyError {
    /// The command failed with an error.
    CommandError(WaitCommandError),
    /// The command finished while we were waiting for space in the TX FIFO.
    CommandFinished,
}

impl From<WaitCommandError> for WaitTxReadyError {
    fn from(value: WaitCommandError) -> (error: Self) {
        WaitTxReadyError::CommandError(value)
    }
}

impl vstd::std_specs::convert::FromSpecImpl<WaitCommandError> for WaitTxReadyError {
    open spec fn obeys_from_spec() -> bool {
        true
    }

    open spec fn from_spec(value: WaitCommandError) -> Self {
        WaitTxReadyError::CommandError(value)
    }
}

/// Error executing a command sequence.
#[derive(Copy, Clone, Debug, PartialEq, Eq, Structural)]
pub struct InvalidCommandSequence {
    /// The requested sequence start index.
    pub start: u8,
    /// The requested number of sequences.
    pub count: u8,
}

} // verus!
