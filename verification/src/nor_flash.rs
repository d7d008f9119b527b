//! FlexSPI FLASH driver.

use crate::laws::chip::{erases, lemma_erase_command, lemma_program_command, programs};
use crate::laws::reading::{lemma_read_commands_fields, reads_in_parts};
use crate::nor_flash::configure::{configure_run, Configure};
use crate::nor_flash::erase::{erase_run, erase_sequence, Erase};
use crate::nor_flash::identify::{read_id_run, ReadId};
use crate::nor_flash::program::{page_program_run, PageProgram};
use crate::nor_flash::read::{lemma_readable, read_run, readable, Parts, Read};
use crate::nor_flash::sequence::{CHIP_ERASE, ERASE_BLOCK, ERASE_SECTOR};
use crate::nor_flash::status::{read_status_run, ReadStatus, RunCommand};
use crate::nor_flash::write_enable::{
    enable_write_run, set_write_enable, set_write_enable_run, wait_write_run, EnableWrite,
    WaitWrite,
};
use crate::peripheral::{CommandSequence, FlexSpi, WaitCommandError, WaitTxReadyError};
use crate::procedure::Procedure;
use crate::registers::Reply;
use vstd::prelude::*;

pub mod configure;
pub mod erase;
pub mod identify;
pub mod program;
pub mod read;
pub mod sequence;
pub mod status;
pub mod write_enable;

verus! {

/// FlexSPI NOR FLASH driver.
///
/// This driver re-uses the existing FlexSPI configuration.
/// It only changes some settings for the IP command execution.
/// It should not interfere with AHB access to the flash device.
///
/// The methods hand back what is to be done on the peripheral as a
/// [`Procedure`](crate::procedure::Procedure).
#[derive(Debug)]
pub struct FlexSpiNorFlash<P> {
    /// The FlexSPI peripheral.
    #[allow(unused)]
    flex_spi: FlexSpi<P>,
    /// The alignment requirements of the flash memory.
    alignment: FlashAlignment,
}

impl<P> FlexSpiNorFlash<P> {
    /// The peripheral.
    pub closed spec fn peripheral(&self) -> P {
        self.flex_spi.peripheral()
    }

    /// The alignment requirements of the flash memory.
    pub closed spec fn alignment(&self) -> FlashAlignment {
        self.alignment
    }

    /// Create a new FlexSPI FLASH driver without checking the alignment validity.
    ///
    /// The page size is used exclusivly for the [`page_program()`](Self::page_program) command.
    /// It is used to ensure that data is not written across page boundaries.
    ///
    /// With the driver comes what sets the FIFOs up for it. That has to be carried out before
    /// anything else.
    ///
    /// The FLASH driver can be used to write to flash, which can potentially overwrite parts of
    /// the currently running program. The user must take care to uphold all the soundness
    /// requirements of Rust.
    pub fn new_unchecked(flex_spi: P, alignment: FlashAlignment) -> (created: (Self, Configure))
        ensures
            created.0.peripheral() == flex_spi,
            created.0.alignment() == alignment,
            created.1.inv(),
            forall|replies: Seq<Reply>| #[trigger] created.1.run(replies) == configure_run(replies),
    {
        let flash = FlexSpiNorFlash { flex_spi: FlexSpi::new(flex_spi), alignment };
        (flash, Configure::new())
    }

    /// Read the flash ID.
    pub fn read_id(&mut self) -> (read: ReadId)
        ensures
            *final(self) == *old(self),
            read.inv(),
            forall|replies: Seq<Reply>|
                #[trigger] read.run(replies) == read_id_run(replies),
    {
        ReadId::new()
    }

    /// Read data from the given flash address.
    ///
    /// The outcome is the result together with the buffer.
    ///
    /// Data that one command cannot read is read with several. Where they meet, the address is
    /// aligned as the alignment of read commands demands, if the start and the end of the data are.
    ///
    /// NOTE: The address argument is a physical flash address, not a CPU memory address.
    pub fn read(&mut self, address: u32, buffer: Vec<u8>) -> (read: Read)
        requires
            readable(address, buffer@.len() as int),
        ensures
            *final(self) == *old(self),
            read.inv(),
            forall|replies: Seq<Reply>|
                #[trigger] read.run(replies) == read_run(
                    Parts::aligned(
                        address,
                        buffer@.len() as int,
                        old(self).alignment().read_alignment,
                    ),
                    buffer@,
                    replies,
                ),
            forall|replies: Seq<Reply>|
                reads_in_parts(
                    #[trigger] read.run(replies),
                    address,
                    old(self).alignment().read_alignment,
                    buffer@.len() as int,
                ),
    {
        let read_alignment: u32 = self.alignment.read_alignment;
        let length: usize = buffer.len();
        proof {
            lemma_readable(address, length as int, read_alignment);
        }
        let ghost expected = buffer@;
        let parts = Parts::new(address, length, read_alignment);
        let read = Read::new(parts, buffer);
        assert forall|replies: Seq<Reply>|
            reads_in_parts(
                #[trigger] read.run(replies),
                address,
                read_alignment,
                length as int,
            ) by {
            lemma_read_commands_fields(address, read_alignment, expected, replies);
        }
        read
    }

    /// Erase a sector of flash memory.
    ///
    /// NOTE: The address argument is a physical flash address, not a CPU memory address.
    pub fn erase_sector(&mut self, address: u32) -> (erase: Erase)
        ensures
            *final(self) == *old(self),
            erase.inv(),
            forall|replies: Seq<Reply>|
                #[trigger] erase.run(replies) == erase_run(
                    erase_sequence(ERASE_SECTOR, address),
                    replies,
                ),
            forall|replies: Seq<Reply>| erases(#[trigger] erase.run(replies), 5, address),
    {
        let erase = Erase::new(
            CommandSequence {
                start: ERASE_SECTOR,
                count: 1,
                address,
                data_size: 0,
                parallel: false,
            },
        );
        assert forall|replies: Seq<Reply>|
            erases(#[trigger] erase.run(replies), 5, address) by {
            lemma_erase_command(address, replies);
        }
        erase
    }

    /// Erase a block of flash memory.
    ///
    /// NOTE: The address argument is a physical flash address, not a CPU memory address.
    pub fn erase_block(&mut self, address: u32) -> (erase: Erase)
        ensures
            *final(self) == *old(self),
            erase.inv(),
            forall|replies: Seq<Reply>|
                #[trigger] erase.run(replies) == erase_run(
                    erase_sequence(ERASE_BLOCK, address),
                    replies,
                ),
            forall|replies: Seq<Reply>| erases(#[trigger] erase.run(replies), 8, address),
    {
        let erase = Erase::new(
            CommandSequence {
                start: ERASE_BLOCK,
                count: 1,
                address,
                data_size: 0,
                parallel: false,
            },
        );
        assert forall|replies: Seq<Reply>|
            erases(#[trigger] erase.run(replies), 8, address) by {
            lemma_erase_command(address, replies);
        }
        erase
    }

    /// Erase the whole flash chip.
    pub fn erase_chip(&mut self) -> (erase: Erase)
        ensures
            *final(self) == *old(self),
            erase.inv(),
            forall|replies: Seq<Reply>|
                #[trigger] erase.run(replies) == erase_run(erase_sequence(CHIP_ERASE, 0), replies),
            forall|replies: Seq<Reply>| erases(#[trigger] erase.run(replies), 11, 0),
    {
        let erase = Erase::new(
            CommandSequence {
                start: CHIP_ERASE,
                count: 1,
                address: 0,
                data_size: 0,
                parallel: false,
            },
        );
        assert forall|replies: Seq<Reply>| erases(#[trigger] erase.run(replies), 11, 0) by {
            lemma_erase_command(0, replies);
        }
        erase
    }

    /// Perform a page program.
    ///
    /// The data to be written may not cross a page boundary.
    ///
    /// The peripheral takes the size of the data in 16 bits. With more than 65535 bytes, which only
    /// pages beyond that size have room for, the command announces the size modulo 65536 while all
    /// of the data is still handed to the TX FIFO, so the page is not programmed as a whole even
    /// where the outcome is `Ok`.
    ///
    /// You flash memory may impose more restrictions on programming.
    /// Please refer to the datasheet of the flash memory for more details.
    ///
    /// NOTE: The address argument is a physical flash address, not a CPU memory address.
    pub fn page_program<'d>(&mut self, address: u32, data: &'d [u8]) -> (program: PageProgram<'d>)
        requires
            data@.len() <= u32::MAX,
            page_offset_defined(data@.len() as int, old(self).alignment().page_size),
        ensures
            *final(self) == *old(self),
            program.inv(),
            forall|replies: Seq<Reply>|
                #[trigger] program.run(replies) == page_program_run(
                    address,
                    data@,
                    old(self).alignment().page_size,
                    replies,
                ),
            forall|replies: Seq<Reply>|
                programs(
                    #[trigger] program.run(replies),
                    address,
                    data@,
                    old(self).alignment().page_size,
                ),
    {
        let page_size: u32 = self.alignment.page_size;
        let length: usize = data.len();
        let program = PageProgram::new(address, data, page_size);
        assert forall|replies: Seq<Reply>|
            programs(#[trigger] program.run(replies), address, data@, page_size) by {
            assert(data@.len() == length);
            lemma_program_command(address, data@, page_size, replies);
        }
        program
    }

    /// Read the status of the flash memory.
    ///
    /// Note that you normally do not need to call this yourself.
    /// The status of the flash memory is checked before write operations automatically.
    pub fn read_status(&mut self) -> (read: ReadStatus)
        ensures
            *final(self) == *old(self),
            read.inv(),
            forall|replies: Seq<Reply>|
                #[trigger] read.run(replies) == read_status_run(replies),
    {
        ReadStatus::new()
    }

    /// Set the write enable latch without verifying that it is actually enabled.
    pub fn set_write_enable(&mut self) -> (set: RunCommand)
        ensures
            *final(self) == *old(self),
            set.inv(),
            forall|replies: Seq<Reply>|
                #[trigger] set.run(replies) == set_write_enable_run(replies),
    {
        set_write_enable()
    }

    /// Set the write-enable latch and verify that it is enabled.
    pub fn set_and_verify_write_enable(&mut self) -> (enable: EnableWrite)
        ensures
            *final(self) == *old(self),
            enable.inv(),
            forall|replies: Seq<Reply>|
                #[trigger] enable.run(replies) == enable_write_run(replies),
    {
        EnableWrite::new()
    }

    /// Wait for a write to not be in progress.
    pub fn wait_write_not_in_progress(&mut self) -> (wait: WaitWrite)
        ensures
            *final(self) == *old(self),
            wait.inv(),
            forall|replies: Seq<Reply>|
                #[trigger] wait.run(replies) == wait_write_run(replies),
    {
        WaitWrite::new()
    }
}

/// Alignment requirements of a flash memory chip.
#[derive(Copy, Clone, Debug, PartialEq, Eq, Structural)]
pub struct FlashAlignment {
    /// The alignment requirement of read commands.
    ///
    /// Read command start and end addresses must be aligned to a multiple of this value.
    pub read_alignment: u32,
    /// The alignment requirement of write commands.
    ///
    /// Write command start and end addresses must be aligned to a multiple of this value.
    ///
    /// Note that writes must also be fully contained in a single page (see
    /// [`page_size`](Self::page_size)).
    pub write_alignment: u32,
    /// The size of a sector erased by the [`FlexSpiNorFlash::erase_sector()`] command.
    pub sector_size: u32,
    /// The size of a block erased by the [`FlexSpiNorFlash::erase_block()`] command.
    pub block_size: u32,
    /// The size of a page for the [`FlexSpiNorFlash::page_program()`] command.
    ///
    /// Writes using the `page_program()` command may not cross page boundaries.
    pub page_size: u32,
}

/// The flash memory status.
#[derive(Copy, Clone, Debug, PartialEq, Eq, Structural)]
pub struct Status {
    /// The raw status returned by the flash chip.
    pub raw: u32,
}

impl Status {
    /// Whether bit 0 is set: a write operation is in progress.
    pub open spec fn busy(self) -> bool {
        self.raw % 2 == 1
    }

    /// Whether bit 1 is set: the write-enable latch is set.
    pub open spec fn writable(self) -> bool {
        self.raw / 2 % 2 == 1
    }

    /// Check if there is a write operation in progress.
    pub fn is_write_in_progress(self) -> (in_progress: bool)
        ensures
            in_progress == self.busy(),
    {
        let raw: u32 = self.raw;
        assert((raw & 0x01 != 0) == (raw % 2 == 1)) by (bit_vector);
        self.raw & 0x01 != 0
    }

    /// Check if the write-enable latch it set.
    pub fn is_write_enabled(self) -> (enabled: bool)
        ensures
            enabled == self.writable(),
    {
        let raw: u32 = self.raw;
        assert((raw & 0x02 != 0) == (raw / 2 % 2 == 1)) by (bit_vector);
        self.raw & 0x02 != 0
    }
}

/// Error that can occur when reading data from the flash memory.
#[derive(Copy, Clone, Debug, PartialEq, Eq, Structural)]
pub enum ReadError {
    /// An error occured while waiting for data in the RX buffer.
    WaitRx(WaitCommandError),
    /// An error occured while waiting for the command the finish.
    WaitFinish(WaitCommandError),
    /// The command finished, but we did not get the amount of data we expected.
    NotEnoughData(NotEnoughData),
}

/// We did not receive the amount of data we expected.
#[derive(Copy, Clone, Debug, PartialEq, Eq, Structural)]
pub struct NotEnoughData {
    /// The expected amount of data.
    pub expected: usize,
    /// The actual amount of data.
    pub actual: usize,
}

impl From<NotEnoughData> for ReadError {
    fn from(value: NotEnoughData) -> (error: Self) {
        ReadError::NotEnoughData(value)
    }
}

impl vstd::std_specs::convert::FromSpecImpl<NotEnoughData> for ReadError {
    open spec fn obeys_from_spec() -> bool {
        true
    }

    open spec fn from_spec(value: NotEnoughData) -> Self {
        ReadError::NotEnoughData(value)
    }
}

/// Error that can occur when performing an erase or write operation.
#[derive(Copy, Clone, Debug, PartialEq, Eq, Structural)]
pub enum WriteError {
    /// Failed to read the flash memory status.
    ReadStatus(ReadError),
    /// A write operation is already in progress.
    WriteInProgress,
    /// Failed to set the write-enable latch.
    SetWriteEnable(WaitCommandError),
    /// The write-enable latch did not actually engage.
    WriteEnableFailed,
    /// An error occured while waiting for space in the TX buffer.
    WaitTx(WaitTxReadyError),
    /// An error occured while waiting for the command to finish.
    WaitFinish(WaitCommandError),
}

/// Error that can occur during a page program operation.
#[derive(Copy, Clone, Debug, PartialEq, Eq, Structural)]
pub enum PageProgramError {
    /// The write operation would have crossed a page boundary.
    PageBoundaryCrossed(WriteCrossesPageBoundary),
    /// The operation was attempted but failed.
    WriteFailed(WriteError),
}

/// A write operation would have crossed a page boundary.
#[derive(Copy, Clone, Debug, PartialEq, Eq, Structural)]
pub struct WriteCrossesPageBoundary {
    /// The start address of the write.
    pub address: u32,
    /// The total length of the write.
    pub length: u32,
    /// The page size of the flash memory.
    pub page_size: u32,
}

impl From<WriteError> for PageProgramError {
    fn from(value: WriteError) -> (error: Self) {
        PageProgramError::WriteFailed(value)
    }
}

impl vstd::std_specs::convert::FromSpecImpl<WriteError> for PageProgramError {
    open spec fn obeys_from_spec() -> bool {
        true
    }

    open spec fn from_spec(value: WriteError) -> Self {
        PageProgramError::WriteFailed(value)
    }
}

/// Whether `length` bytes at `address` lie within one page.
pub open spec fn within_page(address: u32, length: int, page_size: u32) -> bool {
    length <= page_size && address as int % page_size as int + length <= page_size
}

/// Whether the position of a write in its page can be told.
///
/// An empty write has no place in pages of size zero.
pub open spec fn page_offset_defined(length: int, page_size: u32) -> bool {
    length <= page_size ==> page_size > 0
}

/// Tells whether the position of a write in its page can be told.
pub fn is_page_offset_defined(length: u32, page_size: u32) -> (defined: bool)
    ensures
        defined == page_offset_defined(length as int, page_size),
{
    length > page_size || page_size > 0
}

impl WriteCrossesPageBoundary {
    /// Check that a write fully falls into one page.
    pub fn check(address: u32, length: u32, page_size: u32) -> (result: Result<(), Self>)
        requires
            page_offset_defined(length as int, page_size),
        ensures
            result == if within_page(address, length as int, page_size) {
                Ok(())
            } else {
                Err(WriteCrossesPageBoundary { address, length, page_size })
            },
    {
        if length <= page_size && address % page_size <= page_size - length {
            Ok(())
        } else {
            Err(WriteCrossesPageBoundary { address, length, page_size })
        }
    }
}

impl From<WriteCrossesPageBoundary> for PageProgramError {
    fn from(value: WriteCrossesPageBoundary) -> (error: Self) {
        PageProgramError::PageBoundaryCrossed(value)
    }
}

impl vstd::std_specs::convert::FromSpecImpl<WriteCrossesPageBoundary> for PageProgramError {
    open spec fn obeys_from_spec() -> bool {
        true
    }

    open spec fn from_spec(value: WriteCrossesPageBoundary) -> Self {
        PageProgramError::PageBoundaryCrossed(value)
    }
}

} // verus!
