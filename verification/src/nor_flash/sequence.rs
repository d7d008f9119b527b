//! Default sequence indexes in the LUT for specific commands.

use vstd::prelude::*;

verus! {

/// Read data.
pub const READ: u8 = 0;

/// Read the status in SPI mode.
pub const READ_STATUS: u8 = 1;

/// Read the status in XPI mode.
pub const READ_STATUS_XPI: u8 = 2;

/// Set the write enable latch in SPI mode.
pub const WRITE_ENABLE: u8 = 3;

/// Set the write enable latch in XPI mode.
pub const WRITE_ENABLE_XPI: u8 = 4;

/// Erase a sector.
pub const ERASE_SECTOR: u8 = 5;

/// Read the flash ID.
pub const READ_ID: u8 = 7;

/// Erase a block.
pub const ERASE_BLOCK: u8 = 8;

/// Program a page.
pub const PAGE_PROGRAM: u8 = 9;

/// Erase the whole chip.
pub const CHIP_ERASE: u8 = 11;

/// Leave the no-command mode.
pub const EXIT_NO_COMMAND: u8 = 15;

} // verus!
