use flexspi_nor::nor_flash::read::{is_readable, Parts};
use flexspi_nor::nor_flash::{
    is_page_offset_defined, FlashAlignment, FlexSpiNorFlash, NotEnoughData, PageProgramError,
    ReadError, Status, WriteCrossesPageBoundary, WriteError,
};
use flexspi_nor::peripheral::{
    CommandErrorCode, CommandFailed, WaitCommandError, WaitTxReadyError,
};
use flexspi_nor::procedure::Procedure;
use flexspi_nor::registers::{Access, CacheCommand, Interrupts, IpControl1, Reply};
use std::collections::{HashMap, VecDeque};

const NONE: Interrupts = Interrupts {
    ipcmddone: false,
    ipcmdge: false,
    ipcmderr: false,
    iprxwa: false,
    iptxwe: false,
    datalearnfail: false,
    seqtimeout: false,
};

const FLASH_ID: u32 = 0x003A_85C2;

const ALIGNMENT: FlashAlignment = FlashAlignment {
    read_alignment: 2,
    write_alignment: 2,
    sector_size: 4096,
    block_size: 64 * 1024,
    page_size: 256,
};

/// A flash memory behind a FlexSPI peripheral.
struct Board {
    memory: HashMap<u32, u8>,
    /// Whether the write-enable latch is set.
    latch: bool,
    /// How often the latch command is ignored.
    deaf: u32,
    /// How many status reads show a write in progress.
    busy: u32,
    /// For how many status reads a write is in progress after it was started.
    write_time: u32,

    address: u32,
    control: IpControl1,
    running: bool,
    done: bool,
    /// What a command fails with, the code of which is looked up by its sequence.
    failing: Option<(u8, Interrupts)>,
    failed: Interrupts,
    /// Whether the arbiter drops every command with this sequence.
    dropping: Option<u8>,
    incoming: VecDeque<u8>,
    rx: VecDeque<u8>,
    rx_field: u8,
    tx_field: u8,
    window: Vec<u32>,
    received: Vec<u8>,
    /// After how many bytes a program command stops listening.
    listens_for: usize,

    cache_busy: u32,
    cache_stale: bool,
    /// Every command: its control register and its address.
    commands: Vec<(IpControl1, u32)>,
    issued: Vec<Access>,
}

impl Board {
    fn new() -> Board {
        Board {
            memory: HashMap::new(),
            latch: false,
            deaf: 0,
            busy: 0,
            write_time: 2,
            address: 0,
            control: IpControl1 { idatsz: 0, iseqid: 0, iseqnum: 0, iparen: false },
            running: false,
            done: false,
            failing: None,
            failed: NONE,
            dropping: None,
            incoming: VecDeque::new(),
            rx: VecDeque::new(),
            rx_field: 0,
            tx_field: 0,
            window: Vec::new(),
            received: Vec::new(),
            listens_for: usize::MAX,
            cache_busy: 1,
            cache_stale: false,
            commands: Vec::new(),
            issued: Vec::new(),
        }
    }

    /// A board, and the driver for it.
    fn with_flash() -> (Board, FlexSpiNorFlash<()>) {
        Board::with_alignment(ALIGNMENT)
    }

    /// A board, and the driver for it with the given alignment.
    fn with_alignment(alignment: FlashAlignment) -> (Board, FlexSpiNorFlash<()>) {
        let mut board = Board::new();
        let (flash, configure) = FlexSpiNorFlash::new_unchecked((), alignment);
        board.carry_out(configure);
        assert_eq!(
            board.issued,
            vec![Access::SetRxWatermark(15), Access::SetTxWatermark(15)]
        );
        board.issued.clear();
        (board, flash)
    }

    fn carry_out<P: Procedure>(&mut self, procedure: P) -> P::Output {
        let mut procedure = procedure;
        while let Some(access) = procedure.pending() {
            assert!(self.issued.len() < 1_000_000, "the procedure does not end");
            let reply = self.reply(access);
            assert!(access.is_answered_by(&reply));
            self.issued.push(access);
            procedure = procedure.step(reply);
        }
        procedure.finish()
    }

    fn byte(&self, address: u32) -> u8 {
        self.memory.get(&address).copied().unwrap_or(0xFF)
    }

    fn bytes(&self, address: u32, len: u32) -> Vec<u8> {
        (address..address + len).map(|at| self.byte(at)).collect()
    }

    fn erase(&mut self, address: u32, size: u32) {
        let start = address / size * size;
        self.memory.retain(|at, _| *at < start || *at >= start + size);
    }

    fn watermark(field: u8) -> usize {
        (field as usize + 1) * 8
    }

    fn writes(&mut self) -> bool {
        let enabled = self.latch;
        if enabled {
            self.latch = false;
            self.busy = self.write_time;
            self.cache_stale = true;
        }
        enabled
    }

    fn trigger(&mut self) {
        self.commands.push((self.control, self.address));
        self.done = false;
        self.running = true;
        self.incoming.clear();
        self.received.clear();
        if let Some((sequence, flags)) = self.failing {
            if sequence == self.control.iseqid {
                self.failed = flags;
                self.running = false;
                return;
            }
        }
        if self.dropping == Some(self.control.iseqid) {
            self.running = false;
            return;
        }
        let size = self.control.idatsz as u32;
        match self.control.iseqid {
            0 => {
                let bytes = self.bytes(self.address, size);
                self.incoming.extend(bytes);
            }
            2 => {
                let mut status = 0x55AA_5500u32;
                if self.busy > 0 {
                    self.busy -= 1;
                    status |= 1;
                }
                if self.latch {
                    status |= 2;
                }
                self.incoming.extend(status.to_le_bytes());
            }
            4 => {
                if self.deaf > 0 {
                    self.deaf -= 1;
                } else {
                    self.latch = true;
                }
            }
            5 => {
                if self.writes() {
                    self.erase(self.address, ALIGNMENT.sector_size);
                }
            }
            7 => {
                self.incoming.extend(FLASH_ID.to_le_bytes());
                self.incoming.extend([0u8; 60]);
            }
            8 => {
                if self.writes() {
                    self.erase(self.address, ALIGNMENT.block_size);
                }
            }
            9 => {}
            11 => {
                if self.writes() {
                    self.memory.clear();
                }
            }
            other => panic!("unknown sequence {}", other),
        }
    }

    /// Lets the command that runs go on as far as it can.
    fn progress(&mut self) {
        while self.rx.len() < 128 {
            match self.incoming.pop_front() {
                Some(byte) => self.rx.push_back(byte),
                None => break,
            }
        }
        if self.running && self.incoming.is_empty() {
            let size = self.control.idatsz as usize;
            if self.control.iseqid != 9 {
                self.running = false;
                self.done = true;
            } else if self.received.len() >= size || self.received.len() >= self.listens_for {
                if self.writes() {
                    for (at, byte) in self.received.iter().take(size).enumerate() {
                        let address = self.address + at as u32;
                        let old = self.memory.get(&address).copied().unwrap_or(0xFF);
                        self.memory.insert(address, old & byte);
                    }
                }
                self.running = false;
                self.done = true;
            }
        }
    }

    fn reply(&mut self, access: Access) -> Reply {
        match access {
            Access::ReadInterrupts => {
                self.progress();
                Reply::Interrupts(Interrupts {
                    ipcmddone: self.done,
                    iprxwa: self.rx.len() >= Board::watermark(self.rx_field),
                    iptxwe: self.running && self.control.iseqid == 9,
                    ..self.failed
                })
            }
            Access::ClearInterrupts(flags) => {
                if flags.ipcmddone {
                    self.done = false;
                }
                if flags.ipcmderr || flags.ipcmdge || flags.datalearnfail || flags.seqtimeout {
                    self.failed = NONE;
                }
                if flags.iprxwa {
                    for _ in 0..Board::watermark(self.rx_field) {
                        self.rx.pop_front();
                    }
                }
                if flags.iptxwe {
                    for word in self.window.drain(..) {
                        self.received.extend(word.to_le_bytes());
                    }
                }
                Reply::Written
            }
            Access::ReadStatus0 => Reply::Status0(!self.running),
            Access::ReadStatus1 => Reply::Status1(self.control.iseqid, 0x06),
            Access::WriteIpControl0(address) => {
                self.address = address;
                Reply::Written
            }
            Access::WriteIpControl1(control) => {
                self.control = control;
                Reply::Written
            }
            Access::TriggerCommand => {
                self.trigger();
                Reply::Written
            }
            Access::ReadTxWatermark => Reply::TxWatermark(self.tx_field),
            Access::SetTxWatermark(field) => {
                self.tx_field = field;
                Reply::Written
            }
            Access::ClearTxFifo => {
                self.window.clear();
                Reply::Written
            }
            Access::ReadRxWatermark => Reply::RxWatermark(self.rx_field),
            Access::SetRxWatermark(field) => {
                self.rx_field = field;
                Reply::Written
            }
            Access::ClearRxFifo => {
                self.rx.clear();
                Reply::Written
            }
            Access::ReadRxFill => Reply::RxFill(((self.rx.len() + 7) / 8) as u8),
            Access::WriteTxData(index, word) => {
                assert_eq!(index, self.window.len());
                assert!(index < 32);
                self.window.push(word);
                Reply::Written
            }
            Access::ReadRxData(index) => {
                assert!(index < 32);
                let byte = |at: usize| self.rx.get(4 * index + at).copied().unwrap_or(0x99);
                Reply::RxData(u32::from_le_bytes([byte(0), byte(1), byte(2), byte(3)]))
            }
            Access::ReadCacheGo => {
                let go = self.cache_busy > 0;
                if go {
                    self.cache_busy -= 1;
                }
                Reply::CacheGo(go)
            }
            Access::StartCacheCommand(command) => match command.unless_running(false) {
                Some(command) => {
                    let whole = CacheCommand {
                        invw0: true,
                        pushw0: false,
                        invw1: true,
                        pushw1: false,
                        go: true,
                    };
                    assert_eq!(command, whole);
                    self.cache_stale = false;
                    self.cache_busy = 2;
                    Reply::CacheStarted(true)
                }
                None => Reply::CacheStarted(false),
            },
        }
    }

    fn sequences(&self) -> Vec<u8> {
        self.commands.iter().map(|(control, _)| control.iseqid).collect()
    }
}

#[test]
fn the_id_is_read() {
    let (mut board, mut flash) = Board::with_flash();
    assert_eq!(board.carry_out(flash.read_id()), Ok(FLASH_ID));
    assert_eq!(
        board.commands,
        vec![(IpControl1 { idatsz: 64, iseqid: 7, iseqnum: 0, iparen: false }, 0)]
    );
    assert_eq!(board.issued[0], Access::ClearRxFifo);
    assert_eq!(board.carry_out(flash.read_id()), Ok(FLASH_ID));
}

#[test]
fn the_configuration_block_is_read() {
    let (mut board, mut flash) = Board::with_flash();
    for at in 0..512u32 {
        board.memory.insert(0x400 + at, (at % 251) as u8);
    }
    let (result, buffer) = board.carry_out(flash.read(0x400, vec![0; 512]));
    assert_eq!(result, Ok(()));
    assert_eq!(buffer, board.bytes(0x400, 512));
    assert_eq!(
        board.commands,
        vec![(IpControl1 { idatsz: 512, iseqid: 0, iseqnum: 0, iparen: false }, 0x400)]
    );
}

#[test]
fn reads_of_any_length_give_the_contents() {
    let (mut board, mut flash) = Board::with_flash();
    for at in 0..1000u32 {
        board.memory.insert(at, (at * 31 % 253) as u8);
    }
    for len in [0, 1, 2, 3, 4, 7, 8, 9, 127, 128, 129, 131, 255, 256, 300] {
        let (result, buffer) = board.carry_out(flash.read(17, vec![0x77; len]));
        assert_eq!(result, Ok(()));
        assert_eq!(buffer, board.bytes(17, len as u32));
    }
}

#[test]
fn an_empty_read_takes_no_command() {
    let (mut board, mut flash) = Board::with_flash();
    let (result, buffer) = board.carry_out(flash.read(0xFFFF_FFFF, Vec::new()));
    assert_eq!((result, buffer), (Ok(()), Vec::new()));
    assert_eq!(board.issued, vec![Access::ClearRxFifo]);
}

#[test]
fn a_long_read_is_split() {
    let alignment = FlashAlignment { read_alignment: 1, ..ALIGNMENT };
    let (mut board, mut flash) = Board::with_alignment(alignment);
    let start = 0x1_0003u32;
    let len = 2 * 65535 + 5;
    for at in 0..len {
        board.memory.insert(start + at, (at ^ (at >> 8)) as u8);
    }
    let (result, buffer) = board.carry_out(flash.read(start, vec![0; len as usize]));
    assert_eq!(result, Ok(()));
    assert_eq!(buffer, board.bytes(start, len));
    let read = |idatsz: u16| IpControl1 { idatsz, iseqid: 0, iseqnum: 0, iparen: false };
    assert_eq!(
        board.commands,
        vec![
            (read(65535), start),
            (read(65535), start + 65535),
            (read(5), start + 2 * 65535),
        ]
    );
}

#[test]
fn a_long_read_is_split_at_aligned_addresses() {
    let sizes = [
        (0, 65535),
        (1, 65535),
        (2, 65534),
        (4, 65532),
        (256, 65280),
        (65535, 65535),
        (65536, 65535),
    ];
    for (read_alignment, size) in sizes {
        // For the largest alignment that one command can read, the rest has to be as large.
        let last = if read_alignment == 65535 { 65535 } else { 256 };
        let (mut board, mut flash) =
            Board::with_alignment(FlashAlignment { read_alignment, ..ALIGNMENT });
        let start = 0x100 * 65535u32;
        let len = 2 * size + last;
        for at in 0..len {
            board.memory.insert(start + at, (at ^ (at >> 7)) as u8);
        }
        let (result, buffer) = board.carry_out(flash.read(start, vec![0; len as usize]));
        assert_eq!(result, Ok(()));
        assert_eq!(buffer, board.bytes(start, len));
        let parts: Vec<(u32, u32)> = board
            .commands
            .iter()
            .map(|(control, address)| (*address, control.idatsz as u32))
            .collect();
        assert_eq!(
            parts,
            vec![(start, size), (start + size, size), (start + 2 * size, last)]
        );
        if [1, 2, 4, 256, 65535].contains(&read_alignment) {
            for (address, len) in parts {
                assert_eq!(address % read_alignment, 0);
                assert_eq!((address + len) % read_alignment, 0);
            }
        }
    }
}

#[test]
fn a_read_that_cannot_be_aligned_takes_the_largest_commands() {
    // The length or the address is no multiple of the alignment.
    let cases = [
        (4, 0, 65533, vec![(0, 65533)]),
        (2, 0, 65535, vec![(0, 65535)]),
        (4, 2, 65536, vec![(2, 65535), (65537, 1)]),
        (256, 0x100, 65535 + 300, vec![(0x100, 65535), (0x100 + 65535, 300)]),
    ];
    for (read_alignment, start, len, expected) in cases {
        let (mut board, mut flash) =
            Board::with_alignment(FlashAlignment { read_alignment, ..ALIGNMENT });
        for at in 0..len {
            board.memory.insert(start + at, (at ^ (at >> 5)) as u8);
        }
        let (result, buffer) = board.carry_out(flash.read(start, vec![0; len as usize]));
        assert_eq!(result, Ok(()));
        assert_eq!(buffer, board.bytes(start, len));
        let parts: Vec<(u32, u32)> = board
            .commands
            .iter()
            .map(|(control, address)| (*address, control.idatsz as u32))
            .collect();
        assert_eq!(parts, expected);
    }
}

#[test]
fn data_is_readable_as_long_as_the_addresses_of_commands_fit() {
    assert!(is_readable(0xFFFF_FFFF, 0));
    assert!(is_readable(0xFFFF_FFFF, 65535));
    assert!(!is_readable(0xFFFF_FFFF, 65536));
    assert!(is_readable(0xFFFF_FFFF - 65535, 2 * 65535));
    assert!(!is_readable(0xFFFF_FFFF - 65535, 2 * 65535 + 1));
    assert_eq!(Parts::new(0, 65536, 2), Parts { address: 0, size: 65534 });
    // Data beyond the last address is not read in aligned parts.
    assert_eq!(Parts::new(0xFFFF_0000, 65536, 2).size, 65534);
    assert_eq!(Parts::new(0xFFFF_0000, 65538, 2).size, 65535);
    assert!(is_readable(0xFFFF_0000, 2 * 65535));
}

#[test]
fn a_read_can_end_at_the_last_address() {
    let (mut board, mut flash) = Board::with_flash();
    let (result, buffer) = board.carry_out(flash.read(0xFFFF_FFF0, vec![0; 15]));
    assert_eq!((result, buffer), (Ok(()), vec![0xFF; 15]));
}

#[test]
fn the_status_is_read() {
    let (mut board, mut flash) = Board::with_flash();
    assert_eq!(board.carry_out(flash.read_status()), Ok(Status { raw: 0x55AA_5500 }));
    board.latch = true;
    board.busy = 1;
    let status = board.carry_out(flash.read_status()).unwrap();
    assert_eq!(status, Status { raw: 0x55AA_5503 });
    assert!(status.is_write_in_progress());
    assert!(status.is_write_enabled());
    assert_eq!(
        board.commands[0],
        (IpControl1 { idatsz: 4, iseqid: 2, iseqnum: 0, iparen: false }, 0)
    );
}

#[test]
fn the_status_bits_are_told_apart() {
    for raw in [0u32, 0xFFFF_FFFC, 0x8000_0000] {
        assert!(!Status { raw }.is_write_in_progress());
        assert!(!Status { raw }.is_write_enabled());
        assert!(Status { raw: raw | 1 }.is_write_in_progress());
        assert!(!Status { raw: raw | 1 }.is_write_enabled());
        assert!(!Status { raw: raw | 2 }.is_write_in_progress());
        assert!(Status { raw: raw | 2 }.is_write_enabled());
    }
}

#[test]
fn a_sector_is_erased() {
    let (mut board, mut flash) = Board::with_flash();
    board.memory.insert(0x3FFEFFF, 1);
    board.memory.insert(0x3FFF000, 2);
    board.memory.insert(0x3FFFFFF, 3);
    assert_eq!(board.carry_out(flash.erase_sector(0x3FFF000)), Ok(()));
    assert_eq!(board.byte(0x3FFEFFF), 1);
    assert_eq!(board.byte(0x3FFF000), 0xFF);
    assert_eq!(board.byte(0x3FFFFFF), 0xFF);
    // The status, the latch, the status, the erase, and the status until the write has ended.
    assert_eq!(board.sequences(), vec![2, 4, 2, 5, 2, 2, 2]);
    assert_eq!(
        board.commands[3],
        (IpControl1 { idatsz: 0, iseqid: 5, iseqnum: 0, iparen: false }, 0x3FFF000)
    );
    assert!(!board.cache_stale);
    assert_eq!(board.issued.last(), Some(&Access::ReadCacheGo));
}

#[test]
fn a_block_is_erased() {
    let (mut board, mut flash) = Board::with_flash();
    board.memory.insert(0x1_FFFF, 1);
    board.memory.insert(0x2_0000, 2);
    board.memory.insert(0x2_FFFF, 3);
    assert_eq!(board.carry_out(flash.erase_block(0x2_0000)), Ok(()));
    assert_eq!(board.bytes(0x1_FFFF, 2), vec![1, 0xFF]);
    assert_eq!(board.byte(0x2_FFFF), 0xFF);
    assert_eq!(
        board.commands[3],
        (IpControl1 { idatsz: 0, iseqid: 8, iseqnum: 0, iparen: false }, 0x2_0000)
    );
    assert!(!board.cache_stale);
}

#[test]
fn the_chip_is_erased() {
    let (mut board, mut flash) = Board::with_flash();
    board.memory.insert(5, 1);
    board.address = 77;
    assert_eq!(board.carry_out(flash.erase_chip()), Ok(()));
    assert!(board.memory.is_empty());
    assert_eq!(
        board.commands[3],
        (IpControl1 { idatsz: 0, iseqid: 11, iseqnum: 0, iparen: false }, 0)
    );
    assert!(!board.cache_stale);
}

#[test]
fn what_was_programmed_is_read_back() {
    let (mut board, mut flash) = Board::with_flash();
    for len in [0usize, 1, 2, 5, 127, 128, 129, 255, 256] {
        let address = 0x1000 + 0x100 * len as u32;
        let data: Vec<u8> = (0..len).map(|i| (i * 13 + len) as u8).collect();
        assert_eq!(board.carry_out(flash.page_program(address, &data)), Ok(()));
        let (result, buffer) = board.carry_out(flash.read(address, vec![0; len]));
        assert_eq!(result, Ok(()));
        assert_eq!(buffer, data);
        assert_eq!(board.byte(address + len as u32), 0xFF);
        assert!(!board.cache_stale);
    }
}

#[test]
fn programming_takes_one_command_after_the_latch() {
    let (mut board, mut flash) = Board::with_flash();
    let data = [0x12u8; 200];
    assert_eq!(board.carry_out(flash.page_program(0x1010, &data)), Ok(()));
    assert_eq!(board.sequences(), vec![2, 4, 2, 9, 2, 2, 2]);
    assert_eq!(
        board.commands[3],
        (IpControl1 { idatsz: 200, iseqid: 9, iseqnum: 0, iparen: false }, 0x1010)
    );
    let words = board.issued.iter().filter(|access| matches!(access, Access::WriteTxData(_, _)));
    assert_eq!(words.count(), 50);
}

#[test]
fn a_write_across_a_page_boundary_is_refused_without_any_access() {
    let (mut board, mut flash) = Board::with_flash();
    let data = [0u8; 300];
    for (address, length) in [(0x10FFu32, 2usize), (0x1001, 256), (0x1000, 257), (0x10FF, 300)] {
        assert_eq!(
            board.carry_out(flash.page_program(address, &data[..length])),
            Err(PageProgramError::PageBoundaryCrossed(WriteCrossesPageBoundary {
                address,
                length: length as u32,
                page_size: 256,
            }))
        );
    }
    assert_eq!(board.issued, vec![]);
    for (address, length) in [(0x10FFu32, 1usize), (0x1000, 256), (0x10FF, 0), (0x1080, 128)] {
        assert_eq!(board.carry_out(flash.page_program(address, &data[..length])), Ok(()));
    }
}

#[test]
fn the_page_check_is_exact() {
    let crossing = |address, length, page_size| {
        Err(WriteCrossesPageBoundary { address, length, page_size })
    };
    assert_eq!(WriteCrossesPageBoundary::check(0, 256, 256), Ok(()));
    assert_eq!(WriteCrossesPageBoundary::check(1, 256, 256), crossing(1, 256, 256));
    assert_eq!(WriteCrossesPageBoundary::check(511, 1, 256), Ok(()));
    assert_eq!(WriteCrossesPageBoundary::check(511, 2, 256), crossing(511, 2, 256));
    assert_eq!(WriteCrossesPageBoundary::check(5, 1, 0), crossing(5, 1, 0));
    assert_eq!(WriteCrossesPageBoundary::check(7, 3, 10), Ok(()));
    assert_eq!(WriteCrossesPageBoundary::check(7, 4, 10), crossing(7, 4, 10));
    assert_eq!(WriteCrossesPageBoundary::check(0xFFFF_FFFF, 1, 256), Ok(()));
    assert_eq!(
        WriteCrossesPageBoundary::check(0xBFFF_FFFF, 0xC000_0000, 0xC000_0000),
        crossing(0xBFFF_FFFF, 0xC000_0000, 0xC000_0000)
    );
    assert_eq!(WriteCrossesPageBoundary::check(0xC000_0000, 0x4000_0000, 0xC000_0000), Ok(()));
    assert!(is_page_offset_defined(1, 0));
    assert!(!is_page_offset_defined(0, 0));
    assert!(is_page_offset_defined(0xFFFF_FFFF, 0xFFFF_FFFF));
}

#[test]
fn a_page_holds_all_bytes_of_a_write_that_passes() {
    for address in 0..40u32 {
        for length in 0..40u32 {
            let inside = (address..address + length).all(|at| at / 16 == address / 16);
            assert_eq!(WriteCrossesPageBoundary::check(address, length, 16).is_ok(), inside);
        }
    }
}

#[test]
fn a_latch_that_is_set_is_not_set_again() {
    let (mut board, mut flash) = Board::with_flash();
    board.latch = true;
    assert_eq!(board.carry_out(flash.set_and_verify_write_enable()), Ok(()));
    assert_eq!(board.sequences(), vec![2]);
}

#[test]
fn the_latch_is_tried_ten_times() {
    let (mut board, mut flash) = Board::with_flash();
    board.deaf = 9;
    assert_eq!(board.carry_out(flash.set_and_verify_write_enable()), Ok(()));
    assert_eq!(board.sequences().iter().filter(|sequence| **sequence == 4).count(), 10);

    let (mut board, mut flash) = Board::with_flash();
    board.deaf = 10;
    assert_eq!(
        board.carry_out(flash.set_and_verify_write_enable()),
        Err(WriteError::WriteEnableFailed)
    );
    assert_eq!(board.sequences().iter().filter(|sequence| **sequence == 4).count(), 10);
    assert_eq!(board.sequences().len(), 21);

    let (mut board, mut flash) = Board::with_flash();
    board.deaf = 100;
    assert_eq!(board.carry_out(flash.erase_sector(0)), Err(WriteError::WriteEnableFailed));
    assert!(!board.sequences().contains(&5));
    let program = board.carry_out(flash.page_program(0, &[1, 2]));
    assert_eq!(program, Err(PageProgramError::WriteFailed(WriteError::WriteEnableFailed)));
    assert!(!board.sequences().contains(&9));
}

#[test]
fn the_latch_command_stands_alone() {
    let (mut board, mut flash) = Board::with_flash();
    assert_eq!(board.carry_out(flash.set_write_enable()), Ok(()));
    assert_eq!(
        board.commands,
        vec![(IpControl1 { idatsz: 0, iseqid: 4, iseqnum: 0, iparen: false }, 0)]
    );
    assert!(board.latch);
}

#[test]
fn a_busy_chip_is_not_written_to() {
    let (mut board, mut flash) = Board::with_flash();
    board.busy = 1;
    assert_eq!(board.carry_out(flash.erase_block(0)), Err(WriteError::WriteInProgress));
    assert_eq!(board.sequences(), vec![2]);
    board.busy = 1;
    assert_eq!(
        board.carry_out(flash.page_program(0, &[1])),
        Err(PageProgramError::WriteFailed(WriteError::WriteInProgress))
    );
}

#[test]
fn a_write_in_progress_is_waited_for() {
    let (mut board, mut flash) = Board::with_flash();
    board.busy = 50;
    assert_eq!(board.carry_out(flash.wait_write_not_in_progress()), Ok(()));
    assert_eq!(board.sequences(), vec![2; 51]);
    assert_eq!(board.carry_out(flash.wait_write_not_in_progress()), Ok(()));
    assert_eq!(board.sequences(), vec![2; 52]);
}

/// What the board reports for a failed command with the given sequence.
fn failure(sequence_index: u8) -> WaitCommandError {
    WaitCommandError::CommandFailed(CommandFailed {
        sequence_index,
        error_code: CommandErrorCode::StartAddressOutOfBounds,
    })
}

#[test]
fn failing_reads_are_reported() {
    let failed = Interrupts { ipcmderr: true, ..NONE };
    let (mut board, mut flash) = Board::with_flash();
    board.failing = Some((7, failed));
    assert_eq!(board.carry_out(flash.read_id()), Err(ReadError::WaitRx(failure(7))));
    board.failing = Some((2, failed));
    assert_eq!(board.carry_out(flash.read_status()), Err(ReadError::WaitFinish(failure(2))));
    board.failing = Some((0, failed));
    assert_eq!(
        board.carry_out(flash.read(0, vec![0xAA; 10])),
        (Err(ReadError::WaitRx(failure(0))), vec![0xAA; 10])
    );
    board.failing = Some((0, Interrupts { ipcmdge: true, ..NONE }));
    assert_eq!(
        board.carry_out(flash.read(0, vec![0; 1])).0,
        Err(ReadError::WaitRx(WaitCommandError::GrantTimeout))
    );
    board.failing = None;
    assert_eq!(board.carry_out(flash.read_id()), Ok(FLASH_ID));
}

#[test]
fn a_status_that_does_not_come_is_reported() {
    let (mut board, mut flash) = Board::with_flash();
    // The command is done, and nothing is in the FIFO.
    let replies = [
        Reply::Written,
        Reply::Interrupts(NONE),
        Reply::Written,
        Reply::Written,
        Reply::Written,
        Reply::Written,
        Reply::Status0(true),
        Reply::Interrupts(Interrupts { ipcmddone: true, ..NONE }),
        Reply::Written,
        Reply::RxWatermark(15),
        Reply::RxFill(0),
        Reply::Written,
    ];
    let mut read = flash.read_status();
    for reply in replies {
        assert!(read.pending().unwrap().is_answered_by(&reply));
        read = read.step(reply);
    }
    assert_eq!(read.pending(), None);
    let missing = NotEnoughData { expected: 4, actual: 0 };
    assert_eq!(read.finish(), Err(ReadError::NotEnoughData(missing)));
    assert_eq!(ReadError::from(missing), ReadError::NotEnoughData(missing));
    assert_eq!(board.carry_out(flash.read_id()), Ok(FLASH_ID));
}

#[test]
fn an_id_that_does_not_come_is_reported_after_the_command_is_done() {
    let (_, mut flash) = Board::with_flash();
    let done = Interrupts { ipcmddone: true, ..NONE };
    let replies = [
        Reply::Written,
        Reply::Interrupts(NONE),
        Reply::Written,
        Reply::Written,
        Reply::Written,
        Reply::Written,
        Reply::Status0(true),
        Reply::Interrupts(done),
        Reply::RxWatermark(15),
        Reply::RxFill(0),
        Reply::Written,
        Reply::Status0(true),
        Reply::Interrupts(done),
        Reply::Written,
    ];
    let mut read = flash.read_id();
    for reply in replies {
        assert!(read.pending().unwrap().is_answered_by(&reply));
        read = read.step(reply);
    }
    assert_eq!(
        read.finish(),
        Err(ReadError::NotEnoughData(NotEnoughData { expected: 4, actual: 0 }))
    );
}

#[test]
fn an_id_whose_command_fails_late_is_an_error() {
    let (_, mut flash) = Board::with_flash();
    let replies = [
        Reply::Written,
        Reply::Interrupts(NONE),
        Reply::Written,
        Reply::Written,
        Reply::Written,
        Reply::Written,
        Reply::Status0(false),
        Reply::Interrupts(Interrupts { iprxwa: true, ..NONE }),
        Reply::RxWatermark(0),
        Reply::RxFill(1),
        Reply::RxData(FLASH_ID),
        Reply::Written,
        Reply::Status0(true),
        Reply::Interrupts(NONE),
    ];
    let mut read = flash.read_id();
    for reply in replies {
        assert!(read.pending().unwrap().is_answered_by(&reply));
        read = read.step(reply);
    }
    assert_eq!(read.finish(), Err(ReadError::WaitFinish(WaitCommandError::ArbiterIdle)));
}

#[test]
fn failing_writes_are_reported() {
    let failed = Interrupts { seqtimeout: true, ..NONE };
    let timeout = WaitCommandError::ExecutionTimeout;

    let (mut board, mut flash) = Board::with_flash();
    board.failing = Some((2, failed));
    assert_eq!(
        board.carry_out(flash.erase_sector(0)),
        Err(WriteError::ReadStatus(ReadError::WaitFinish(timeout)))
    );
    board.failing = Some((4, failed));
    assert_eq!(board.carry_out(flash.erase_sector(0)), Err(WriteError::SetWriteEnable(timeout)));
    board.failing = Some((5, failed));
    assert_eq!(board.carry_out(flash.erase_sector(0)), Err(WriteError::WaitFinish(timeout)));
    board.failing = Some((9, failed));
    assert_eq!(
        board.carry_out(flash.page_program(0, &[1, 2, 3])),
        Err(PageProgramError::WriteFailed(WriteError::WaitTx(WaitTxReadyError::CommandError(
            timeout
        ))))
    );
    assert_eq!(
        board.carry_out(flash.page_program(0, &[])),
        Err(PageProgramError::WriteFailed(WriteError::WaitFinish(timeout)))
    );
    board.failing = Some((8, Interrupts { datalearnfail: true, ..NONE }));
    assert_eq!(
        board.carry_out(flash.erase_block(0)),
        Err(WriteError::WaitFinish(WaitCommandError::DataLearnFailed))
    );
}

#[test]
fn a_dropped_command_is_reported() {
    let (mut board, mut flash) = Board::with_flash();
    board.dropping = Some(11);
    assert_eq!(
        board.carry_out(flash.erase_chip()),
        Err(WriteError::WaitFinish(WaitCommandError::ArbiterIdle))
    );
    board.dropping = Some(0);
    assert_eq!(
        board.carry_out(flash.read(0, vec![0; 4])).0,
        Err(ReadError::WaitRx(WaitCommandError::ArbiterIdle))
    );
}

#[test]
fn a_program_command_that_ends_early_is_reported() {
    let (mut board, mut flash) = Board::with_flash();
    board.listens_for = 128;
    assert_eq!(
        board.carry_out(flash.page_program(0, &[0; 200])),
        Err(PageProgramError::WriteFailed(WriteError::WaitTx(WaitTxReadyError::CommandFinished)))
    );
    assert!(!board.done);
}

#[test]
fn errors_of_a_program_convert() {
    let crossing = WriteCrossesPageBoundary { address: 1, length: 2, page_size: 2 };
    assert_eq!(
        PageProgramError::from(crossing),
        PageProgramError::PageBoundaryCrossed(crossing)
    );
    assert_eq!(
        PageProgramError::from(WriteError::WriteInProgress),
        PageProgramError::WriteFailed(WriteError::WriteInProgress)
    );
}
