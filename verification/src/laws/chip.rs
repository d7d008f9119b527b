//! What the operations do to the contents of the flash memory.

use crate::laws::bus::{commands_of, Command};
use crate::laws::outcomes::single;
use crate::laws::reading::lemma_read_contents;
use crate::laws::receiving::Receiver;
use crate::laws::values::{digit, lemma_pack_bytes};
use crate::laws::writing::{lemma_erase_commands, lemma_page_program_commands};
use crate::nor_flash::erase::{erase_run, erase_sequence};
use crate::nor_flash::program::page_program_run;
use crate::nor_flash::read::{lemma_part_size, lemma_readable, read_run, readable, Parts};
use crate::nor_flash::sequence::{CHIP_ERASE, ERASE_BLOCK, ERASE_SECTOR};
use crate::nor_flash::write_enable::enable_write_run;
use crate::nor_flash::{
    within_page, FlashAlignment, PageProgramError, WriteCrossesPageBoundary, WriteError,
};
use crate::peripheral::CommandSequence;
use crate::procedure::Run;
use crate::registers::Reply;
use crate::words::pack;
use vstd::arithmetic::div_mod::lemma_mod_bound;
use vstd::prelude::*;

verus! {

/// The contents of the flash memory after it has received a command.
///
/// Sequence 5 erases the sector that holds the address, sequence 8 the block, and sequence 11
/// everything: each byte of it becomes 0xFF. Sequence 9 programs as many bytes from the address on
/// as the command announces: of each byte those bits stay set that are set in what was sent. All of
/// that is said of single sequences for one flash memory only. Any other sequence changes nothing.
pub open spec fn after_command(
    memory: spec_fn(int) -> u8,
    command: Command,
    alignment: FlashAlignment,
) -> spec_fn(int) -> u8 {
    let address = command.address as int;
    let control = command.control;
    if control.iparen || control.iseqnum != 0 {
        arbitrary()
    } else if control.iseqid == 5 {
        |at: int|
            if at / alignment.sector_size as int == address / alignment.sector_size as int {
                0xFFu8
            } else {
                memory(at)
            }
    } else if control.iseqid == 8 {
        |at: int|
            if at / alignment.block_size as int == address / alignment.block_size as int {
                0xFFu8
            } else {
                memory(at)
            }
    } else if control.iseqid == 11 {
        |at: int| 0xFFu8
    } else if control.iseqid == 9 {
        |at: int|
            if address <= at < address + control.idatsz {
                memory(at) & digit(command.sent[(at - address) / 4], (at - address) % 4) as u8
            } else {
                memory(at)
            }
    } else {
        memory
    }
}

/// The contents of the flash memory after it has received a number of commands.
pub open spec fn after_commands(
    memory: spec_fn(int) -> u8,
    commands: Seq<Command>,
    alignment: FlashAlignment,
) -> spec_fn(int) -> u8
    decreases commands.len(),
{
    if commands.len() == 0 {
        memory
    } else {
        after_command(
            after_commands(memory, commands.drop_last(), alignment),
            commands.last(),
            alignment,
        )
    }
}

/// Whether the command changes nothing in the flash memory.
pub open spec fn inert(command: Command) -> bool {
    &&& !command.control.iparen
    &&& command.control.iseqnum == 0
    &&& command.control.iseqid == 0 || command.control.iseqid == 2 || command.control.iseqid == 4
        || command.control.iseqid == 7
}

/// Where no other command changes anything, what happens is what the one at `at` does.
proof fn lemma_one_effect(
    memory: spec_fn(int) -> u8,
    commands: Seq<Command>,
    at: int,
    alignment: FlashAlignment,
)
    requires
        0 <= at,
        forall|i: int| 0 <= i < commands.len() && i != at ==> inert(#[trigger] commands[i]),
    ensures
        after_commands(memory, commands, alignment) == if at < commands.len() {
            after_command(memory, commands[at], alignment)
        } else {
            memory
        },
    decreases commands.len(),
{
    if commands.len() > 0 {
        lemma_one_effect(memory, commands.drop_last(), at, alignment);
    }
}

proof fn lemma_erase_effect(
    sequence: CommandSequence,
    memory: spec_fn(int) -> u8,
    alignment: FlashAlignment,
    replies: Seq<Reply>,
)
    ensures
        ({
            let run = erase_run(sequence, replies);
            let after = after_commands(memory, commands_of(run.issued), alignment);
            let erased = after_command(memory, Command::of(sequence), alignment);
            &&& after == memory || after == erased
            &&& run.outcome == Some(Ok::<(), WriteError>(())) ==> after == erased
            &&& enable_write_run(replies).outcome != Some(Ok::<(), WriteError>(())) ==> after
                == memory
        }),
{
    let run = erase_run(sequence, replies);
    let commands = commands_of(run.issued);
    let prepared = commands_of(enable_write_run(replies).issued);
    let at = prepared.len() as int;
    lemma_erase_commands(sequence, replies);
    assert forall|i: int| 0 <= i < commands.len() && i != at implies inert(
        #[trigger] commands[i],
    ) by {
        if i < at {
            assert(commands[i] == prepared[i]);
        }
    }
    lemma_one_effect(memory, commands, at, alignment);
}

/// Erasing a sector that ends well makes each byte of the sector that holds the address 0xFF, and
/// keeps every other byte. One that does not end well has done that or nothing, and nothing where
/// writes could not be enabled.
pub proof fn lemma_erase_sector(
    address: u32,
    memory: spec_fn(int) -> u8,
    alignment: FlashAlignment,
    replies: Seq<Reply>,
)
    ensures
        ({
            let run = erase_run(erase_sequence(ERASE_SECTOR, address), replies);
            let after = after_commands(memory, commands_of(run.issued), alignment);
            let size = alignment.sector_size as int;
            let erased = |at: int|
                if at / size == address as int / size {
                    0xFFu8
                } else {
                    memory(at)
                };
            &&& (forall|at: int| #[trigger] after(at) == memory(at)) || (forall|at: int| #[trigger]
                after(at) == erased(at))
            &&& run.outcome == Some(Ok::<(), WriteError>(())) ==> forall|at: int| #[trigger]
                after(at) == erased(at)
            &&& enable_write_run(replies).outcome != Some(Ok::<(), WriteError>(()))
                ==> forall|at: int| #[trigger] after(at) == memory(at)
        }),
{
    lemma_erase_effect(erase_sequence(ERASE_SECTOR, address), memory, alignment, replies);
}

/// Erasing a block that ends well makes each byte of the block that holds the address 0xFF, and
/// keeps every other byte. One that does not end well has done that or nothing, and nothing where
/// writes could not be enabled.
pub proof fn lemma_erase_block(
    address: u32,
    memory: spec_fn(int) -> u8,
    alignment: FlashAlignment,
    replies: Seq<Reply>,
)
    ensures
        ({
            let run = erase_run(erase_sequence(ERASE_BLOCK, address), replies);
            let after = after_commands(memory, commands_of(run.issued), alignment);
            let size = alignment.block_size as int;
            let erased = |at: int|
                if at / size == address as int / size {
                    0xFFu8
                } else {
                    memory(at)
                };
            &&& (forall|at: int| #[trigger] after(at) == memory(at)) || (forall|at: int| #[trigger]
                after(at) == erased(at))
            &&& run.outcome == Some(Ok::<(), WriteError>(())) ==> forall|at: int| #[trigger]
                after(at) == erased(at)
            &&& enable_write_run(replies).outcome != Some(Ok::<(), WriteError>(()))
                ==> forall|at: int| #[trigger] after(at) == memory(at)
        }),
{
    lemma_erase_effect(erase_sequence(ERASE_BLOCK, address), memory, alignment, replies);
}

/// Erasing the chip that ends well makes each byte 0xFF. One that does not end well has done that
/// or nothing, and nothing where writes could not be enabled.
pub proof fn lemma_erase_chip(
    memory: spec_fn(int) -> u8,
    alignment: FlashAlignment,
    replies: Seq<Reply>,
)
    ensures
        ({
            let run = erase_run(erase_sequence(CHIP_ERASE, 0), replies);
            let after = after_commands(memory, commands_of(run.issued), alignment);
            &&& (forall|at: int| #[trigger] after(at) == memory(at)) || (forall|at: int| #[trigger]
                after(at) == 0xFF)
            &&& run.outcome == Some(Ok::<(), WriteError>(())) ==> forall|at: int| #[trigger]
                after(at) == 0xFF
            &&& enable_write_run(replies).outcome != Some(Ok::<(), WriteError>(()))
                ==> forall|at: int| #[trigger] after(at) == memory(at)
        }),
{
    lemma_erase_effect(erase_sequence(CHIP_ERASE, 0), memory, alignment, replies);
}

/// Programming a page keeps every byte outside of the data's place, whatever it comes to, and keeps
/// everything where writes could not be enabled. One that ends well leaves set, in the data's
/// place, those bits that were set and are set in the data.
///
/// Data beyond 65535 bytes is left out, because the command announces the size in 16 bits.
pub proof fn lemma_page_program(
    address: u32,
    data: Seq<u8>,
    memory: spec_fn(int) -> u8,
    alignment: FlashAlignment,
    replies: Seq<Reply>,
)
    requires
        data.len() <= 65535,
    ensures
        ({
            let run = page_program_run(address, data, alignment.page_size, replies);
            let after = after_commands(memory, commands_of(run.issued), alignment);
            &&& forall|at: int|
                !(address <= at < address + data.len()) ==> #[trigger] after(at) == memory(at)
            &&& enable_write_run(replies).outcome != Some(Ok::<(), WriteError>(()))
                ==> forall|at: int| #[trigger] after(at) == memory(at)
            &&& run.outcome == Some(Ok::<(), PageProgramError>(())) ==> forall|at: int|
                address <= at < address + data.len() ==> #[trigger] after(at) == memory(at)
                    & data[at - address]
        }),
{
    let run = page_program_run(address, data, alignment.page_size, replies);
    let commands = commands_of(run.issued);
    let after = after_commands(memory, commands, alignment);
    if within_page(address, data.len() as int, alignment.page_size) {
        let sent = lemma_page_program_commands(address, data, alignment.page_size, replies);
        let prepared = commands_of(enable_write_run(replies).issued);
        let at = prepared.len() as int;
        assert forall|i: int| 0 <= i < commands.len() && i != at implies inert(
            #[trigger] commands[i],
        ) by {
            if i < at {
                assert(commands[i] == prepared[i]);
            }
        }
        lemma_one_effect(memory, commands, at, alignment);
        if run.outcome == Some(Ok::<(), PageProgramError>(())) {
            lemma_pack_bytes(data);
            let command = commands[at];
            assert forall|place: int|
                address <= place < address + data.len() implies #[trigger] after(place)
                == memory(place) & data[place - address] by {
                let i = place - address;
                assert(digit(command.sent[i / 4], i % 4) == data[4 * (i / 4) + i % 4]);
            }
        }
    }
}

/// Whether the run programs `data` at `address`.
///
/// Data that does not stay within one page is refused without any access. Otherwise the flash
/// memory receives at most one command that changes anything. It is a single sequence with the
/// index 9, for one flash memory, at the address of the data, and announces exactly as many bytes
/// as the data has, in 16 bits. The words that come with it are the start of the data, and all of
/// it when the run has ended well.
pub open spec fn programs(
    run: Run<Result<(), PageProgramError>>,
    address: u32,
    data: Seq<u8>,
    page_size: u32,
) -> bool {
    let commands = commands_of(run.issued);
    if page_size == 0 || address as int % page_size as int + data.len() > page_size {
        &&& run.issued.len() == 0
        &&& run.outcome == Some(
            Err::<(), _>(
                PageProgramError::PageBoundaryCrossed(
                    WriteCrossesPageBoundary { address, length: data.len() as u32, page_size },
                ),
            ),
        )
    } else {
        &&& forall|i: int|
            0 <= i < commands.len() && !inert(#[trigger] commands[i]) ==> {
                &&& commands[i].address == address
                &&& commands[i].control.idatsz == data.len() as int % 0x1_0000
                &&& commands[i].control.iseqid == 9
                &&& commands[i].control.iseqnum == 0
                &&& !commands[i].control.iparen
                &&& commands[i].sent.is_prefix_of(pack(data))
                &&& run.outcome == Some(Ok::<(), PageProgramError>(())) ==> commands[i].sent
                    == pack(data)
            }
        &&& forall|i: int, j: int|
            0 <= i < j < commands.len() ==> inert(#[trigger] commands[i]) || inert(
                #[trigger] commands[j],
            )
        &&& run.outcome == Some(Ok::<(), PageProgramError>(())) ==> exists|i: int|
            0 <= i < commands.len() && !inert(#[trigger] commands[i])
    }
}

/// Which command programming a page makes the flash memory receive, field by field.
pub proof fn lemma_program_command(
    address: u32,
    data: Seq<u8>,
    page_size: u32,
    replies: Seq<Reply>,
)
    requires
        page_size > 0 || data.len() > 0,
        data.len() <= usize::MAX,
        data.len() <= u32::MAX,
    ensures
        programs(page_program_run(address, data, page_size, replies), address, data, page_size),
{
    if page_size > 0 {
        lemma_mod_bound(address as int, page_size as int);
    }
    if within_page(address, data.len() as int, page_size) {
        let run = page_program_run(address, data, page_size, replies);
        let commands = commands_of(run.issued);
        let sent = lemma_page_program_commands(address, data, page_size, replies);
        let prepared = commands_of(enable_write_run(replies).issued);
        let at = prepared.len() as int;
        assert forall|i: int| 0 <= i < commands.len() && i != at implies inert(
            #[trigger] commands[i],
        ) by {
            if i < at {
                assert(commands[i] == prepared[i]);
            }
        }
        if run.outcome == Some(Ok::<(), PageProgramError>(())) {
            assert(!inert(commands[at]));
        }
    }
}

/// Whether the run makes the flash memory receive at most one command that changes anything, and
/// one when it has ended well. It is a single sequence with the given index, for one flash memory,
/// without data, and at the given address.
pub open spec fn erases(run: Run<Result<(), WriteError>>, index: u8, address: u32) -> bool {
    let commands = commands_of(run.issued);
    &&& forall|i: int|
        0 <= i < commands.len() && !inert(#[trigger] commands[i]) ==> {
            &&& commands[i].address == address
            &&& commands[i].control.idatsz == 0
            &&& commands[i].control.iseqid == index
            &&& commands[i].control.iseqnum == 0
            &&& !commands[i].control.iparen
            &&& commands[i].sent.len() == 0
        }
    &&& forall|i: int, j: int|
        0 <= i < j < commands.len() ==> inert(#[trigger] commands[i]) || inert(
            #[trigger] commands[j],
        )
    &&& run.outcome == Some(Ok::<(), WriteError>(())) ==> exists|i: int|
        0 <= i < commands.len() && !inert(#[trigger] commands[i])
}

/// Which command erasing makes the flash memory receive, field by field: index 5 for a sector, 8
/// for a block and 11 for the chip.
pub proof fn lemma_erase_command(address: u32, replies: Seq<Reply>)
    ensures
        erases(erase_run(erase_sequence(ERASE_SECTOR, address), replies), 5, address),
        erases(erase_run(erase_sequence(ERASE_BLOCK, address), replies), 8, address),
        erases(erase_run(erase_sequence(CHIP_ERASE, address), replies), 11, address),
{
    lemma_erases(5, address, replies);
    lemma_erases(8, address, replies);
    lemma_erases(11, address, replies);
}

proof fn lemma_erases(index: u8, address: u32, replies: Seq<Reply>)
    requires
        index == 5 || index == 8 || index == 11,
    ensures
        erases(erase_run(single(index, address, 0), replies), index, address),
{
    let sequence = single(index, address, 0);
    let run = erase_run(sequence, replies);
    let commands = commands_of(run.issued);
    let prepared = commands_of(enable_write_run(replies).issued);
    let at = prepared.len() as int;
    lemma_erase_commands(sequence, replies);
    assert forall|i: int| 0 <= i < commands.len() && i != at implies inert(
        #[trigger] commands[i],
    ) by {
        if i < at {
            assert(commands[i] == prepared[i]);
        }
    }
    if run.outcome == Some(Ok::<(), WriteError>(())) {
        assert(!inert(commands[at]));
    }
}

/// Data that is programmed where the flash memory is erased is what is read there afterwards, when
/// both have ended well and the registers answer truly.
///
/// Data beyond 65535 bytes is left out, because the command announces the size in 16 bits.
pub proof fn lemma_erased_then_programmed_then_read(
    receiver: Receiver,
    watermark: int,
    memory: spec_fn(int) -> u8,
    address: u32,
    data: Seq<u8>,
    alignment: FlashAlignment,
    programmed: Seq<Reply>,
    buffer: Seq<u8>,
    replies: Seq<Reply>,
)
    requires
        data.len() <= 65535,
        forall|at: int| address <= at < address + data.len() ==> #[trigger] memory(at) == 0xFF,
        page_program_run(address, data, alignment.page_size, programmed).outcome == Some(
            Ok::<(), PageProgramError>(()),
        ),
        watermark > 0,
        buffer.len() == data.len(),
        readable(address, data.len() as int),
        read_run(
            Parts::aligned(address, data.len() as int, alignment.read_alignment),
            buffer,
            replies,
        ).outcome matches Some((Ok(()), _)),
        receiver.all_true(
            after_commands(
                memory,
                commands_of(
                    page_program_run(address, data, alignment.page_size, programmed).issued,
                ),
                alignment,
            ),
            watermark,
            read_run(
                Parts::aligned(address, data.len() as int, alignment.read_alignment),
                buffer,
                replies,
            ).issued,
            replies,
        ),
    ensures
        (read_run(
            Parts::aligned(address, data.len() as int, alignment.read_alignment),
            buffer,
            replies,
        ).outcome->0).1 == data,
{
    let parts = Parts::aligned(address, data.len() as int, alignment.read_alignment);
    let commands = commands_of(
        page_program_run(address, data, alignment.page_size, programmed).issued,
    );
    let contents = after_commands(memory, commands, alignment);
    lemma_part_size(address, data.len() as int, alignment.read_alignment);
    lemma_readable(address, data.len() as int, alignment.read_alignment);
    lemma_page_program(address, data, memory, alignment, programmed);
    lemma_read_contents(receiver, contents, watermark, parts, buffer, replies);
    assert forall|i: int| 0 <= i < data.len() implies contents(address + i)
        == #[trigger] data[i] by {
        let byte: u8 = data[i];
        let old: u8 = memory(address + i);
        assert(contents(address + i) == old & byte);
        assert(0xFFu8 & byte == byte) by (bit_vector);
    }
    assert(Seq::new(buffer.len(), |i: int| contents(address + i)) =~= data);
}

} // verus!
