//! What the numbers and flags of the registers stand for.

use crate::laws::scripts::{
    lemma_exchange_plays, lemma_finished_plays, lemma_then_plays, plays,
};
use crate::nor_flash::configure::configure_run;
use crate::nor_flash::read::{lemma_part_size, readable, Parts, Read};
use crate::nor_flash::erase::Erase;
use crate::nor_flash::identify::ReadId;
use crate::nor_flash::program::PageProgram;
use crate::nor_flash::status::{ReadStatus, RunCommand};
use crate::nor_flash::write_enable::{EnableWrite, WaitWrite};
use crate::nor_flash::{
    page_offset_defined, within_page, NotEnoughData, PageProgramError, ReadError, Status,
    WriteCrossesPageBoundary, WriteError,
};
use crate::peripheral::check::CheckErrors;
use crate::peripheral::command::StartCommand;
use crate::peripheral::fifo::{DrainRxFifo, FillTxFifo};
use crate::peripheral::settings::{
    level_bytes_run, level_words_run, watermark_field, write_run, Level, ReadLevelBytes,
    ReadLevelWords,
};
use crate::peripheral::wait::{WaitCommandDone, WaitRxReady, WaitTxReady};
use crate::peripheral::{
    CommandErrorCode, CommandFailed, CommandSequence, InvalidCommandSequence, WaitCommandError,
    WaitTxReadyError,
};
use crate::procedure::{finished, Procedure};
use crate::registers::{Access, CacheCommand, Interrupts, Reply};
use crate::words::{byte_of, byte_or_zero, pack, unpack, word_count, word_of};
use vstd::prelude::*;
use vstd::std_specs::convert::FromSpec;

verus! {

/// The flags that say that a command ended are five: done, and the four errors.
pub proof fn lemma_flags(flags: Interrupts)
    ensures
        flags.failed() <==> flags.ipcmderr || flags.seqtimeout || flags.datalearnfail
            || flags.ipcmdge,
        flags.finished() == (Interrupts {
            ipcmddone: flags.ipcmddone,
            ipcmdge: flags.ipcmdge,
            ipcmderr: flags.ipcmderr,
            iprxwa: false,
            iptxwe: false,
            datalearnfail: flags.datalearnfail,
            seqtimeout: flags.seqtimeout,
        }),
        flags.errors() == (Interrupts {
            ipcmddone: false,
            ipcmdge: flags.ipcmdge,
            ipcmderr: flags.ipcmderr,
            iprxwa: false,
            iptxwe: false,
            datalearnfail: flags.datalearnfail,
            seqtimeout: flags.seqtimeout,
        }),
        flags.done() == (Interrupts {
            ipcmddone: flags.ipcmddone,
            ipcmdge: false,
            ipcmderr: false,
            iprxwa: false,
            iptxwe: false,
            datalearnfail: false,
            seqtimeout: false,
        }),
        Interrupts::none() == (Interrupts {
            ipcmddone: false,
            ipcmdge: false,
            ipcmderr: false,
            iprxwa: false,
            iptxwe: false,
            datalearnfail: false,
            seqtimeout: false,
        }),
{
}

/// The cache command invalidates both ways, pushes neither, and starts.
pub proof fn lemma_cache_command()
    ensures
        CacheCommand::invalidate_all().invw0,
        CacheCommand::invalidate_all().invw1,
        !CacheCommand::invalidate_all().pushw0,
        !CacheCommand::invalidate_all().pushw1,
        CacheCommand::invalidate_all().go,
{
}

/// The number of each error code, in the low four bits of what the peripheral reports.
pub proof fn lemma_error_codes(code: u8)
    ensures
        code % 16 == 0 ==> CommandErrorCode::of_bits(code) is NoError,
        code % 16 == 1 ==> CommandErrorCode::of_bits(code) is Unknown1,
        code % 16 == 2 ==> CommandErrorCode::of_bits(code) is IllegalJumpOnCs,
        code % 16 == 3 ==> CommandErrorCode::of_bits(code) is UnknownOpcode,
        code % 16 == 4 ==> CommandErrorCode::of_bits(code) is DummySdrInDdrSequence,
        code % 16 == 5 ==> CommandErrorCode::of_bits(code) is DummyDdrInSdrSequence,
        code % 16 == 6 ==> CommandErrorCode::of_bits(code) is StartAddressOutOfBounds,
        code % 16 == 7 ==> CommandErrorCode::of_bits(code) is Unknown7,
        code % 16 == 8 ==> CommandErrorCode::of_bits(code) is Unknown8,
        code % 16 == 9 ==> CommandErrorCode::of_bits(code) is Unknown9,
        code % 16 == 10 ==> CommandErrorCode::of_bits(code) is Unknown10,
        code % 16 == 11 ==> CommandErrorCode::of_bits(code) is Unknown11,
        code % 16 == 12 ==> CommandErrorCode::of_bits(code) is Unknown12,
        code % 16 == 13 ==> CommandErrorCode::of_bits(code) is Unknown13,
        code % 16 == 14 ==> CommandErrorCode::of_bits(code) is SequenceTimeout,
        code % 16 == 15 ==> CommandErrorCode::of_bits(code) is AccessCrossedFlashBoundary,
        CommandErrorCode::of_bits(code).number() == code % 16,
{
    assert(CommandErrorCode::NoError.number() == 0);
    assert(CommandErrorCode::Unknown1.number() == 1);
    assert(CommandErrorCode::IllegalJumpOnCs.number() == 2);
    assert(CommandErrorCode::UnknownOpcode.number() == 3);
    assert(CommandErrorCode::DummySdrInDdrSequence.number() == 4);
    assert(CommandErrorCode::DummyDdrInSdrSequence.number() == 5);
    assert(CommandErrorCode::StartAddressOutOfBounds.number() == 6);
    assert(CommandErrorCode::Unknown7.number() == 7);
    assert(CommandErrorCode::Unknown8.number() == 8);
    assert(CommandErrorCode::Unknown9.number() == 9);
    assert(CommandErrorCode::Unknown10.number() == 10);
    assert(CommandErrorCode::Unknown11.number() == 11);
    assert(CommandErrorCode::Unknown12.number() == 12);
    assert(CommandErrorCode::Unknown13.number() == 13);
    assert(CommandErrorCode::SequenceTimeout.number() == 14);
    assert(CommandErrorCode::AccessCrossedFlashBoundary.number() == 15);
}

/// A write is in progress when bit 0 of the status is set, and the write-enable latch is set when
/// bit 1 is.
pub proof fn lemma_status_bits(status: Status)
    ensures
        status.busy() <==> status.raw & 1 != 0,
        status.writable() <==> status.raw & 2 != 0,
{
    let raw: u32 = status.raw;
    assert((raw & 1 != 0) == (raw % 2 == 1)) by (bit_vector);
    assert((raw & 2 != 0) == (raw / 2 % 2 == 1)) by (bit_vector);
}

/// What an access can be answered with: a read with a value of its own register, within the width
/// of the field, and a write with nothing.
pub proof fn lemma_answers(access: Access, reply: Reply)
    ensures
        access.answered_by(reply) <==> match reply {
            Reply::Interrupts(_) => access is ReadInterrupts,
            Reply::Status0(_) => access is ReadStatus0,
            Reply::Status1(_, _) => access is ReadStatus1,
            Reply::TxWatermark(field) => access is ReadTxWatermark && field <= 0x7F,
            Reply::RxWatermark(field) => access is ReadRxWatermark && field <= 0x3F,
            Reply::RxFill(_) => access is ReadRxFill,
            Reply::RxData(_) => access is ReadRxData,
            Reply::CacheGo(_) => access is ReadCacheGo,
            Reply::CacheStarted(_) => access is StartCacheCommand,
            Reply::Written => access is ClearInterrupts || access is WriteIpControl0
                || access is WriteIpControl1 || access is TriggerCommand || access is SetTxWatermark
                || access is ClearTxFifo || access is SetRxWatermark || access is ClearRxFifo
                || access is WriteTxData,
        },
{
}

/// The value of the byte with the given index in a word, as a number.
pub open spec fn digit(word: u32, index: int) -> int {
    if index == 0 {
        word as int % 256
    } else if index == 1 {
        word as int / 256 % 256
    } else if index == 2 {
        word as int / 65536 % 256
    } else {
        word as int / 16777216 % 256
    }
}

/// A word is the sum of its bytes, each 256 times the one before.
pub proof fn lemma_words(b0: u8, b1: u8, b2: u8, b3: u8)
    ensures
        word_of(b0, b1, b2, b3) == b0 + 256 * (b1 + 256 * (b2 + 256 * b3)),
{
}

/// Bytes go into words four at a time, the first into the least significant place, and the places
/// behind the last byte are zero.
pub proof fn lemma_pack_bytes(bytes: Seq<u8>)
    ensures
        4 * pack(bytes).len() >= bytes.len(),
        4 * pack(bytes).len() < bytes.len() + 4,
        forall|word: int, index: int|
            0 <= word < pack(bytes).len() && 0 <= index < 4 ==> #[trigger] digit(
                pack(bytes)[word],
                index,
            ) == if 4 * word + index < bytes.len() {
                bytes[4 * word + index] as int
            } else {
                0
            },
{
    assert forall|word: int, index: int|
        0 <= word < pack(bytes).len() && 0 <= index < 4 implies #[trigger] digit(
        pack(bytes)[word],
        index,
    ) == if 4 * word + index < bytes.len() {
        bytes[4 * word + index] as int
    } else {
        0
    } by {
        let b0 = bytes[4 * word];
        let b1 = byte_or_zero(bytes, 4 * word + 1);
        let b2 = byte_or_zero(bytes, 4 * word + 2);
        let b3 = byte_or_zero(bytes, 4 * word + 3);
        let packed = pack(bytes)[word];
        assert(packed == b0 + 256 * (b1 + 256 * (b2 + 256 * b3)));
        assert(packed as int / 256 == b1 + 256 * (b2 + 256 * b3));
        assert(packed as int / 65536 == b2 + 256 * b3);
        assert(packed as int / 16777216 == b3);
    }
}

/// Bytes come out of words four at a time, the first from the least significant place.
pub proof fn lemma_unpack_bytes(words: Seq<u32>, len: int)
    requires
        0 <= len,
    ensures
        unpack(words, len).len() == len,
        forall|i: int|
            0 <= i < len ==> #[trigger] unpack(words, len)[i] == digit(words[i / 4], i % 4),
{
    assert forall|i: int| 0 <= i < len implies #[trigger] unpack(words, len)[i] == digit(
        words[i / 4],
        i % 4,
    ) by {
        let word = words[i / 4];
        assert(unpack(words, len)[i] == byte_of(word, i % 4));
    }
}

/// The words that `len` bytes take hold all of them, and with one word less they would not.
pub proof fn lemma_word_count(len: int)
    requires
        0 <= len,
    ensures
        4 * word_count(len) >= len,
        4 * (word_count(len) - 1) < len,
{
}

/// The watermark registers hold the number of words of 64 bits less one, and at least one word.
pub proof fn lemma_watermark_field(words: u8)
    ensures
        words == 0 ==> watermark_field(words) == 0,
        words > 0 ==> watermark_field(words) + 1 == words,
{
}

/// A level is read from its own register. The watermarks are one more than their fields, and a word
/// of 64 bits is eight bytes.
pub proof fn lemma_levels(replies: Seq<Reply>)
    ensures
        plays(
            level_words_run(Level::TxWatermark, replies),
            replies,
            seq![Access::ReadTxWatermark],
            replies[0]->TxWatermark_0 + 1,
        ),
        plays(
            level_bytes_run(Level::TxWatermark, replies),
            replies,
            seq![Access::ReadTxWatermark],
            8 * (replies[0]->TxWatermark_0 + 1),
        ),
        plays(
            level_words_run(Level::RxWatermark, replies),
            replies,
            seq![Access::ReadRxWatermark],
            replies[0]->RxWatermark_0 + 1,
        ),
        plays(
            level_bytes_run(Level::RxWatermark, replies),
            replies,
            seq![Access::ReadRxWatermark],
            8 * (replies[0]->RxWatermark_0 + 1),
        ),
        plays(
            level_words_run(Level::RxFill, replies),
            replies,
            seq![Access::ReadRxFill],
            replies[0]->RxFill_0 as int,
        ),
        plays(
            level_bytes_run(Level::RxFill, replies),
            replies,
            seq![Access::ReadRxFill],
            8 * (replies[0]->RxFill_0),
        ),
{
    lemma_level(Level::TxWatermark, replies);
    lemma_level(Level::RxWatermark, replies);
    lemma_level(Level::RxFill, replies);
}

proof fn lemma_level(level: Level, replies: Seq<Reply>)
    ensures
        plays(
            level_words_run(level, replies),
            replies,
            seq![level.access()],
            level.words(replies[0]),
        ),
        plays(
            level_bytes_run(level, replies),
            replies,
            seq![level.access()],
            8 * level.words(replies[0]),
        ),
{
    let words = level.words(replies[0]);
    let none = Seq::<Access>::empty();
    lemma_finished_plays(words, replies.skip(1));
    lemma_finished_plays(8 * words, replies.skip(1));
    lemma_exchange_plays(
        level.access(),
        replies,
        finished(words, replies.skip(1)),
        none,
        words,
    );
    lemma_exchange_plays(
        level.access(),
        replies,
        finished(8 * words, replies.skip(1)),
        none,
        8 * words,
    );
    assert(seq![level.access()] + none =~= seq![level.access()]);
}

/// A write that stands alone is made, and that is all.
pub proof fn lemma_write(access: Access, replies: Seq<Reply>)
    ensures
        plays(write_run(access, replies), replies, seq![access], ()),
{
    let none = Seq::<Access>::empty();
    lemma_finished_plays((), replies.skip(1));
    lemma_exchange_plays(access, replies, finished((), replies.skip(1)), none, ());
    assert(seq![access] + none =~= seq![access]);
}

/// The setup of the flash driver sets the watermarks of both FIFOs to sixteen words, which the
/// registers hold as fifteen.
pub proof fn lemma_setup(replies: Seq<Reply>)
    ensures
        plays(
            configure_run(replies),
            replies,
            seq![Access::SetRxWatermark(15), Access::SetTxWatermark(15)],
            (),
        ),
{
    let rx = write_run(Access::SetRxWatermark(15), replies);
    lemma_write(Access::SetRxWatermark(15), replies);
    lemma_write(Access::SetTxWatermark(15), rx.rest);
    lemma_then_plays(
        rx,
        write_run(Access::SetTxWatermark(15), rx.rest),
        replies,
        seq![Access::SetRxWatermark(15)],
        (),
        seq![Access::SetTxWatermark(15)],
        (),
    );
    assert(seq![Access::SetRxWatermark(15)] + seq![Access::SetTxWatermark(15)] =~= seq![
        Access::SetRxWatermark(15),
        Access::SetTxWatermark(15),
    ]);
}

/// A command sequence is valid when it is a single one at any of the 32 indexes of the LUT, or
/// several of which the start and the count together stay below 32. The register that selects it
/// holds the index of the first sequence, the number of sequences less one, the size of the data,
/// and whether two flash memories are accessed.
pub proof fn lemma_command_sequence(sequence: CommandSequence)
    ensures
        sequence.valid() <==> if sequence.count <= 1 {
            sequence.start <= 31
        } else {
            sequence.start + sequence.count <= 31
        },
        sequence.count == 0 ==> sequence.control1().iseqnum == 0,
        sequence.count > 0 ==> sequence.control1().iseqnum + 1 == sequence.count,
        sequence.control1().iseqid == sequence.start,
        sequence.control1().idatsz == sequence.data_size,
        sequence.control1().iparen == sequence.parallel,
{
}

/// The position of a write in its page can be told unless an empty write goes to pages of no size.
pub proof fn lemma_page_offset(length: int, page_size: u32)
    requires
        length >= 0,
    ensures
        !page_offset_defined(length, page_size) <==> length == 0 && page_size == 0,
{
}

/// How data is split into parts. The parts are as large as one command can read. Where the
/// alignment divides the address and the length, a part is the largest multiple of the alignment of
/// that size.
pub proof fn lemma_split(address: u32, length: int, read_alignment: u32)
    requires
        length >= 0,
    ensures
        ({
            let parts = Parts::aligned(address, length, read_alignment);
            let alignment = read_alignment as int;
            let can_align = 1 <= alignment <= 65535 && address as int % alignment == 0 && length
                % alignment == 0 && address + length <= 0x1_0000_0000;
            &&& parts.address == address
            &&& !can_align ==> parts.size == 65535
            &&& can_align ==> {
                &&& parts.size as int % alignment == 0
                &&& parts.size <= 65535
                &&& parts.size + alignment > 65535
            }
        }),
{
    lemma_part_size(address, length, read_alignment);
}

/// Data can be read when the last command, at a distance of a multiple of 65535 bytes, still has an
/// address of 32 bits.
pub proof fn lemma_readable_data(address: u32, length: int)
    requires
        length >= 0,
    ensures
        readable(address, length) <==> forall|commands: int|
            #![trigger commands * 65535]
            0 <= commands && commands * 65535 < length ==> address + commands * 65535
                <= 0xFFFF_FFFF,
{
    if length > 0 {
        let last = (length - 1) / 65535;
        assert(last * 65535 <= length - 1);
        assert forall|commands: int|
            #![trigger commands * 65535]
            0 <= commands && commands * 65535 < length implies commands * 65535 <= last
            * 65535 by {}
    }
}

/// No data fits pages of no size, but for no data at all.
pub proof fn lemma_no_pages(address: u32, length: int)
    requires
        length > 0,
    ensures
        !within_page(address, length, 0),
{
}

/// An error turns into one that holds it, as the kind that it is.
pub proof fn lemma_conversions(
    failed: CommandFailed,
    wait: WaitCommandError,
    missing: NotEnoughData,
    write: WriteError,
    crossing: WriteCrossesPageBoundary,
)
    ensures
        <WaitCommandError as FromSpec<CommandFailed>>::from_spec(failed)
            == WaitCommandError::CommandFailed(failed),
        <WaitTxReadyError as FromSpec<WaitCommandError>>::from_spec(wait)
            == WaitTxReadyError::CommandError(wait),
        <ReadError as FromSpec<NotEnoughData>>::from_spec(missing) == ReadError::NotEnoughData(
            missing,
        ),
        <PageProgramError as FromSpec<WriteError>>::from_spec(write)
            == PageProgramError::WriteFailed(write),
        <PageProgramError as FromSpec<WriteCrossesPageBoundary>>::from_spec(crossing)
            == PageProgramError::PageBoundaryCrossed(crossing),
        <WaitCommandError as FromSpec<CommandFailed>>::obeys_from_spec(),
        <WaitTxReadyError as FromSpec<WaitCommandError>>::obeys_from_spec(),
        <ReadError as FromSpec<NotEnoughData>>::obeys_from_spec(),
        <PageProgramError as FromSpec<WriteError>>::obeys_from_spec(),
        <PageProgramError as FromSpec<WriteCrossesPageBoundary>>::obeys_from_spec(),
{
}

/// What the procedures of the peripheral hand out is what their runs come to.
pub proof fn lemma_peripheral_outputs()
    ensures
        forall|output: Result<(), InvalidCommandSequence>| #[trigger]
            StartCommand::value(output) == output,
        forall|output: u8| #[trigger] ReadLevelWords::value(output) == output,
        forall|output: usize| #[trigger] ReadLevelBytes::value(output) == output,
        forall|output: Result<(), WaitCommandError>| #[trigger]
            WaitCommandDone::value(output) == output,
        forall|output: Result<(), WaitCommandError>| #[trigger]
            WaitRxReady::value(output) == output,
        forall|output: Result<(), WaitTxReadyError>| #[trigger]
            WaitTxReady::value(output) == output,
        forall|output: usize| #[trigger] FillTxFifo::value(output) == output,
        forall|output: (Vec<u8>, usize)| #[trigger]
            DrainRxFifo::value(output) == (output.0@, output.1 as int),
        forall|output: Result<Interrupts, WaitCommandError>| #[trigger]
            CheckErrors::value(output) == output,
{
}

/// What the procedures of the flash memory hand out is what their runs come to.
pub proof fn lemma_flash_outputs()
    ensures
        forall|output: Result<u32, ReadError>| #[trigger] ReadId::value(output) == output,
        forall|output: (Result<(), ReadError>, Vec<u8>)| #[trigger]
            Read::value(output) == (output.0, output.1@),
        forall|output: Result<(), WriteError>| #[trigger] Erase::value(output) == output,
        forall|output: Result<(), PageProgramError>| #[trigger]
            PageProgram::value(output) == output,
        forall|output: Result<Status, ReadError>| #[trigger] ReadStatus::value(output) == output,
        forall|output: Result<(), WaitCommandError>| #[trigger]
            RunCommand::value(output) == output,
        forall|output: Result<(), WriteError>| #[trigger] EnableWrite::value(output) == output,
        forall|output: Result<(), WriteError>| #[trigger] WaitWrite::value(output) == output,
{
}

} // verus!
