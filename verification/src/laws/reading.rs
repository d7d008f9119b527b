//! What is read is what the flash memory holds.

use crate::laws::bus;
use crate::laws::bus::{commands_of, silent, Bus, Command};
use crate::laws::fifos::{lemma_drain, lemma_overwrite, words_in};
use crate::laws::receiving;
use crate::laws::receiving::{
    lemma_drain_receives, lemma_launch_receives, lemma_wait_rx_ready_promises, Receiver,
};
use crate::laws::writing::lemma_page_program_sent;
use crate::nor_flash::identify::{
    id_buffer, read_id_drained, read_id_ready, read_id_run, read_id_sequence,
};
use crate::nor_flash::program::page_program_run;
use crate::nor_flash::read::{
    addresses_fit, can_align, chunk_end, lemma_part_size, lemma_readable, read_chunk_run,
    read_data_run, read_drained, read_launched, read_ready, read_run, read_sequence, read_waited,
    readable, Parts, MAX_READ,
};
use crate::nor_flash::sequence::{PAGE_PROGRAM, READ};
use crate::nor_flash::status::{
    lemma_run_command_orderly, read_status_run, read_status_sequence,
    run_command_run, status_buffer,
};
use crate::nor_flash::{FlashAlignment, NotEnoughData, PageProgramError, ReadError};
use crate::peripheral::command::{launch_run, lemma_launch_orderly};
use crate::peripheral::fifo::{
    drain_run, lemma_drain_orderly, min, overwrite, watermark_bytes,
};
use crate::peripheral::wait::{
    lemma_wait_command_done_orderly, lemma_wait_rx_ready_orderly, wait_command_done_run,
    wait_rx_ready_run,
};
use crate::peripheral::CommandSequence;
use crate::procedure::Run;
use crate::registers::{Access, Reply};
use crate::words::{lemma_bytes_word, unpack, word_count, word_of};
use vstd::arithmetic::div_mod::{
    lemma_add_mod_noop, lemma_div_is_ordered, lemma_fundamental_div_mod,
    lemma_fundamental_div_mod_converse, lemma_mod_bound, lemma_mod_multiples_basic,
    lemma_mul_mod_noop_right, lemma_small_mod,
};
use vstd::arithmetic::mul::{lemma_mul_inequality, lemma_mul_is_commutative};
use vstd::prelude::*;

verus! {

/// The size of the buffer stays the same while the RX FIFO is drained into it.
proof fn lemma_drain_keeps_size(buffer: Seq<u8>, start: int, end: int, replies: Seq<Reply>)
    requires
        0 <= start <= end <= buffer.len() <= usize::MAX,
    ensures
        drain_run(buffer, start, end, replies).outcome matches Some((filled, count)) ==> {
            &&& filled.len() == buffer.len()
            &&& 0 <= count <= end - start
        },
{
    lemma_drain(buffer, start, end, replies);
    let run = drain_run(buffer, start, end, replies);
    if run.outcome is Some {
        let fill = 8 * (replies[1]->RxFill_0);
        let mark = watermark_bytes(replies[0]->RxWatermark_0);
        let count = min(min(end - start, fill), mark);
        let words = words_in(replies.skip(2), word_count(count));
        lemma_overwrite(buffer, start, unpack(words, count));
    }
}

/// The number of commands that it takes to read `length` bytes.
pub open spec fn chunk_count(parts: Parts, length: int) -> int {
    (length + parts.size - 1) / parts.size as int
}

/// How the parts are counted up to and behind the one that starts at `start`.
proof fn lemma_chunk_counts(parts: Parts, start: int, length: int)
    requires
        parts.valid(),
        0 <= start < length,
        start % parts.size as int == 0,
    ensures
        ({
            let size = parts.size as int;
            let first = start / size;
            let end = chunk_end(parts, start, length);
            &&& first * size == start
            &&& chunk_count(parts, start) == first
            &&& chunk_count(parts, end) == first + 1
            &&& chunk_count(parts, length) >= first + 1
            &&& end < length ==> end % size == 0 && end / size == first + 1
            &&& start <= (length - 1) / size * size
        }),
{
    let size = parts.size as int;
    let first = start / size;
    let end = chunk_end(parts, start, length);
    lemma_fundamental_div_mod(start, size);
    lemma_mul_is_commutative(first, size);
    lemma_fundamental_div_mod_converse(start + size - 1, size, first, size - 1);
    assert((first + 1) * size == first * size + size) by (nonlinear_arith);
    lemma_fundamental_div_mod_converse(start + size, size, first + 1, 0);
    lemma_fundamental_div_mod_converse(
        end + size - 1,
        size,
        first + 1,
        end + size - 1 - (start + size),
    );
    lemma_div_is_ordered(start + size, length + size - 1, size);
    lemma_div_is_ordered(start, length - 1, size);
    lemma_mul_inequality(first, (length - 1) / size, size);
}

/// The command with the given index of those that read `length` bytes from `address`.
pub open spec fn read_command(parts: Parts, length: int, index: int) -> Command {
    let start = index * parts.size;
    Command::of(read_sequence(parts, start, chunk_end(parts, start, length)))
}

/// Whether `after` is `before`, followed by some of the commands that read `length` bytes from
/// `address`, from the one with the index `first` on.
pub open spec fn reads_follow(
    before: Seq<Command>,
    after: Seq<Command>,
    parts: Parts,
    length: int,
    first: int,
) -> bool {
    &&& before.is_prefix_of(after)
    &&& after.len() - before.len() + first <= chunk_count(parts, length)
    &&& forall|i: int|
        before.len() <= i < after.len() ==> #[trigger] after[i] == read_command(
            parts,
            length,
            first + (i - before.len()),
        )
}

proof fn lemma_read_data_commands(
    bus: Bus,
    parts: Parts,
    buffer: Seq<u8>,
    start: int,
    filled: int,
    end: int,
    replies: Seq<Reply>,
)
    requires
        parts.valid(),
        0 <= start <= filled <= end <= buffer.len() <= usize::MAX,
        start < buffer.len(),
        start % parts.size as int == 0,
        end == chunk_end(parts, start, buffer.len() as int),
    ensures
        ({
            let run = read_data_run(parts, buffer, filled, end, replies);
            let after = bus.after(run.issued).commands;
            let length = buffer.len() as int;
            let first = start / parts.size as int + 1;
            &&& reads_follow(bus.commands, after, parts, length, first)
            &&& run.outcome matches Some((result, received)) ==> {
                &&& received.len() == length
                &&& result is Ok ==> after.len() - bus.commands.len() + first == chunk_count(
                    parts,
                    length,
                )
            }
        }),
    decreases replies.len(), 0int,
{
    reveal(read_data_run);
    reveal(read_chunk_run);
    let run = read_data_run(parts, buffer, filled, end, replies);
    let length = buffer.len() as int;
    lemma_chunk_counts(parts, start, length);
    if filled < end {
        let wait = wait_rx_ready_run(replies);
        lemma_wait_rx_ready_orderly(replies);
        bus::lemma_wait_rx_ready_silent(replies);
        bus::lemma_after_silent(bus, wait.issued);
        if wait.outcome is Some && wait.outcome->0 is Ok {
            let drain = drain_run(buffer, filled, end, wait.rest);
            let drained = read_drained(parts, filled, end, drain);
            lemma_drain_orderly(buffer, filled, end, wait.rest);
            lemma_drain_keeps_size(buffer, filled, end, wait.rest);
            bus::lemma_drain_silent(buffer, filled, end, wait.rest);
            bus::lemma_after_silent(bus, drain.issued);
            assert(run == read_ready(parts, buffer, filled, end, wait));
            assert(run.issued == wait.issued + drained.issued);
            bus::lemma_after_both(bus, wait.issued, drained.issued);
            if drain.outcome is Some {
                let (next, count) = drain.outcome->0;
                let more = read_data_run(parts, next, filled + count, end, drain.rest);
                assert(drained.issued == drain.issued + more.issued);
                bus::lemma_after_both(bus, drain.issued, more.issued);
                lemma_read_data_commands(
                    bus,
                    parts,
                    next,
                    start,
                    filled + count,
                    end,
                    drain.rest,
                );
            } else {
                assert(drained.issued == drain.issued);
            }
        } else {
            assert(run.issued =~= wait.issued);
        }
    } else {
        let wait = wait_command_done_run(replies);
        lemma_wait_command_done_orderly(replies);
        bus::lemma_wait_command_done_silent(replies);
        bus::lemma_after_silent(bus, wait.issued);
        if wait.outcome is Some && wait.outcome->0 is Ok {
            let more = read_chunk_run(parts, buffer, end, wait.rest);
            assert(run == read_waited(parts, buffer, end, wait));
            assert(run.issued == wait.issued + more.issued);
            bus::lemma_after_both(bus, wait.issued, more.issued);
            lemma_read_chunk_commands(bus, parts, buffer, end, wait.rest);
        } else {
            assert(run.issued =~= wait.issued);
        }
    }
}

proof fn lemma_read_chunk_commands(
    bus: Bus,
    parts: Parts,
    buffer: Seq<u8>,
    start: int,
    replies: Seq<Reply>,
)
    requires
        parts.valid(),
        0 <= start <= buffer.len() <= usize::MAX,
        start == buffer.len() || start % parts.size as int == 0,
    ensures
        ({
            let run = read_chunk_run(parts, buffer, start, replies);
            let after = bus.after(run.issued).commands;
            let length = buffer.len() as int;
            let first = chunk_count(parts, start);
            &&& reads_follow(bus.commands, after, parts, length, first)
            &&& run.outcome matches Some((result, received)) ==> {
                &&& received.len() == length
                &&& result is Ok ==> after.len() - bus.commands.len() + first == chunk_count(
                    parts,
                    length,
                )
            }
        }),
    decreases replies.len(), 1int,
{
    reveal(read_chunk_run);
    reveal(read_data_run);
    let run = read_chunk_run(parts, buffer, start, replies);
    let length = buffer.len() as int;
    if start < length {
        let first = chunk_count(parts, start);
        lemma_chunk_counts(parts, start, length);
        let end = chunk_end(parts, start, length);
        let sequence = read_sequence(parts, start, end);
        let launch = launch_run(sequence, replies);
        lemma_launch_orderly(sequence, replies);
        bus::lemma_launch_command(bus, sequence, replies);
        assert(run == read_launched(parts, buffer, start, end, launch));
        assert(read_command(parts, length, first) == Command::of(sequence));
        if launch.outcome is Some {
            let more = read_data_run(parts, buffer, start, end, launch.rest);
            bus::lemma_after_both(bus, launch.issued, more.issued);
            let launched = bus.after(launch.issued);
            lemma_read_data_commands(
                launched,
                parts,
                buffer,
                start,
                start,
                end,
                launch.rest,
            );
            let after = bus.after(run.issued).commands;
            assert(after == launched.after(more.issued).commands);
            assert(launched.commands[bus.commands.len() as int]
                == after[bus.commands.len() as int]);
            assert(bus.commands.is_prefix_of(launched.commands));
        }
    }
}

/// Reading data takes commands for one part each, one behind the other, without gap or overlap.
/// When reading has ended well, they cover the whole buffer. The size of the buffer never changes.
pub proof fn lemma_read_commands(parts: Parts, buffer: Seq<u8>, replies: Seq<Reply>)
    requires
        parts.valid(),
        buffer.len() <= usize::MAX,
    ensures
        ({
            let run = read_run(parts, buffer, replies);
            let commands = commands_of(run.issued);
            let length = buffer.len() as int;
            &&& commands.len() <= chunk_count(parts, length)
            &&& forall|i: int|
                0 <= i < commands.len() ==> #[trigger] commands[i] == read_command(
                    parts,
                    length,
                    i,
                )
            &&& run.outcome matches Some((result, received)) ==> {
                &&& received.len() == length
                &&& result is Ok ==> commands.len() == chunk_count(parts, length)
            }
        }),
{
    let run = read_run(parts, buffer, replies);
    let clear = seq![Access::ClearRxFifo];
    assert(silent(clear));
    bus::lemma_after_silent(Bus::fresh(), clear);
    let size = parts.size as int;
    lemma_small_mod(0, size as nat);
    lemma_fundamental_div_mod_converse(size - 1, size, 0, size - 1);
    if buffer.len() > 0 {
        lemma_chunk_counts(parts, 0, buffer.len() as int);
    }
    if replies.len() == 0 {
        assert(run.issued =~= clear);
    } else {
        let more = read_chunk_run(parts, buffer, 0, replies.skip(1));
        bus::lemma_after_both(Bus::fresh(), clear, more.issued);
        lemma_read_chunk_commands(Bus::fresh(), parts, buffer, 0, replies.skip(1));
    }
}

/// When the address and the length of a read are aligned as its commands have to be, every command
/// starts and ends at an aligned address.
///
/// An alignment beyond 65535 is left out, as no command can read that much, and so is data that
/// goes beyond the last address of 32 bits.
pub proof fn lemma_read_commands_aligned(
    address: u32,
    read_alignment: u32,
    buffer: Seq<u8>,
    replies: Seq<Reply>,
)
    requires
        0 < read_alignment <= MAX_READ,
        address as int % read_alignment as int == 0,
        buffer.len() as int % read_alignment as int == 0,
        buffer.len() <= usize::MAX,
        address + buffer.len() <= 0x1_0000_0000,
    ensures
        ({
            let parts = Parts::aligned(address, buffer.len() as int, read_alignment);
            let commands = commands_of(read_run(parts, buffer, replies).issued);
            forall|i: int|
                0 <= i < commands.len() ==> {
                    let start = (#[trigger] commands[i]).address as int;
                    let end = start + commands[i].control.idatsz;
                    &&& start % read_alignment as int == 0
                    &&& end % read_alignment as int == 0
                }
        }),
{
    let parts = Parts::aligned(address, buffer.len() as int, read_alignment);
    let alignment = read_alignment as int;
    let size = parts.size as int;
    let length = buffer.len() as int;
    lemma_part_size(address, length, read_alignment);
    assert(readable(address, length));
    lemma_readable(address, length, read_alignment);
    lemma_read_commands(parts, buffer, replies);
    let commands = commands_of(read_run(parts, buffer, replies).issued);
    assert forall|i: int| 0 <= i < commands.len() implies {
        let start = (#[trigger] commands[i]).address as int;
        let end = start + commands[i].control.idatsz;
        &&& start % alignment == 0
        &&& end % alignment == 0
    } by {
        let start = i * size;
        let end = chunk_end(parts, start, length);
        assert(commands[i] == read_command(parts, length, i));
        lemma_chunk_start(parts, i, length);
        assert(start % alignment == 0) by {
            lemma_mul_mod_noop_right(i, size, alignment);
        }
        lemma_aligned_sum(start, size, alignment);
        lemma_aligned_sum(address as int, start, alignment);
        lemma_aligned_sum(address as int, end, alignment);
    }
}

/// Whether every command that the run makes the flash memory receive is a single sequence with the
/// index 0, for one flash memory, with nothing sent along. The first is for the address of the
/// data, each other for the address behind what the one before covers. Each is for a whole part, or
/// for what is left. When the run has ended well, they cover all of the data, and what it comes to
/// is as long as the buffer.
pub open spec fn reads_in_parts(
    run: Run<(Result<(), ReadError>, Seq<u8>)>,
    address: u32,
    read_alignment: u32,
    length: int,
) -> bool {
    let parts = Parts::aligned(address, length, read_alignment);
    let commands = commands_of(run.issued);
    &&& forall|i: int|
        0 <= i < commands.len() ==> {
            let covered = i * parts.size;
            &&& (#[trigger] commands[i]).control.iseqid == 0
            &&& commands[i].control.iseqnum == 0
            &&& !commands[i].control.iparen
            &&& commands[i].sent.len() == 0
            &&& covered < length
            &&& commands[i].address == address + covered
            &&& commands[i].control.idatsz == if length - covered < parts.size {
                length - covered
            } else {
                parts.size as int
            }
        }
    &&& run.outcome matches Some((result, received)) ==> {
        &&& received.len() == length
        &&& result is Ok ==> commands.len() * parts.size >= length
    }
}

/// Which commands a read makes the flash memory receive, field by field.
pub proof fn lemma_read_commands_fields(
    address: u32,
    read_alignment: u32,
    buffer: Seq<u8>,
    replies: Seq<Reply>,
)
    requires
        buffer.len() <= usize::MAX,
        readable(address, buffer.len() as int),
    ensures
        reads_in_parts(
            read_run(
                Parts::aligned(address, buffer.len() as int, read_alignment),
                buffer,
                replies,
            ),
            address,
            read_alignment,
            buffer.len() as int,
        ),
{
    let length = buffer.len() as int;
    let parts = Parts::aligned(address, length, read_alignment);
    let size = parts.size as int;
    let run = read_run(parts, buffer, replies);
    let commands = commands_of(run.issued);
    lemma_part_size(address, length, read_alignment);
    lemma_readable(address, length, read_alignment);
    lemma_read_commands(parts, buffer, replies);
    assert forall|i: int| 0 <= i < commands.len() implies {
        let covered = i * parts.size;
        &&& (#[trigger] commands[i]).control.iseqid == 0
        &&& commands[i].control.iseqnum == 0
        &&& !commands[i].control.iparen
        &&& commands[i].sent.len() == 0
        &&& covered < length
        &&& commands[i].address == address + covered
        &&& commands[i].control.idatsz == if length - covered < parts.size {
            length - covered
        } else {
            parts.size as int
        }
    } by {
        assert(commands[i] == read_command(parts, length, i));
        lemma_chunk_start(parts, i, length);
    }
    if run.outcome matches Some((Ok(()), _)) {
        let count = chunk_count(parts, length);
        lemma_fundamental_div_mod(length + size - 1, size);
        lemma_mod_bound(length + size - 1, size);
        lemma_mul_is_commutative(count, size);
    }
}

/// A read whose commands cannot be aligned takes commands for 65535 bytes each, up to the last.
pub proof fn lemma_read_commands_unaligned(
    address: u32,
    read_alignment: u32,
    buffer: Seq<u8>,
    replies: Seq<Reply>,
)
    requires
        !can_align(address, buffer.len() as int, read_alignment),
        buffer.len() <= usize::MAX,
    ensures
        ({
            let length = buffer.len() as int;
            let parts = Parts::aligned(address, length, read_alignment);
            let commands = commands_of(read_run(parts, buffer, replies).issued);
            forall|i: int|
                0 <= i < commands.len() ==> #[trigger] commands[i] == Command::of(
                    CommandSequence {
                        start: READ,
                        count: 1,
                        address: (address + i * MAX_READ) as u32,
                        data_size: min(MAX_READ as int, length - i * MAX_READ) as u16,
                        parallel: false,
                    },
                )
        }),
{
    let parts = Parts::aligned(address, buffer.len() as int, read_alignment);
    lemma_read_commands(parts, buffer, replies);
}

/// Where the part with the given index starts.
proof fn lemma_chunk_start(parts: Parts, index: int, length: int)
    requires
        parts.valid(),
        0 <= index < chunk_count(parts, length),
        length >= 0,
        addresses_fit(parts, length),
    ensures
        0 <= index * parts.size < length,
        parts.address + index * parts.size <= u32::MAX,
{
    let size = parts.size as int;
    let count = chunk_count(parts, length);
    lemma_fundamental_div_mod(length + size - 1, size);
    lemma_mod_bound(length + size - 1, size);
    lemma_mul_is_commutative(count, size);
    lemma_mul_inequality(index + 1, count, size);
    assert((index + 1) * size == index * size + size) by (nonlinear_arith);
    assert(0 <= index * size) by (nonlinear_arith)
        requires
            index >= 0,
            size > 0,
    ;
    lemma_mod_multiples_basic(index, size);
    lemma_chunk_counts(parts, index * size, length);
}

proof fn lemma_aligned_sum(a: int, b: int, alignment: int)
    requires
        alignment > 0,
        a % alignment == 0,
        b % alignment == 0,
    ensures
        (a + b) % alignment == 0,
{
    lemma_add_mod_noop(a, b, alignment);
    lemma_small_mod(0, alignment as nat);
}

/// Whether the buffer holds the contents of the flash memory from `address` on, up to `filled`.
pub open spec fn holds(
    buffer: Seq<u8>,
    filled: int,
    contents: spec_fn(int) -> u8,
    address: u32,
) -> bool {
    forall|i: int| 0 <= i < filled ==> #[trigger] buffer[i] == contents(address + i)
}

proof fn lemma_read_data_contents(
    receiver: Receiver,
    contents: spec_fn(int) -> u8,
    watermark: int,
    parts: Parts,
    buffer: Seq<u8>,
    start: int,
    filled: int,
    end: int,
    replies: Seq<Reply>,
)
    requires
        watermark > 0,
        addresses_fit(parts, buffer.len() as int),
        parts.valid(),
        0 <= start <= filled <= end <= buffer.len() <= usize::MAX,
        start < buffer.len(),
        start % parts.size as int == 0,
        end == chunk_end(parts, start, buffer.len() as int),
        receiver.address == parts.address + start,
        receiver.size == end - start,
        filled < end ==> receiver.popped == filled - start,
        holds(buffer, filled, contents, parts.address),
        read_data_run(parts, buffer, filled, end, replies).outcome matches Some((Ok(()), _)),
        receiver.all_true(
            contents,
            watermark,
            read_data_run(parts, buffer, filled, end, replies).issued,
            replies,
        ),
    ensures
        ({
            let (_, received) = read_data_run(parts, buffer, filled, end, replies).outcome->0;
            &&& received.len() == buffer.len()
            &&& holds(received, buffer.len() as int, contents, parts.address)
        }),
    decreases replies.len(), 0int,
{
    reveal(read_data_run);
    reveal(read_chunk_run);
    let run = read_data_run(parts, buffer, filled, end, replies);
    let length = buffer.len() as int;
    if filled < end {
        let wait = wait_rx_ready_run(replies);
        lemma_wait_rx_ready_orderly(replies);
        let drain = drain_run(buffer, filled, end, wait.rest);
        let drained = read_drained(parts, filled, end, drain);
        lemma_drain_orderly(buffer, filled, end, wait.rest);
        assert(run == read_ready(parts, buffer, filled, end, wait));
        assert(run.issued == wait.issued + drained.issued);
        receiving::lemma_after_both(
            receiver,
            contents,
            watermark,
            wait.issued,
            drained.issued,
            replies,
        );
        lemma_wait_rx_ready_promises(receiver, watermark, replies);
        let ready = receiver.after(watermark, wait.issued, replies);
        let (next, count) = drain.outcome->0;
        let more = read_data_run(parts, next, filled + count, end, drain.rest);
        assert(drained.issued == drain.issued + more.issued);
        receiving::lemma_after_both(
            ready,
            contents,
            watermark,
            drain.issued,
            more.issued,
            wait.rest,
        );
        lemma_drain_receives(ready, contents, watermark, buffer, filled, end, wait.rest);
        let after = ready.after(watermark, drain.issued, wait.rest);
        assert(holds(next, filled + count, contents, parts.address));
        lemma_read_data_contents(
            after,
            contents,
            watermark,
            parts,
            next,
            start,
            filled + count,
            end,
            drain.rest,
        );
    } else {
        let wait = wait_command_done_run(replies);
        lemma_wait_command_done_orderly(replies);
        let more = read_chunk_run(parts, buffer, end, wait.rest);
        assert(run == read_waited(parts, buffer, end, wait));
        assert(run.issued == wait.issued + more.issued);
        receiving::lemma_after_both(
            receiver,
            contents,
            watermark,
            wait.issued,
            more.issued,
            replies,
        );
        let after = receiver.after(watermark, wait.issued, replies);
        lemma_chunk_counts(parts, start, length);
        lemma_read_chunk_contents(
            after,
            contents,
            watermark,
            parts,
            buffer,
            end,
            wait.rest,
        );
    }
}

proof fn lemma_read_chunk_contents(
    receiver: Receiver,
    contents: spec_fn(int) -> u8,
    watermark: int,
    parts: Parts,
    buffer: Seq<u8>,
    start: int,
    replies: Seq<Reply>,
)
    requires
        watermark > 0,
        addresses_fit(parts, buffer.len() as int),
        parts.valid(),
        0 <= start <= buffer.len() <= usize::MAX,
        start == buffer.len() || start % parts.size as int == 0,
        holds(buffer, start, contents, parts.address),
        read_chunk_run(parts, buffer, start, replies).outcome matches Some((Ok(()), _)),
        receiver.all_true(
            contents,
            watermark,
            read_chunk_run(parts, buffer, start, replies).issued,
            replies,
        ),
    ensures
        ({
            let (_, received) = read_chunk_run(parts, buffer, start, replies).outcome->0;
            &&& received.len() == buffer.len()
            &&& holds(received, buffer.len() as int, contents, parts.address)
        }),
    decreases replies.len(), 1int,
{
    reveal(read_chunk_run);
    reveal(read_data_run);
    let run = read_chunk_run(parts, buffer, start, replies);
    let length = buffer.len() as int;
    if start < length {
        let end = chunk_end(parts, start, length);
        let sequence = read_sequence(parts, start, end);
        let launch = launch_run(sequence, replies);
        lemma_launch_orderly(sequence, replies);
        assert(run == read_launched(parts, buffer, start, end, launch));
        let more = read_data_run(parts, buffer, start, end, launch.rest);
        receiving::lemma_after_both(
            receiver,
            contents,
            watermark,
            launch.issued,
            more.issued,
            replies,
        );
        lemma_launch_receives(receiver, watermark, sequence, replies);
        lemma_chunk_counts(parts, start, length);
        assert(parts.address + start <= u32::MAX);
        lemma_read_data_contents(
            receiver.after(watermark, launch.issued, replies),
            contents,
            watermark,
            parts,
            buffer,
            start,
            start,
            end,
            launch.rest,
        );
    }
}

/// When reading has ended well, the buffer holds what the flash memory holds at the parts, if
/// what the registers answered was true.
pub proof fn lemma_read_contents(
    receiver: Receiver,
    contents: spec_fn(int) -> u8,
    watermark: int,
    parts: Parts,
    buffer: Seq<u8>,
    replies: Seq<Reply>,
)
    requires
        watermark > 0,
        parts.valid(),
        buffer.len() <= usize::MAX,
        addresses_fit(parts, buffer.len() as int),
        read_run(parts, buffer, replies).outcome matches Some((Ok(()), _)),
        receiver.all_true(
            contents,
            watermark,
            read_run(parts, buffer, replies).issued,
            replies,
        ),
    ensures
        (read_run(parts, buffer, replies).outcome->0).1 == Seq::new(
            buffer.len(),
            |i: int| contents(parts.address + i),
        ),
{
    let run = read_run(parts, buffer, replies);
    let more = read_chunk_run(parts, buffer, 0, replies.skip(1));
    receiving::lemma_after_first(
        receiver,
        contents,
        watermark,
        Access::ClearRxFifo,
        more.issued,
        replies,
    );
    lemma_read_chunk_contents(
        receiver.after_one(watermark, Access::ClearRxFifo, replies[0]),
        contents,
        watermark,
        parts,
        buffer,
        0,
        replies.skip(1),
    );
    assert((run.outcome->0).1 =~= Seq::new(buffer.len(), |i: int| contents(parts.address + i)));
}

/// Whether the access with the index `at` read the word at the front of the RX FIFO.
pub open spec fn read_front(issued: Seq<Access>, replies: Seq<Reply>, at: int) -> bool {
    &&& 0 <= at < issued.len() <= replies.len()
    &&& issued[at] == Access::ReadRxData(0)
}

/// Whether the access with the index `at` found the RX FIFO empty.
pub open spec fn found_empty(issued: Seq<Access>, replies: Seq<Reply>, at: int) -> bool {
    &&& 0 <= at < issued.len() <= replies.len()
    &&& issued[at] == Access::ReadRxFill
    &&& replies[at]->RxFill_0 == 0
}

/// The error that says that nothing of a word was received.
pub open spec fn nothing_read() -> ReadError {
    ReadError::NotEnoughData(NotEnoughData { expected: 4, actual: 0 })
}

/// Whether `result` is the word that was read from the front of the RX FIFO, or says that nothing
/// was received where the FIFO was found empty, unless a command failed.
pub open spec fn one_word(
    issued: Seq<Access>,
    replies: Seq<Reply>,
    result: Result<u32, ReadError>,
) -> bool {
    &&& result is Ok ==> exists|at: int| #[trigger]
        read_front(issued, replies, at) && replies[at]->RxData_0 == result->Ok_0
    &&& result is Err && result->Err_0 is NotEnoughData ==> {
        &&& result->Err_0 == nothing_read()
        &&& exists|at: int| #[trigger] found_empty(issued, replies, at)
    }
}

/// What draining into four bytes comes to.
spec fn drained_word(outcome: (Seq<u8>, int)) -> Result<u32, ReadError> {
    let (bytes, count) = outcome;
    if count == 4 {
        Ok(word_of(bytes[0], bytes[1], bytes[2], bytes[3]))
    } else {
        Err(
            ReadError::NotEnoughData(NotEnoughData { expected: 4, actual: count as usize }),
        )
    }
}

/// Draining into four bytes gets the whole word at the front of the FIFO, or nothing at all.
proof fn lemma_drain_word(buffer: Seq<u8>, replies: Seq<Reply>)
    requires
        buffer.len() == 4,
        drain_run(buffer, 0, 4, replies).outcome is Some,
    ensures
        ({
            let run = drain_run(buffer, 0, 4, replies);
            one_word(run.issued, replies, drained_word(run.outcome->0))
        }),
{
    lemma_drain(buffer, 0, 4, replies);
    lemma_drain_orderly(buffer, 0, 4, replies);
    let run = drain_run(buffer, 0, 4, replies);
    let fill = 8 * (replies[1]->RxFill_0);
    let mark = watermark_bytes(replies[0]->RxWatermark_0);
    let count = min(min(4, fill), mark);
    let words = words_in(replies.skip(2), word_count(count));
    let bytes = unpack(words, count);
    lemma_overwrite(buffer, 0, bytes);
    if count == 4 {
        let filled = overwrite(buffer, 0, bytes);
        assert(filled =~= bytes);
        assert(words[0] == replies[2]->RxData_0);
        lemma_bytes_word(words[0]);
        assert(run.issued[0int + 2] == Access::ReadRxData(0));
        assert(read_front(run.issued, replies, 2));
        assert(drained_word(run.outcome->0) == Ok::<u32, ReadError>(words[0]));
    } else {
        assert(found_empty(run.issued, replies, 1));
        assert(drained_word(run.outcome->0) == Err::<u32, ReadError>(nothing_read()));
    }
}

/// What holds of a part of the accesses holds of all.
proof fn lemma_one_word_later(
    first: Seq<Access>,
    next: Seq<Access>,
    last: Seq<Access>,
    replies: Seq<Reply>,
    result: Result<u32, ReadError>,
)
    requires
        first.len() + next.len() + last.len() <= replies.len(),
        one_word(next, replies.skip(first.len() as int), result),
    ensures
        one_word(first + next + last, replies, result),
{
    let issued = first + next + last;
    let rest = replies.skip(first.len() as int);
    if let Ok(word) = result {
        let at = choose|at: int| #[trigger]
            read_front(next, rest, at) && rest[at]->RxData_0 == word;
        assert(issued[first.len() + at] == next[at]);
        assert(rest[at] == replies[first.len() + at]);
        assert(read_front(issued, replies, first.len() + at));
    } else if result->Err_0 is NotEnoughData {
        let at = choose|at: int| found_empty(next, rest, at);
        assert(issued[first.len() + at] == next[at]);
        assert(rest[at] == replies[first.len() + at]);
        assert(found_empty(issued, replies, first.len() + at));
    }
}

/// The status is the word that the flash memory answered with. That there is not enough data is
/// reported only where the RX FIFO was found empty.
pub proof fn lemma_read_status_word(replies: Seq<Reply>)
    ensures
        read_status_run(replies).outcome matches Some(result) ==> one_word(
            read_status_run(replies).issued,
            replies,
            match result {
                Ok(status) => Ok(status.raw),
                Err(error) => Err(error),
            },
        ),
{
    reveal(read_status_run);
    let run = read_status_run(replies);
    if run.outcome is Some {
        let command = run_command_run(read_status_sequence(), replies.skip(1));
        lemma_run_command_orderly(read_status_sequence(), replies.skip(1));
        if command.outcome->0 is Ok {
            let drain = drain_run(status_buffer(), 0, 4, command.rest);
            lemma_drain_orderly(status_buffer(), 0, 4, command.rest);
            lemma_drain_word(status_buffer(), command.rest);
            let first = seq![Access::ClearRxFifo] + command.issued;
            assert(run.issued =~= first + drain.issued + Seq::<Access>::empty());
            assert(command.rest =~= replies.skip(first.len() as int));
            lemma_one_word_later(
                first,
                drain.issued,
                Seq::empty(),
                replies,
                drained_word(drain.outcome->0),
            );
        }
    }
}

/// The flash ID is the word that the flash memory answered with. That there is not enough data is
/// reported only where the RX FIFO was found empty.
pub proof fn lemma_read_id_word(replies: Seq<Reply>)
    ensures
        read_id_run(replies).outcome matches Some(result) ==> one_word(
            read_id_run(replies).issued,
            replies,
            result,
        ),
{
    let run = read_id_run(replies);
    if run.outcome is Some {
        let launch = launch_run(read_id_sequence(), replies.skip(1));
        lemma_launch_orderly(read_id_sequence(), replies.skip(1));
        let ready = wait_rx_ready_run(launch.rest);
        lemma_wait_rx_ready_orderly(launch.rest);
        if ready.outcome->0 is Ok {
            let drain = drain_run(id_buffer(), 0, 4, ready.rest);
            lemma_drain_orderly(id_buffer(), 0, 4, ready.rest);
            lemma_drain_word(id_buffer(), ready.rest);
            let wait = wait_command_done_run(drain.rest);
            lemma_wait_command_done_orderly(drain.rest);
            let first = seq![Access::ClearRxFifo] + launch.issued + ready.issued;
            assert(read_id_drained(drain).issued =~= drain.issued + wait.issued);
            assert(read_id_ready(ready).issued =~= ready.issued + (drain.issued + wait.issued));
            assert(run.issued =~= first + drain.issued + wait.issued);
            assert(ready.rest =~= replies.skip(first.len() as int));
            lemma_one_word_later(
                first,
                drain.issued,
                wait.issued,
                replies,
                drained_word(drain.outcome->0),
            );
        }
    }
}

/// Whether the flash memory with the given contents holds what came with `command`.
pub open spec fn stored(contents: spec_fn(int) -> u8, command: Command) -> bool {
    let size = command.control.idatsz as int;
    forall|i: int|
        0 <= i < size && i < 4 * command.sent.len() ==> contents(command.address + i)
            == #[trigger] unpack(command.sent, size)[i]
}

/// Whether the flash memory holds what came with each command to program a page.
pub open spec fn all_stored(contents: spec_fn(int) -> u8, commands: Seq<Command>) -> bool {
    forall|i: int|
        0 <= i < commands.len() && (#[trigger] commands[i]).control.iseqid == PAGE_PROGRAM
            ==> stored(contents, commands[i])
}

proof fn lemma_programmed(
    contents: spec_fn(int) -> u8,
    address: u32,
    data: Seq<u8>,
    page_size: u32,
    replies: Seq<Reply>,
)
    requires
        data.len() <= u16::MAX,
        page_program_run(address, data, page_size, replies).outcome == Some(
            Ok::<(), PageProgramError>(()),
        ),
        all_stored(
            contents,
            commands_of(page_program_run(address, data, page_size, replies).issued),
        ),
    ensures
        forall|i: int| 0 <= i < data.len() ==> contents(address + i) == #[trigger] data[i],
{
    let at = lemma_page_program_sent(address, data, page_size, replies);
    let command = commands_of(page_program_run(address, data, page_size, replies).issued)[at];
    assert(command.control.iseqid == PAGE_PROGRAM);
    assert(stored(contents, command));
    assert forall|i: int| 0 <= i < data.len() implies contents(address + i)
        == #[trigger] data[i] by {
        assert(contents(command.address + i) == unpack(command.sent, data.len() as int)[i]);
    }
}

/// What was programmed is what is read back: when programming a page and reading it have both
/// ended well, the buffer holds the data, if the flash memory holds what came with the command to
/// program and the registers answer truly.
///
/// Data beyond 65535 bytes is left out, because the peripheral takes the size in 16 bits.
pub proof fn lemma_program_then_read(
    receiver: Receiver,
    contents: spec_fn(int) -> u8,
    watermark: int,
    address: u32,
    data: Seq<u8>,
    alignment: FlashAlignment,
    programmed: Seq<Reply>,
    buffer: Seq<u8>,
    replies: Seq<Reply>,
)
    requires
        data.len() <= u16::MAX,
        page_program_run(address, data, alignment.page_size, programmed).outcome == Some(
            Ok::<(), PageProgramError>(()),
        ),
        all_stored(
            contents,
            commands_of(page_program_run(address, data, alignment.page_size, programmed).issued),
        ),
        watermark > 0,
        buffer.len() == data.len(),
        readable(address, data.len() as int),
        read_run(
            Parts::aligned(address, data.len() as int, alignment.read_alignment),
            buffer,
            replies,
        ).outcome matches Some((Ok(()), _)),
        receiver.all_true(
            contents,
            watermark,
            read_run(
                Parts::aligned(address, data.len() as int, alignment.read_alignment),
                buffer,
                replies,
            ).issued,
            replies,
        ),
    ensures
        (read_run(
            Parts::aligned(address, data.len() as int, alignment.read_alignment),
            buffer,
            replies,
        ).outcome->0).1 == data,
{
    let parts = Parts::aligned(address, data.len() as int, alignment.read_alignment);
    lemma_part_size(address, data.len() as int, alignment.read_alignment);
    lemma_readable(address, data.len() as int, alignment.read_alignment);
    lemma_programmed(contents, address, data, alignment.page_size, programmed);
    lemma_read_contents(receiver, contents, watermark, parts, buffer, replies);
    assert(Seq::new(buffer.len(), |i: int| contents(address + i)) =~= data);
}

} // verus!
