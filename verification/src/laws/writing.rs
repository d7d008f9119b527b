//! Writing to the flash memory happens only when it is ready for it, and what is written is what
//! was asked for.

use crate::laws::bus::{
    commands_of, lemma_after_both, lemma_after_one, lemma_after_silent, lemma_drain_silent,
    lemma_invalidate_silent, lemma_launch_command, lemma_wait_command_done_silent,
    lemma_wait_tx_ready_silent, silent, Bus, Command,
};
use crate::laws::fifos::{lemma_fill, send_tx};
use crate::nor_flash::erase::{erase_commanded, erase_run, settle_run};
use crate::nor_flash::program::{
    page_program_run, page_program_sequence, program_clear, program_data_run, program_filled,
    program_launched, program_ready, program_waited,
};
use crate::nor_flash::status::{
    lemma_read_status_orderly, lemma_run_command_orderly, read_status_commanded, read_status_run,
    read_status_sequence, run_command_run, status_buffer,
};
use crate::nor_flash::write_enable::{
    enable_write_run, enable_write_set, enable_write_status, set_write_enable_run, wait_write_run,
    write_enable_sequence, WRITE_ENABLE_ATTEMPTS,
};
use crate::nor_flash::{
    within_page, PageProgramError, ReadError, Status, WriteCrossesPageBoundary, WriteError,
};
use crate::peripheral::cache::invalidate_cache_run;
use crate::peripheral::command::launch_run;
use crate::peripheral::fifo::{
    drain_run, fill_run, lemma_fill_orderly, min, watermark_bytes,
};
use crate::peripheral::wait::{
    lemma_wait_tx_ready_orderly, wait_command_done_run, wait_tx_ready_run,
};
use crate::peripheral::CommandSequence;
use crate::procedure::{then, Run};
use crate::registers::{Access, Reply};
use crate::words::{byte_or_zero, lemma_unpack_pack, pack, unpack, word_count};
use vstd::arithmetic::div_mod::{
    lemma_fundamental_div_mod, lemma_fundamental_div_mod_converse, lemma_mod_bound,
};
use vstd::prelude::*;

verus! {

/// The command that reads the status.
pub open spec fn status_command() -> Command {
    Command::of(read_status_sequence())
}

/// The command that sets the write-enable latch.
pub open spec fn write_enable_command() -> Command {
    Command::of(write_enable_sequence())
}

/// Whether `after` is `before` and then `command`, or still `before` alone.
pub open spec fn at_most(before: Seq<Command>, command: Command, after: Seq<Command>) -> bool {
    after == before || after == before.push(command)
}

/// Running a command makes the flash memory receive that command, and no other.
pub proof fn lemma_run_command(bus: Bus, sequence: CommandSequence, replies: Seq<Reply>)
    ensures
        ({
            let run = run_command_run(sequence, replies);
            let after = bus.after(run.issued).commands;
            &&& at_most(bus.commands, Command::of(sequence), after)
            &&& run.outcome is Some ==> after == bus.commands.push(Command::of(sequence))
        }),
{
    let launch = launch_run(sequence, replies);
    let run = run_command_run(sequence, replies);
    lemma_launch_command(bus, sequence, replies);
    if launch.outcome is Some {
        let wait = wait_command_done_run(launch.rest);
        lemma_after_both(bus, launch.issued, wait.issued);
        lemma_wait_command_done_silent(launch.rest);
        lemma_after_silent(bus.after(launch.issued), wait.issued);
    }
}

/// Reading the status makes the flash memory receive the command for that, and no other.
pub proof fn lemma_read_status_command(bus: Bus, replies: Seq<Reply>)
    ensures
        ({
            let run = read_status_run(replies);
            let after = bus.after(run.issued).commands;
            &&& at_most(bus.commands, status_command(), after)
            &&& run.outcome is Some ==> after == bus.commands.push(status_command())
        }),
{
    reveal(read_status_run);
    let run = read_status_run(replies);
    let clear = seq![Access::ClearRxFifo];
    assert(silent(clear));
    lemma_after_silent(bus, clear);
    if replies.len() == 0 {
        assert(run.issued =~= clear);
    } else {
        let command = run_command_run(read_status_sequence(), replies.skip(1));
        let commanded = read_status_commanded(command);
        assert(run.issued == clear + commanded.issued);
        lemma_after_both(bus, clear, commanded.issued);
        lemma_run_command(bus, read_status_sequence(), replies.skip(1));
        if command.outcome is Some {
            if command.outcome->0 is Err {
                assert(commanded.issued =~= command.issued);
            } else {
                let drain = drain_run(status_buffer(), 0, 4, command.rest);
                assert(commanded.issued =~= command.issued + drain.issued);
                lemma_after_both(bus, command.issued, drain.issued);
                lemma_drain_silent(status_buffer(), 0, 4, command.rest);
                lemma_after_silent(bus.after(command.issued), drain.issued);
            }
        }
    }
}

/// Whether the commands read the status and set the write-enable latch in turn, beginning with
/// the status, with at most `attempts` attempts to set the latch.
pub open spec fn preparation(commands: Seq<Command>, attempts: int) -> bool {
    &&& commands.len() <= 2 * attempts + 1
    &&& forall|i: int|
        0 <= i < commands.len() ==> #[trigger] commands[i] == if i % 2 == 0 {
            status_command()
        } else {
            write_enable_command()
        }
}

/// How writing is enabled, from the point where `status` reads the status.
proof fn lemma_enable_status_commands(
    bus: Bus,
    replies: Seq<Reply>,
    attempts: nat,
) -> (commands: Seq<Command>)
    ensures
        ({
            let run = enable_write_status(read_status_run(replies), attempts);
            &&& bus.after(run.issued).commands == bus.commands + commands
            &&& preparation(commands, attempts as int)
            &&& run.outcome is Some ==> commands.len() >= 1
            &&& run.outcome == Some(Err::<(), _>(WriteError::WriteEnableFailed))
                ==> commands.len() == 2 * attempts + 1
        }),
    decreases attempts,
{
    reveal(enable_write_status);
    reveal(enable_write_set);
    let status = read_status_run(replies);
    let run = enable_write_status(status, attempts);
    lemma_read_status_command(bus, replies);
    let read = bus.after(status.issued);
    if status.outcome is None {
        assert(run.issued == status.issued);
        if read.commands == bus.commands {
            assert(bus.commands + Seq::empty() =~= bus.commands);
            Seq::empty()
        } else {
            assert(bus.commands + seq![status_command()] =~= bus.commands.push(status_command()));
            seq![status_command()]
        }
    } else if status.outcome->0 is Err || status.outcome->0->Ok_0.busy()
        || status.outcome->0->Ok_0.writable() || attempts == 0 {
        assert(run.issued =~= status.issued);
        assert(bus.commands + seq![status_command()] =~= bus.commands.push(status_command()));
        seq![status_command()]
    } else {
        let latch = set_write_enable_run(status.rest);
        let set = enable_write_set(latch, (attempts - 1) as nat);
        assert(run.issued =~= status.issued + set.issued);
        lemma_after_both(bus, status.issued, set.issued);
        lemma_run_command(read, write_enable_sequence(), status.rest);
        let latched = read.after(latch.issued);
        let both = seq![status_command(), write_enable_command()];
        if latch.outcome is None || latch.outcome->0 is Err {
            assert(set.issued =~= latch.issued);
            if latched.commands == read.commands {
                assert(bus.commands + seq![status_command()] =~= bus.commands.push(
                    status_command(),
                ));
                seq![status_command()]
            } else {
                assert(bus.commands + both =~= bus.commands.push(status_command()).push(
                    write_enable_command(),
                ));
                both
            }
        } else {
            let again = enable_write_status(read_status_run(latch.rest), (attempts - 1) as nat);
            assert(set.issued =~= latch.issued + again.issued);
            lemma_after_both(read, latch.issued, again.issued);
            let more = lemma_enable_status_commands(latched, latch.rest, (attempts - 1) as nat);
            assert(bus.commands + (both + more) =~= bus.commands.push(status_command()).push(
                write_enable_command(),
            ) + more);
            assert forall|i: int| 2 <= i < (both + more).len() implies #[trigger] (both + more)[i]
                == more[i - 2] by {}
            both + more
        }
    }
}

/// Enabling writes reads the status and sets the write-enable latch in turn, beginning and ending
/// with the status, and sets the latch at most ten times. It gives up only after all ten attempts.
pub proof fn lemma_enable_write_commands(replies: Seq<Reply>)
    ensures
        ({
            let run = enable_write_run(replies);
            let commands = commands_of(run.issued);
            &&& preparation(commands, WRITE_ENABLE_ATTEMPTS as int)
            &&& run.outcome == Some(Err::<(), _>(WriteError::WriteEnableFailed))
                ==> commands.len() == 2 * WRITE_ENABLE_ATTEMPTS + 1
        }),
{
    let commands = lemma_enable_status_commands(
        Bus::fresh(),
        replies,
        WRITE_ENABLE_ATTEMPTS as nat,
    );
    assert(Bus::fresh().commands + commands =~= commands);
}

/// Whether the accesses that got the replies from `from` on, up to the end of `run`, read the
/// status, and found `found`.
pub open spec fn status_read_last<V>(run: Run<V>, replies: Seq<Reply>, from: int, found: Status)
    -> bool {
    let last = read_status_run(replies.skip(from));
    &&& 0 <= from <= run.issued.len() <= replies.len()
    &&& last.outcome == Some(Ok::<_, ReadError>(found))
    &&& last.issued == run.issued.skip(from)
    &&& last.rest == run.rest
}

proof fn lemma_status_read_later<V, W>(
    first: Run<W>,
    next: Run<V>,
    replies: Seq<Reply>,
    from: int,
    found: Status,
)
    requires
        first.orderly(replies),
        first.outcome is Some,
        status_read_last(next, first.rest, from, found),
    ensures
        status_read_last(
            then(first, next),
            replies,
            first.issued.len() + from,
            found,
        ),
{
    let made = first.issued.len() as int;
    assert(replies.skip(made).skip(from) =~= replies.skip(made + from));
    assert((first.issued + next.issued).skip(made + from) =~= next.issued.skip(from));
}

proof fn lemma_enable_status_verified(replies: Seq<Reply>, attempts: nat) -> (last: (int, Status))
    ensures
        ({
            let run = enable_write_status(read_status_run(replies), attempts);
            run.outcome == Some(Ok::<(), WriteError>(())) ==> {
                &&& status_read_last(run, replies, last.0, last.1)
                &&& !last.1.busy()
                &&& last.1.writable()
            }
        }),
    decreases attempts,
{
    reveal(enable_write_status);
    reveal(enable_write_set);
    let status = read_status_run(replies);
    let run = enable_write_status(status, attempts);
    lemma_read_status_orderly(replies);
    if run.outcome == Some(Ok::<(), WriteError>(())) {
        let read = status.outcome->0->Ok_0;
        if read.writable() {
            assert(run.issued =~= status.issued);
            assert(replies.skip(0) =~= replies);
            assert(run.issued.skip(0) =~= run.issued);
            (0, read)
        } else {
            let latch = set_write_enable_run(status.rest);
            lemma_run_command_orderly(
                write_enable_sequence(),
                status.rest,
            );
            let set = enable_write_set(latch, (attempts - 1) as nat);
            let again = enable_write_status(read_status_run(latch.rest), (attempts - 1) as nat);
            assert(set == then(latch, again));
            assert(run == then(status, set));
            let (from, found) = lemma_enable_status_verified(latch.rest, (attempts - 1) as nat);
            lemma_status_read_later(latch, again, status.rest, from, found);
            lemma_status_read_later(status, set, replies, latch.issued.len() + from, found);
            (status.issued.len() + (latch.issued.len() + from), found)
        }
    } else {
        (0, Status { raw: 0 })
    }
}

/// When writing has been enabled, the last thing done was to read the status, and it showed the
/// write-enable latch set and no write in progress.
pub proof fn lemma_enable_write_verified(replies: Seq<Reply>)
    ensures
        enable_write_run(replies).outcome == Some(Ok::<(), WriteError>(())) ==> exists|
            from: int,
            found: Status,
        |
            {
                &&& #[trigger] status_read_last(enable_write_run(replies), replies, from, found)
                &&& !found.busy()
                &&& found.writable()
            },
{
    let last = lemma_enable_status_verified(replies, WRITE_ENABLE_ATTEMPTS as nat);
}

/// Whether `after` is `before`, followed by nothing but commands that read the status.
pub open spec fn status_follows(before: Seq<Command>, after: Seq<Command>) -> bool {
    &&& before.is_prefix_of(after)
    &&& forall|i: int| before.len() <= i < after.len() ==> #[trigger] after[i] == status_command()
}

/// Waiting for a write to end makes the flash memory receive nothing but commands that read the
/// status.
pub proof fn lemma_wait_write_commands(bus: Bus, replies: Seq<Reply>)
    ensures
        ({
            let run = wait_write_run(replies);
            let after = bus.after(run.issued).commands;
            &&& status_follows(bus.commands, after)
            &&& run.outcome is Some ==> after.len() > bus.commands.len()
        }),
    decreases replies.len(),
{
    reveal(wait_write_run);
    let run = wait_write_run(replies);
    let status = read_status_run(replies);
    lemma_read_status_orderly(replies);
    lemma_read_status_command(bus, replies);
    if status.outcome is Some && status.outcome->0 is Ok && status.outcome->0->Ok_0.busy() {
        let more = wait_write_run(status.rest);
        assert(run.issued =~= status.issued + more.issued);
        lemma_after_both(bus, status.issued, more.issued);
        lemma_wait_write_commands(bus.after(status.issued), status.rest);
    } else {
        assert(run.issued =~= status.issued);
    }
}

/// When waiting for a write has ended well, the last thing done was to read the status, and it
/// showed no write in progress.
pub proof fn lemma_wait_write_verified(replies: Seq<Reply>)
    ensures
        wait_write_run(replies).outcome == Some(Ok::<(), WriteError>(())) ==> exists|
            from: int,
            found: Status,
        |
            {
                &&& #[trigger] status_read_last(wait_write_run(replies), replies, from, found)
                &&& !found.busy()
            },
    decreases replies.len(),
{
    reveal(wait_write_run);
    let run = wait_write_run(replies);
    let status = read_status_run(replies);
    lemma_read_status_orderly(replies);
    if run.outcome == Some(Ok::<(), WriteError>(())) {
        let read = status.outcome->0->Ok_0;
        if read.busy() {
            let more = wait_write_run(status.rest);
            assert(run == then(status, more));
            lemma_wait_write_verified(status.rest);
            let (from, found) = choose|from: int, found: Status|
                {
                    &&& #[trigger] status_read_last(more, status.rest, from, found)
                    &&& !found.busy()
                };
            lemma_status_read_later(status, more, replies, from, found);
        } else {
            assert(run.issued =~= status.issued);
            assert(replies.skip(0) =~= replies);
            assert(run.issued.skip(0) =~= run.issued);
            assert(status_read_last(run, replies, 0, read));
        }
    }
}

/// What ends a write makes the flash memory receive nothing but commands that read the status.
proof fn lemma_settle_commands(bus: Bus, replies: Seq<Reply>)
    ensures
        ({
            let run = settle_run(replies);
            let after = bus.after(run.issued).commands;
            &&& status_follows(bus.commands, after)
            &&& run.outcome is Some ==> after.len() > bus.commands.len()
        }),
{
    let wait = wait_write_run(replies);
    let run = settle_run(replies);
    lemma_wait_write_commands(bus, replies);
    if wait.outcome is Some && wait.outcome->0 is Ok {
        let invalidate = invalidate_cache_run(wait.rest);
        assert(run.issued =~= wait.issued + invalidate.issued);
        lemma_after_both(bus, wait.issued, invalidate.issued);
        lemma_invalidate_silent(wait.rest);
        lemma_after_silent(bus.after(wait.issued), invalidate.issued);
    } else {
        assert(run.issued =~= wait.issued);
    }
}

/// Whether `commands` are `prepared`, then `write`, then reads of the status; or only the start of
/// that.
pub open spec fn one_write(prepared: Seq<Command>, write: Command, commands: Seq<Command>) -> bool {
    &&& prepared.is_prefix_of(commands)
    &&& commands.len() > prepared.len() ==> commands[prepared.len() as int] == write
    &&& forall|i: int|
        prepared.len() < i < commands.len() ==> #[trigger] commands[i] == status_command()
}

/// Erasing makes the flash memory receive what enables writing, and the command to erase only
/// when that went well. That command is received at most once, and then the status is read until
/// the write has ended. When erasing has ended well, all of that has happened.
pub proof fn lemma_erase_commands(sequence: CommandSequence, replies: Seq<Reply>)
    ensures
        ({
            let enable = enable_write_run(replies);
            let run = erase_run(sequence, replies);
            let prepared = commands_of(enable.issued);
            let commands = commands_of(run.issued);
            &&& preparation(prepared, WRITE_ENABLE_ATTEMPTS as int)
            &&& one_write(prepared, Command::of(sequence), commands)
            &&& enable.outcome != Some(Ok::<(), WriteError>(())) ==> commands == prepared
            &&& run.outcome == Some(Ok::<(), WriteError>(())) ==> commands.len() > prepared.len()
                + 1
        }),
{
    let enable = enable_write_run(replies);
    let run = erase_run(sequence, replies);
    lemma_enable_write_commands(replies);
    if enable.outcome is Some && enable.outcome->0 is Ok {
        assert(enable.outcome->0->Ok_0 == ());
        let bus = Bus::fresh().after(enable.issued);
        let command = run_command_run(sequence, enable.rest);
        let commanded = erase_commanded(command);
        lemma_after_both(Bus::fresh(), enable.issued, commanded.issued);
        lemma_run_command(bus, sequence, enable.rest);
        if command.outcome is Some && command.outcome->0 is Ok {
            let settle = settle_run(command.rest);
            lemma_after_both(bus, command.issued, settle.issued);
            lemma_settle_commands(bus.after(command.issued), command.rest);
            let before = bus.after(command.issued).commands;
            let after = bus.after(commanded.issued).commands;
            assert(bus.commands.is_prefix_of(before));
            assert(before[bus.commands.len() as int] == after[bus.commands.len() as int]);
        } else {
            assert(commanded.issued =~= command.issued);
        }
    } else {
        assert(run.issued =~= enable.issued);
    }
}

/// Packing bytes in two parts, where the first part fills its words.
proof fn lemma_pack_parts(first: Seq<u8>, second: Seq<u8>)
    requires
        first.len() % 4 == 0,
    ensures
        pack(first + second) == pack(first) + pack(second),
{
    let both = first + second;
    let words = first.len() as int / 4;
    assert forall|i: int| 0 <= i < pack(both).len() implies #[trigger] pack(both)[i] == (pack(first)
        + pack(second))[i] by {
        if i < words {
            assert(both[4 * i] == first[4 * i]);
        } else {
            assert(both[4 * i] == second[4 * (i - words)]);
            assert(byte_or_zero(both, 4 * i + 1) == byte_or_zero(second, 4 * (i - words) + 1));
            assert(byte_or_zero(both, 4 * i + 2) == byte_or_zero(second, 4 * (i - words) + 2));
            assert(byte_or_zero(both, 4 * i + 3) == byte_or_zero(second, 4 * (i - words) + 3));
        }
    }
    assert(pack(both) =~= pack(first) + pack(second));
}

/// Writing words to the data registers stages them.
proof fn lemma_stage_words(bus: Bus, words: Seq<u32>, issued: Seq<Access>)
    requires
        bus.staged.len() + issued.len() <= words.len() <= usize::MAX,
        bus.staged == words.take(bus.staged.len() as int),
        forall|i: int|
            0 <= i < issued.len() ==> #[trigger] issued[i] == Access::WriteTxData(
                (bus.staged.len() + i) as usize,
                words[bus.staged.len() + i],
            ),
    ensures
        bus.after(issued) == (Bus {
            staged: words.take((bus.staged.len() + issued.len()) as int),
            ..bus
        }),
    decreases issued.len(),
{
    if issued.len() > 0 {
        let next = bus.after_one(issued[0]);
        let at = bus.staged.len() as int;
        assert(next.staged =~= words.take(at + 1));
        assert forall|i: int| 0 <= i < issued.skip(1).len() implies #[trigger] issued.skip(1)[i]
            == Access::WriteTxData(
            (next.staged.len() + i) as usize,
            words[next.staged.len() + i],
        ) by {
            assert(issued.skip(1)[i] == issued[i + 1]);
        }
        lemma_stage_words(next, words, issued.skip(1));
    }
}

/// The commands, with `words` sent along with the last one.
pub open spec fn with_sent(commands: Seq<Command>, words: Seq<u32>) -> Seq<Command> {
    let last = commands.last();
    commands.drop_last().push(Command { sent: last.sent + words, ..last })
}

/// Filling the TX FIFO sends what goes in along with the last command, all of it at once.
proof fn lemma_fill_sent(bus: Bus, data: Seq<u8>, replies: Seq<Reply>)
    requires
        data.len() <= usize::MAX,
        bus.staged.len() == 0,
        bus.commands.len() > 0,
    ensures
        ({
            let run = fill_run(data, replies);
            let count = min(data.len() as int, watermark_bytes(replies[0]->TxWatermark_0));
            let sent = with_sent(bus.commands, pack(data.take(count)));
            let after = bus.after(run.issued);
            &&& after.commands == bus.commands || after.commands == sent
            &&& run.outcome is Some ==> run.outcome == Some(count) && after == (Bus {
                commands: sent,
                ..bus
            })
        }),
{
    let run = fill_run(data, replies);
    lemma_fill(data, replies);
    let count = min(data.len() as int, watermark_bytes(replies[0]->TxWatermark_0));
    let words = pack(data.take(count));
    let read = seq![run.issued[0]];
    assert(silent(read));
    lemma_after_silent(bus, read);
    assert(bus.staged =~= words.take(0));
    if run.issued.len() == words.len() + 2 {
        let write = run.issued.subrange(1, words.len() as int + 1);
        let send = seq![send_tx()];
        assert(run.issued =~= read + (write + send));
        lemma_after_both(bus, read, write + send);
        lemma_after_both(bus, write, send);
        assert forall|i: int| 0 <= i < write.len() implies #[trigger] write[i]
            == Access::WriteTxData(
            (bus.staged.len() + i) as usize,
            words[bus.staged.len() + i],
        ) by {
            assert(write[i] == run.issued[i + 1]);
        }
        lemma_stage_words(bus, words, write);
        assert(words.take(words.len() as int) =~= words);
        lemma_after_one(bus.after(write), send_tx());
        assert(bus.staged =~= Seq::empty());
    } else {
        let write = run.issued.skip(1);
        assert(run.issued =~= read + write);
        lemma_after_both(bus, read, write);
        assert forall|i: int| 0 <= i < write.len() implies #[trigger] write[i]
            == Access::WriteTxData(
            (bus.staged.len() + i) as usize,
            words[bus.staged.len() + i],
        ) by {
            assert(write[i] == run.issued[i + 1]);
        }
        lemma_stage_words(bus, words, write);
    }
}

/// What is sent in two parts.
proof fn lemma_with_sent_twice(commands: Seq<Command>, first: Seq<u32>, second: Seq<u32>)
    requires
        commands.len() > 0,
    ensures
        with_sent(with_sent(commands, first), second) == with_sent(commands, first + second),
{
    let sent = commands.last().sent;
    assert((sent + first) + second =~= sent + (first + second));
    assert(with_sent(commands, first).drop_last() =~= commands.drop_last());
}

/// Sending nothing.
proof fn lemma_with_sent_none(commands: Seq<Command>)
    requires
        commands.len() > 0,
    ensures
        with_sent(commands, Seq::empty()) == commands,
{
    let last = commands.last();
    assert(last.sent + Seq::empty() =~= last.sent);
    assert(with_sent(commands, Seq::empty()) =~= commands);
}

/// How the data of a page goes out, and what follows.
proof fn lemma_program_data_sent(bus: Bus, data: Seq<u8>, replies: Seq<Reply>) -> (sent: Seq<u32>)
    requires
        data.len() <= usize::MAX,
        bus.staged.len() == 0,
        bus.commands.len() > 0,
    ensures
        ({
            let run = program_data_run(data, replies);
            let after = bus.after(run.issued).commands;
            &&& sent.is_prefix_of(pack(data))
            &&& status_follows(with_sent(bus.commands, sent), after)
            &&& run.outcome == Some(Ok::<(), PageProgramError>(())) ==> {
                &&& sent == pack(data)
                &&& after.len() > bus.commands.len()
            }
        }),
    decreases replies.len(),
{
    reveal(program_data_run);
    let run = program_data_run(data, replies);
    lemma_with_sent_none(bus.commands);
    let none = Seq::<u32>::empty();
    if data.len() == 0 {
        let wait = wait_command_done_run(replies);
        assert(run == program_waited(wait));
        lemma_wait_command_done_silent(replies);
        lemma_after_silent(bus, wait.issued);
        assert(pack(data) =~= none);
        if wait.outcome is Some && wait.outcome->0 is Ok {
            let settle = settle_run(wait.rest);
            assert(run.issued =~= wait.issued + settle.issued);
            lemma_after_both(bus, wait.issued, settle.issued);
            lemma_settle_commands(bus, wait.rest);
        } else {
            assert(run.issued =~= wait.issued);
        }
        none
    } else {
        let wait = wait_tx_ready_run(replies);
        lemma_wait_tx_ready_orderly(replies);
        lemma_wait_tx_ready_silent(replies);
        lemma_after_silent(bus, wait.issued);
        if wait.outcome is Some && wait.outcome->0 is Ok {
            let fill = fill_run(data, wait.rest);
            let filled = program_filled(data, fill);
            assert(run == program_ready(data, wait));
            assert(run.issued =~= wait.issued + filled.issued);
            lemma_after_both(bus, wait.issued, filled.issued);
            lemma_fill_sent(bus, data, wait.rest);
            let count = min(data.len() as int, watermark_bytes(wait.rest[0]->TxWatermark_0));
            let first = data.take(count);
            let left = data.skip(count);
            assert(first + left =~= data);
            if count < data.len() {
                lemma_pack_parts(first, left);
            } else {
                assert(left =~= Seq::empty());
                assert(pack(left) =~= none);
                assert(first =~= data);
                assert(pack(first) + pack(left) =~= pack(data));
            }
            assert(pack(data) == pack(first) + pack(left));
            if fill.outcome is Some {
                lemma_fill_orderly(data, wait.rest);
                let next = program_data_run(left, fill.rest);
                assert(filled.issued == fill.issued + next.issued);
                lemma_after_both(bus, fill.issued, next.issued);
                let more = lemma_program_data_sent(bus.after(fill.issued), left, fill.rest);
                lemma_with_sent_twice(bus.commands, pack(first), more);
                pack(first) + more
            } else {
                assert(filled.issued == fill.issued);
                if bus.after(fill.issued).commands == bus.commands {
                    none
                } else {
                    pack(first)
                }
            }
        } else {
            assert(run.issued =~= wait.issued);
            none
        }
    }
}

/// The command that programs `data` at `address`, with `sent` sent along.
pub open spec fn program_command(address: u32, data: Seq<u8>, sent: Seq<u32>) -> Command {
    Command { sent, ..Command::of(page_program_sequence(address, data.len() as int)) }
}

/// Programming a page makes the flash memory receive what enables writing, and the command to
/// program only when that went well. That command is received at most once. The words sent along
/// with it are the start of the data, in order; they are all of the data, zero padded to whole
/// words, when programming has ended well. Then the status is read until the write has ended.
pub proof fn lemma_page_program_commands(
    address: u32,
    data: Seq<u8>,
    page_size: u32,
    replies: Seq<Reply>,
) -> (sent: Seq<u32>)
    requires
        data.len() <= usize::MAX,
        within_page(address, data.len() as int, page_size),
    ensures
        ({
            let enable = enable_write_run(replies);
            let run = page_program_run(address, data, page_size, replies);
            let prepared = commands_of(enable.issued);
            let commands = commands_of(run.issued);
            &&& preparation(prepared, WRITE_ENABLE_ATTEMPTS as int)
            &&& one_write(prepared, program_command(address, data, sent), commands)
            &&& sent.is_prefix_of(pack(data))
            &&& enable.outcome != Some(Ok::<(), WriteError>(())) ==> commands == prepared
            &&& run.outcome == Some(Ok::<(), PageProgramError>(())) ==> {
                &&& sent == pack(data)
                &&& commands.len() > prepared.len() + 1
            }
        }),
{
    let enable = enable_write_run(replies);
    let run = page_program_run(address, data, page_size, replies);
    lemma_enable_write_commands(replies);
    let none = Seq::<u32>::empty();
    if enable.outcome is Some && enable.outcome->0 is Ok {
        assert(enable.outcome->0->Ok_0 == ());
        let bus = Bus::fresh().after(enable.issued);
        let started = program_clear(address, data, enable.rest);
        lemma_after_both(Bus::fresh(), enable.issued, started.issued);
        let clear = seq![Access::ClearTxFifo];
        lemma_after_one(bus, Access::ClearTxFifo);
        let cleared = bus.after(clear);
        if enable.rest.len() == 0 {
            assert(started.issued =~= clear);
            none
        } else {
            let sequence = page_program_sequence(address, data.len() as int);
            let launch = launch_run(sequence, enable.rest.skip(1));
            let launched = program_launched(data, launch);
            assert(started.issued =~= clear + launched.issued);
            lemma_after_both(bus, clear, launched.issued);
            lemma_launch_command(cleared, sequence, enable.rest.skip(1));
            if launch.outcome is Some {
                let ready = cleared.after(launch.issued);
                let next = program_data_run(data, launch.rest);
                lemma_after_both(cleared, launch.issued, next.issued);
                let sent = lemma_program_data_sent(ready, data, launch.rest);
                let before = with_sent(ready.commands, sent);
                assert(none + sent =~= sent);
                assert(before =~= bus.commands.push(program_command(address, data, sent)));
                assert(bus.commands.is_prefix_of(before));
                let after = ready.after(next.issued).commands;
                assert(before[bus.commands.len() as int] == after[bus.commands.len() as int]);
                sent
            } else {
                none
            }
        }
    } else {
        assert(run.issued =~= enable.issued);
        none
    }
}

/// When programming a page has ended well, the flash memory has received the command to program,
/// and the words that came with it hold all of the data.
pub proof fn lemma_page_program_sent(
    address: u32,
    data: Seq<u8>,
    page_size: u32,
    replies: Seq<Reply>,
) -> (at: int)
    requires
        data.len() <= usize::MAX,
        page_program_run(address, data, page_size, replies).outcome == Some(
            Ok::<(), PageProgramError>(()),
        ),
    ensures
        ({
            let commands = commands_of(page_program_run(address, data, page_size, replies).issued);
            let sequence = page_program_sequence(address, data.len() as int);
            &&& 0 <= at < commands.len()
            &&& commands[at].control == sequence.control1()
            &&& commands[at].address == address
            &&& commands[at].sent.len() == word_count(data.len() as int)
            &&& unpack(commands[at].sent, data.len() as int) == data
        }),
{
    let sent = lemma_page_program_commands(address, data, page_size, replies);
    lemma_unpack_pack(data);
    commands_of(enable_write_run(replies).issued).len() as int
}

/// A write that would cross the boundary of a page is refused without any access.
pub proof fn lemma_page_program_refused(
    address: u32,
    data: Seq<u8>,
    page_size: u32,
    replies: Seq<Reply>,
)
    requires
        !within_page(address, data.len() as int, page_size),
    ensures
        ({
            let run = page_program_run(address, data, page_size, replies);
            &&& run.issued.len() == 0
            &&& run.outcome == Some(
                Err::<(), _>(
                    PageProgramError::PageBoundaryCrossed(
                        WriteCrossesPageBoundary { address, length: data.len() as u32, page_size },
                    ),
                ),
            )
        }),
{
}

/// A write lies within one page exactly when all its bytes are in the page that it starts in.
pub proof fn lemma_within_page(address: u32, length: int, page_size: u32)
    requires
        page_size > 0,
        length >= 0,
    ensures
        within_page(address, length, page_size) <==> forall|at: int|
            address <= at < address + length ==> #[trigger] page_of(at, page_size) == page_of(
                address as int,
                page_size,
            ),
{
    let start = address as int;
    let size = page_size as int;
    lemma_fundamental_div_mod(start, size);
    let page = start / size;
    let offset = start % size;
    if within_page(address, length, page_size) {
        assert forall|at: int| address <= at < address + length implies #[trigger] page_of(
            at,
            page_size,
        ) == page by {
            assert(at == page * size + (at - start + offset)) by (nonlinear_arith)
                requires
                    start == size * page + offset,
            ;
            lemma_fundamental_div_mod_converse(
                at,
                size,
                page,
                at - start + offset,
            );
        }
    } else {
        let at = start + (size - offset);
        lemma_mod_bound(start, size);
        assert(at == (page + 1) * size + 0) by (nonlinear_arith)
            requires
                start == size * page + offset,
                at == start + (size - offset),
        ;
        lemma_fundamental_div_mod_converse(at, size, page + 1, 0);
        assert(page_of(at, page_size) == page + 1);
    }
}

/// The page that an address is in.
pub open spec fn page_of(address: int, page_size: u32) -> int {
    address / page_size as int
}

} // verus!
