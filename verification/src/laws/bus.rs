//! Which commands the flash memory receives.

use crate::peripheral::cache::{invalidate_cache_run, invalidate_start_run, invalidate_wait_run};
use crate::peripheral::check::{check_ended_run, check_run};
use crate::peripheral::command::{
    launch_address, launch_clear, launch_control, launch_run, start_command_sequence_run,
};
use crate::peripheral::fifo::{
    drain_fill_run, drain_run, drain_words_run, min, watermark_bytes,
};
use crate::peripheral::wait::{
    lemma_poll_orderly, poll_run, wait_command_done_run, wait_rx_ready_run, wait_tx_ready_run,
};
use crate::peripheral::{CommandSequence, InvalidCommandSequence};
use crate::registers::{Access, IpControl1, Reply};
use crate::words::word_count;
use vstd::prelude::*;

verus! {

/// A command that the flash memory receives.
#[verifier::ext_equal]
pub struct Command {
    /// What `IPCR1` held when the command was started.
    pub control: IpControl1,
    /// The flash address that `IPCR0` held when the command was started.
    pub address: u32,
    /// The words that were sent along, in order.
    pub sent: Seq<u32>,
}

impl Command {
    /// The command that a command sequence stands for, with nothing sent along.
    pub open spec fn of(sequence: CommandSequence) -> Command {
        Command {
            control: sequence.control1(),
            address: sequence.address,
            sent: Seq::empty(),
        }
    }
}

/// The state of the peripheral that decides what the flash memory receives.
#[verifier::ext_equal]
pub struct Bus {
    /// The flash address in `IPCR0`.
    pub address: u32,
    /// The contents of `IPCR1`.
    pub control: IpControl1,
    /// The words in the TX FIFO that are not yet marked ready for sending.
    pub staged: Seq<u32>,
    /// The commands so far.
    pub commands: Seq<Command>,
}

impl Bus {
    /// A bus on which nothing has happened.
    pub open spec fn fresh() -> Bus {
        Bus {
            address: 0,
            control: IpControl1 { idatsz: 0, iseqid: 0, iseqnum: 0, iparen: false },
            staged: Seq::empty(),
            commands: Seq::empty(),
        }
    }

    /// The staged words, with `word` in the data register with the given index.
    pub open spec fn stage(self, index: int, word: u32) -> Seq<u32> {
        let len = self.staged.len();
        Seq::new(
            if index < len {
                len
            } else {
                (index + 1) as nat
            },
            |i: int|
                if i == index {
                    word
                } else if i < len {
                    self.staged[i]
                } else {
                    0
                },
        )
    }

    /// The commands, with the staged words sent along with the last one.
    pub open spec fn send(self) -> Seq<Command> {
        if self.commands.len() == 0 {
            self.commands
        } else {
            let last = self.commands.last();
            self.commands.drop_last().push(Command { sent: last.sent + self.staged, ..last })
        }
    }

    /// The bus after one access.
    pub open spec fn after_one(self, access: Access) -> Bus {
        match access {
            Access::WriteIpControl0(address) => Bus { address, ..self },
            Access::WriteIpControl1(control) => Bus { control, ..self },
            Access::TriggerCommand => Bus {
                commands: self.commands.push(
                    Command { control: self.control, address: self.address, sent: Seq::empty() },
                ),
                ..self
            },
            Access::ClearTxFifo => Bus { staged: Seq::empty(), ..self },
            Access::WriteTxData(index, word) => Bus {
                staged: self.stage(index as int, word),
                ..self
            },
            Access::ClearInterrupts(flags) => if flags.iptxwe {
                Bus { staged: Seq::empty(), commands: self.send(), ..self }
            } else {
                self
            },
            _ => self,
        }
    }

    /// The bus after a number of accesses.
    pub open spec fn after(self, issued: Seq<Access>) -> Bus
        decreases issued.len(),
    {
        if issued.len() == 0 {
            self
        } else {
            self.after_one(issued[0]).after(issued.skip(1))
        }
    }
}

/// The commands that the accesses make the flash memory receive.
pub open spec fn commands_of(issued: Seq<Access>) -> Seq<Command> {
    Bus::fresh().after(issued).commands
}

/// Whether no access bears on the bus, so that the flash memory receives nothing.
pub open spec fn silent(issued: Seq<Access>) -> bool {
    forall|i: int|
        0 <= i < issued.len() ==> {
            &&& !(#[trigger] issued[i] is WriteIpControl0)
            &&& !(issued[i] is WriteIpControl1)
            &&& !(issued[i] is TriggerCommand)
            &&& !(issued[i] is ClearTxFifo)
            &&& !(issued[i] is WriteTxData)
            &&& issued[i] matches Access::ClearInterrupts(flags) ==> !flags.iptxwe
        }
}

/// The bus after some accesses and then others.
pub proof fn lemma_after_both(bus: Bus, first: Seq<Access>, second: Seq<Access>)
    ensures
        bus.after(first + second) == bus.after(first).after(second),
    decreases first.len(),
{
    if first.len() == 0 {
        assert(first + second =~= second);
    } else {
        assert((first + second).skip(1) =~= first.skip(1) + second);
        lemma_after_both(bus.after_one(first[0]), first.skip(1), second);
    }
}

/// The bus after a single access.
pub proof fn lemma_after_one(bus: Bus, access: Access)
    ensures
        bus.after(seq![access]) == bus.after_one(access),
{
    reveal_with_fuel(Bus::after, 2);
    assert(seq![access].skip(1) =~= Seq::empty());
}

/// Nothing changes with accesses that do not bear on the bus.
pub proof fn lemma_after_silent(bus: Bus, issued: Seq<Access>)
    requires
        silent(issued),
    ensures
        bus.after(issued) == bus,
    decreases issued.len(),
{
    if issued.len() > 0 {
        assert(silent(seq![issued[0]])) by {
            assert(seq![issued[0]][0] == issued[0]);
        }
        assert(bus.after_one(issued[0]) == bus);
        assert forall|i: int| 0 <= i < issued.skip(1).len() implies #[trigger] issued.skip(1)[i]
            == issued[i + 1] by {}
        lemma_after_silent(bus, issued.skip(1));
    }
}

/// Checking for errors does not bear on the bus.
pub proof fn lemma_check_silent(replies: Seq<Reply>)
    ensures
        silent(check_run(replies).issued),
{
}

/// Checking the flags of a command that may have ended does not bear on the bus.
pub proof fn lemma_check_ended_silent(replies: Seq<Reply>)
    ensures
        silent(check_ended_run(replies).issued),
{
    reveal(check_ended_run);
    lemma_check_silent(replies);
}

/// Looking at the peripheral does not bear on the bus.
pub proof fn lemma_poll_silent(replies: Seq<Reply>)
    ensures
        silent(poll_run(replies).issued),
{
    lemma_check_ended_silent(replies.skip(1));
}

/// Waiting for the command to be done does not bear on the bus.
pub proof fn lemma_wait_command_done_silent(replies: Seq<Reply>)
    ensures
        silent(wait_command_done_run(replies).issued),
    decreases replies.len(),
{
    reveal(wait_command_done_run);
    lemma_poll_silent(replies);
    lemma_poll_orderly(replies);
    let poll = poll_run(replies);
    if poll.outcome is Some {
        lemma_wait_command_done_silent(poll.rest);
    }
}

/// Waiting for data does not bear on the bus.
pub proof fn lemma_wait_rx_ready_silent(replies: Seq<Reply>)
    ensures
        silent(wait_rx_ready_run(replies).issued),
    decreases replies.len(),
{
    reveal(wait_rx_ready_run);
    lemma_poll_silent(replies);
    lemma_poll_orderly(replies);
    let poll = poll_run(replies);
    if poll.outcome is Some {
        lemma_wait_rx_ready_silent(poll.rest);
    }
}

/// Waiting for room does not bear on the bus.
pub proof fn lemma_wait_tx_ready_silent(replies: Seq<Reply>)
    ensures
        silent(wait_tx_ready_run(replies).issued),
    decreases replies.len(),
{
    reveal(wait_tx_ready_run);
    lemma_poll_silent(replies);
    lemma_poll_orderly(replies);
    let poll = poll_run(replies);
    if poll.outcome is Some {
        lemma_wait_tx_ready_silent(poll.rest);
    }
}

proof fn lemma_drain_words_silent(
    buffer: Seq<u8>,
    start: int,
    count: int,
    words: Seq<u32>,
    replies: Seq<Reply>,
)
    ensures
        silent(drain_words_run(buffer, start, count, words, replies).issued),
    decreases word_count(count) - words.len(),
{
    reveal(drain_words_run);
    if words.len() < word_count(count) {
        lemma_drain_words_silent(
            buffer,
            start,
            count,
            words.push(replies[0]->RxData_0),
            replies.skip(1),
        );
    }
}

/// Draining the RX FIFO does not bear on the bus.
pub proof fn lemma_drain_silent(buffer: Seq<u8>, start: int, end: int, replies: Seq<Reply>)
    ensures
        silent(drain_run(buffer, start, end, replies).issued),
{
    let watermark = watermark_bytes(replies[0]->RxWatermark_0);
    let more = replies.skip(1);
    let fill = 8 * (more[0]->RxFill_0);
    let count = min(min(end - start, fill), watermark);
    lemma_drain_words_silent(buffer, start, count, Seq::empty(), more.skip(1));
    assert(silent(drain_fill_run(buffer, start, end, watermark, more).issued));
}

/// Invalidating the memory cache does not bear on the bus.
pub proof fn lemma_invalidate_silent(replies: Seq<Reply>)
    ensures
        silent(invalidate_cache_run(replies).issued),
        silent(invalidate_start_run(replies).issued),
        silent(invalidate_wait_run(replies).issued),
    decreases replies.len(),
{
    reveal(invalidate_cache_run);
    reveal(invalidate_start_run);
    reveal(invalidate_wait_run);
    if replies.len() > 0 {
        lemma_invalidate_silent(replies.skip(1));
    }
}

/// Starting a command sequence makes the flash memory receive that command, and no other. It is
/// received with the last access, when the address and everything else is in place.
pub proof fn lemma_launch_command(bus: Bus, sequence: CommandSequence, replies: Seq<Reply>)
    ensures
        ({
            let run = launch_run(sequence, replies);
            let after = bus.after(run.issued);
            &&& after.commands == bus.commands || after.commands == bus.commands.push(
                Command::of(sequence),
            )
            &&& run.outcome is Some ==> run.issued.last() == Access::TriggerCommand && after
                == (Bus {
                address: sequence.address,
                control: sequence.control1(),
                staged: bus.staged,
                commands: bus.commands.push(Command::of(sequence)),
            })
        }),
{
    let check = check_ended_run(replies);
    let run = launch_run(sequence, replies);
    lemma_check_ended_silent(replies);
    lemma_after_silent(bus, check.issued);
    if check.outcome is Some {
        let address = Access::WriteIpControl0(sequence.address);
        let control = Access::WriteIpControl1(sequence.control1());
        let trigger = Access::TriggerCommand;
        let (cleared, rest) = match check.outcome->0 {
            Ok(flags) => {
                let clear = Access::ClearInterrupts(flags.finished());
                assert(silent(seq![clear]));
                lemma_after_silent(bus, seq![clear]);
                (seq![clear], check.rest.skip(1))
            },
            Err(_) => (Seq::<Access>::empty(), check.rest),
        };
        if check.outcome->0 is Ok && check.rest.len() == 0 {
            assert(run.issued =~= check.issued + cleared);
            lemma_after_both(bus, check.issued, cleared);
        } else {
            let set = launch_address(sequence, rest);
            assert(run.issued =~= check.issued + (cleared + set.issued));
            lemma_after_both(bus, check.issued, cleared + set.issued);
            lemma_after_both(bus, cleared, set.issued);
            assert(bus.after(run.issued) == bus.after(set.issued));
            lemma_after_one(bus, address);
            let addressed = bus.after_one(address);
            if rest.len() == 0 {
                assert(set.issued =~= seq![address]);
            } else {
                let second = launch_control(sequence, rest.skip(1));
                assert(set.issued =~= seq![address] + second.issued);
                lemma_after_both(bus, seq![address], second.issued);
                lemma_after_one(addressed, control);
                let controlled = addressed.after_one(control);
                if rest.len() == 1 {
                    assert(second.issued =~= seq![control]);
                } else {
                    assert(second.issued =~= seq![control] + seq![trigger]);
                    lemma_after_both(addressed, seq![control], seq![trigger]);
                    lemma_after_one(controlled, trigger);
                    assert(run.issued.last() == trigger);
                }
            }
        }
    }
}

/// A command sequence that does not fall within the LUT is refused without any access. Any other
/// is started, whatever an earlier command left behind.
pub proof fn lemma_start_command(sequence: CommandSequence, replies: Seq<Reply>)
    ensures
        ({
            let run = start_command_sequence_run(sequence, replies);
            &&& !sequence.valid() ==> {
                &&& run.issued.len() == 0
                &&& run.outcome == Some(
                    Err::<(), _>(
                        InvalidCommandSequence { start: sequence.start, count: sequence.count },
                    ),
                )
            }
            &&& sequence.valid() ==> {
                &&& run.issued == launch_run(sequence, replies).issued
                &&& run.outcome matches Some(result) ==> result == Ok::<
                    (),
                    InvalidCommandSequence,
                >(())
            }
        }),
{
    let run = start_command_sequence_run(sequence, replies);
    if sequence.valid() {
        assert(run.issued =~= launch_run(sequence, replies).issued);
    }
}

/// No sequence to run means the same as one: both are refused, or both do the same.
pub proof fn lemma_count_zero_is_one(sequence: CommandSequence, replies: Seq<Reply>)
    requires
        sequence.count == 0,
    ensures
        sequence.valid() ==> start_command_sequence_run(sequence, replies)
            == start_command_sequence_run(CommandSequence { count: 1, ..sequence }, replies),
        sequence.valid() == (CommandSequence { count: 1, ..sequence }).valid(),
{
    let one = CommandSequence { count: 1, ..sequence };
    assert(sequence.control1() == one.control1());
    let check = check_ended_run(replies);
    if check.outcome is Some {
        let rests = match check.outcome->0 {
            Ok(_) => check.rest.skip(1),
            Err(_) => check.rest,
        };
        assert(launch_control(sequence, rests.skip(1)) == launch_control(one, rests.skip(1)));
        assert(launch_address(sequence, rests) == launch_address(one, rests));
        if let Ok(flags) = check.outcome->0 {
            assert(launch_clear(sequence, flags, check.rest) == launch_clear(
                one,
                flags,
                check.rest,
            ));
        }
    }
    assert(launch_run(sequence, replies) == launch_run(one, replies));
}

} // verus!
