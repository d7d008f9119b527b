//! What the flash memory delivers through the RX FIFO.

use crate::laws::fifos::{lemma_drain, lemma_overwrite, words_in};
use crate::peripheral::check::{
    check_ended_run, check_flags_run, check_run, lemma_check_ended_orderly, lemma_check_orderly,
};
use crate::peripheral::command::{launch_address, launch_run};
use crate::peripheral::fifo::{drain_run, min, overwrite, watermark_bytes};
use crate::peripheral::wait::{lemma_poll_orderly, poll_run, wait_rx_ready_run};
use crate::peripheral::CommandSequence;
use crate::registers::{Access, Reply};
use crate::words::{byte_of, unpack, word_count};
use vstd::prelude::*;

verus! {

/// The larger of two numbers.
pub open spec fn max(a: int, b: int) -> int {
    if a < b {
        b
    } else {
        a
    }
}

/// The state of the peripheral that decides what the RX FIFO delivers.
#[verifier::ext_equal]
pub struct Receiver {
    /// The flash address in `IPCR0`.
    pub next_address: u32,
    /// The data size in `IPCR1`.
    pub next_size: u16,
    /// The flash address of the command that runs.
    pub address: int,
    /// The amount of data that the command that runs reads.
    pub size: int,
    /// How many bytes of the command's data have been dropped from the FIFO.
    pub popped: int,
    /// How many bytes the flags have said that there are in the FIFO, at least.
    pub promised: int,
}

impl Receiver {
    /// The receiver after an access that got `reply`, with a watermark of `watermark` bytes.
    ///
    /// When the command is flagged done, the FIFO holds a watermark of its data, or all that was
    /// not dropped. When the watermark is flagged as reached, the FIFO holds that much.
    pub open spec fn after_one(self, watermark: int, access: Access, reply: Reply) -> Receiver {
        match access {
            Access::WriteIpControl0(address) => Receiver { next_address: address, ..self },
            Access::WriteIpControl1(control) => Receiver { next_size: control.idatsz, ..self },
            Access::TriggerCommand => Receiver {
                address: self.next_address as int,
                size: self.next_size as int,
                popped: 0,
                promised: 0,
                ..self
            },
            Access::ReadInterrupts => {
                let flags = reply.interrupts();
                let whole = if flags.ipcmddone {
                    min(watermark, self.size - self.popped)
                } else {
                    0
                };
                let reached = if flags.iprxwa {
                    watermark
                } else {
                    0
                };
                Receiver { promised: max(self.promised, max(whole, reached)), ..self }
            },
            Access::ClearInterrupts(flags) => if flags.iprxwa {
                Receiver {
                    popped: self.popped + watermark,
                    promised: max(0, self.promised - watermark),
                    ..self
                }
            } else {
                self
            },
            Access::ClearRxFifo => Receiver { promised: 0, ..self },
            _ => self,
        }
    }

    /// Whether `reply` is true: the watermark is the one that is set, the FIFO holds what was
    /// promised, and its words are the contents of the flash memory as far as that goes.
    pub open spec fn true_one(
        self,
        contents: spec_fn(int) -> u8,
        watermark: int,
        access: Access,
        reply: Reply,
    ) -> bool {
        match access {
            Access::ReadRxWatermark => 8 * (reply->RxWatermark_0 + 1) == watermark,
            Access::ReadRxFill => 8 * (reply->RxFill_0) >= self.promised,
            Access::ReadRxData(index) => forall|i: int|
                0 <= i < 4 && 4 * index + i < self.promised && self.popped + 4 * index + i
                    < self.size ==> #[trigger] byte_of(reply->RxData_0, i) == contents(
                    self.address + self.popped + 4 * index + i,
                ),
            _ => true,
        }
    }

    /// The receiver after a number of accesses.
    pub open spec fn after(
        self,
        watermark: int,
        issued: Seq<Access>,
        replies: Seq<Reply>,
    ) -> Receiver
        decreases issued.len(),
    {
        if issued.len() == 0 {
            self
        } else {
            self.after_one(watermark, issued[0], replies[0]).after(
                watermark,
                issued.skip(1),
                replies.skip(1),
            )
        }
    }

    /// Whether all replies to a number of accesses are true.
    pub open spec fn all_true(
        self,
        contents: spec_fn(int) -> u8,
        watermark: int,
        issued: Seq<Access>,
        replies: Seq<Reply>,
    ) -> bool
        decreases issued.len(),
    {
        issued.len() > 0 ==> {
            &&& self.true_one(contents, watermark, issued[0], replies[0])
            &&& self.after_one(watermark, issued[0], replies[0]).all_true(
                contents,
                watermark,
                issued.skip(1),
                replies.skip(1),
            )
        }
    }
}

/// The receiver after some accesses and then others.
pub proof fn lemma_after_both(
    receiver: Receiver,
    contents: spec_fn(int) -> u8,
    watermark: int,
    first: Seq<Access>,
    second: Seq<Access>,
    replies: Seq<Reply>,
)
    requires
        first.len() <= replies.len(),
    ensures
        ({
            let middle = receiver.after(watermark, first, replies);
            let rest = replies.skip(first.len() as int);
            &&& receiver.after(watermark, first + second, replies) == middle.after(
                watermark,
                second,
                rest,
            )
            &&& receiver.all_true(contents, watermark, first + second, replies) <==> {
                &&& receiver.all_true(contents, watermark, first, replies)
                &&& middle.all_true(contents, watermark, second, rest)
            }
        }),
    decreases first.len(),
{
    if first.len() == 0 {
        assert(first + second =~= second);
        assert(replies.skip(0) =~= replies);
    } else {
        assert((first + second).skip(1) =~= first.skip(1) + second);
        assert(replies.skip(1).skip(first.len() - 1) =~= replies.skip(first.len() as int));
        lemma_after_both(
            receiver.after_one(watermark, first[0], replies[0]),
            contents,
            watermark,
            first.skip(1),
            second,
            replies.skip(1),
        );
    }
}

/// The receiver after one access and then others.
pub proof fn lemma_after_first(
    receiver: Receiver,
    contents: spec_fn(int) -> u8,
    watermark: int,
    access: Access,
    more: Seq<Access>,
    replies: Seq<Reply>,
)
    ensures
        ({
            let issued = seq![access] + more;
            let middle = receiver.after_one(watermark, access, replies[0]);
            &&& receiver.after(watermark, issued, replies) == middle.after(
                watermark,
                more,
                replies.skip(1),
            )
            &&& receiver.all_true(contents, watermark, issued, replies) <==> {
                &&& receiver.true_one(contents, watermark, access, replies[0])
                &&& middle.all_true(contents, watermark, more, replies.skip(1))
            }
        }),
{
    assert((seq![access] + more).skip(1) =~= more);
}

/// Whether nothing has happened between `before` and `after` but that more was promised.
pub open spec fn same_but_promised(before: Receiver, after: Receiver) -> bool {
    &&& after == (Receiver { promised: after.promised, ..before })
    &&& after.promised >= before.promised
}

/// Checking for errors may promise more. When the flags show no error, they are what it promises.
proof fn lemma_check_promises(receiver: Receiver, watermark: int, replies: Seq<Reply>)
    requires
        check_run(replies).outcome is Some,
    ensures
        ({
            let run = check_run(replies);
            let after = receiver.after(watermark, run.issued, replies);
            &&& same_but_promised(receiver, after)
            &&& run.outcome->0 matches Ok(flags) ==> {
                &&& flags.ipcmddone ==> after.promised >= min(
                    watermark,
                    receiver.size - receiver.popped,
                )
                &&& flags.iprxwa ==> after.promised >= watermark
            }
        }),
{
    reveal_with_fuel(Receiver::after, 4);
    let run = check_run(replies);
    let flags = replies[0].interrupts();
    let checked = check_flags_run(flags, replies.skip(1));
    let read = receiver.after_one(watermark, Access::ReadInterrupts, replies[0]);
    lemma_after_first(
        receiver,
        |at: int| 0u8,
        watermark,
        Access::ReadInterrupts,
        checked.issued,
        replies,
    );
    assert(run.issued == seq![Access::ReadInterrupts] + checked.issued);
    let clear = Access::ClearInterrupts(flags.errors());
    if flags.ipcmderr {
        assert(checked.issued =~= seq![Access::ReadStatus1, clear]);
        assert(checked.issued.skip(1) =~= seq![clear]);
        assert(seq![clear].skip(1) =~= Seq::empty());
    } else if flags.failed() {
        assert(checked.issued =~= seq![clear]);
        assert(seq![clear].skip(1) =~= Seq::empty());
    } else {
        assert(checked.issued =~= Seq::empty());
    }
}

/// Checking the flags of a command that may have ended promises no more than the flags do.
proof fn lemma_check_ended_promises(receiver: Receiver, watermark: int, replies: Seq<Reply>)
    requires
        check_ended_run(replies).outcome is Some,
    ensures
        ({
            let run = check_ended_run(replies);
            let after = receiver.after(watermark, run.issued, replies);
            &&& same_but_promised(receiver, after)
            &&& run.outcome->0 matches Ok(flags) ==> {
                &&& flags.ipcmddone ==> after.promised >= min(
                    watermark,
                    receiver.size - receiver.popped,
                )
                &&& flags.iprxwa ==> after.promised >= watermark
            }
        }),
{
    reveal(check_ended_run);
    let nothing = |at: int| 0u8;
    let run = check_ended_run(replies);
    let check = check_run(replies);
    let flags = replies[0].interrupts();
    lemma_check_orderly(replies);
    lemma_check_promises(receiver, watermark, replies);
    if check.outcome->0 is Err && flags.ipcmddone {
        let clear = Access::ClearInterrupts(flags.done());
        let more = seq![clear] + Seq::<Access>::empty();
        let middle = receiver.after(watermark, check.issued, replies);
        assert(run.issued =~= check.issued + more);
        lemma_after_both(receiver, nothing, watermark, check.issued, more, replies);
        lemma_after_first(middle, nothing, watermark, clear, Seq::empty(), check.rest);
    } else {
        assert(run.issued =~= check.issued);
    }
}

/// Looking at the peripheral once may promise more.
proof fn lemma_poll_promises(receiver: Receiver, watermark: int, replies: Seq<Reply>)
    requires
        poll_run(replies).outcome is Some,
    ensures
        ({
            let run = poll_run(replies);
            let after = receiver.after(watermark, run.issued, replies);
            &&& same_but_promised(receiver, after)
            &&& run.outcome->0 matches Ok((_, flags)) ==> {
                &&& flags.ipcmddone ==> after.promised >= min(
                    watermark,
                    receiver.size - receiver.popped,
                )
                &&& flags.iprxwa ==> after.promised >= watermark
            }
        }),
{
    let run = poll_run(replies);
    let check = check_ended_run(replies.skip(1));
    lemma_check_ended_promises(receiver, watermark, replies.skip(1));
    assert(run.issued =~= seq![Access::ReadStatus0] + check.issued);
    lemma_after_first(
        receiver,
        |at: int| 0u8,
        watermark,
        Access::ReadStatus0,
        check.issued,
        replies,
    );
}

/// After waiting for data without an error, the FIFO holds a watermark of data, or all that is
/// left of the command.
pub proof fn lemma_wait_rx_ready_promises(receiver: Receiver, watermark: int, replies: Seq<Reply>)
    requires
        wait_rx_ready_run(replies).outcome is Some,
    ensures
        ({
            let run = wait_rx_ready_run(replies);
            let after = receiver.after(watermark, run.issued, replies);
            &&& same_but_promised(receiver, after)
            &&& run.outcome->0 is Ok ==> after.promised >= min(
                watermark,
                receiver.size - receiver.popped,
            )
        }),
    decreases replies.len(),
{
    reveal(wait_rx_ready_run);
    let run = wait_rx_ready_run(replies);
    let poll = poll_run(replies);
    lemma_poll_orderly(replies);
    lemma_poll_promises(receiver, watermark, replies);
    if let Ok((idle, flags)) = poll.outcome->0 {
        if flags.ipcmddone || flags.iprxwa || idle {
            assert(run.issued =~= poll.issued);
        } else {
            let more = wait_rx_ready_run(poll.rest);
            let middle = receiver.after(watermark, poll.issued, replies);
            assert(run.issued =~= poll.issued + more.issued);
            lemma_after_both(
                receiver,
                |at: int| 0u8,
                watermark,
                poll.issued,
                more.issued,
                replies,
            );
            lemma_wait_rx_ready_promises(middle, watermark, poll.rest);
        }
    } else {
        assert(run.issued =~= poll.issued);
    }
}

/// After a command was started, it is the one that runs, and none of its data was dropped.
pub proof fn lemma_launch_receives(
    receiver: Receiver,
    watermark: int,
    sequence: CommandSequence,
    replies: Seq<Reply>,
)
    requires
        launch_run(sequence, replies).outcome is Some,
    ensures
        receiver.after(watermark, launch_run(sequence, replies).issued, replies) == (Receiver {
            next_address: sequence.address,
            next_size: sequence.data_size,
            address: sequence.address as int,
            size: sequence.data_size as int,
            popped: 0,
            promised: 0,
        }),
{
    let nothing = |at: int| 0u8;
    let run = launch_run(sequence, replies);
    let check = check_ended_run(replies);
    lemma_check_ended_orderly(replies);
    lemma_check_ended_promises(receiver, watermark, replies);
    let checked = receiver.after(watermark, check.issued, replies);
    let address = Access::WriteIpControl0(sequence.address);
    let control = Access::WriteIpControl1(sequence.control1());
    let trigger = Access::TriggerCommand;
    let last = seq![address] + (seq![control] + (seq![trigger] + Seq::<Access>::empty()));
    let (cleared, rest) = match check.outcome->0 {
        Ok(flags) => (
            seq![Access::ClearInterrupts(flags.finished())],
            check.rest.skip(1),
        ),
        Err(_) => (Seq::<Access>::empty(), check.rest),
    };
    assert(launch_address(sequence, rest).issued =~= last);
    assert(run.issued =~= check.issued + (cleared + last));
    lemma_after_both(receiver, nothing, watermark, check.issued, cleared + last, replies);
    if let Ok(flags) = check.outcome->0 {
        lemma_after_first(checked, nothing, watermark, cleared[0], last, check.rest);
    } else {
        assert(cleared + last =~= last);
    }
    let addressed = checked.after_one(watermark, address, rest[0]);
    let controlled = addressed.after_one(watermark, control, rest.skip(1)[0]);
    let triggered = controlled.after_one(watermark, trigger, rest.skip(1).skip(1)[0]);
    let end = seq![trigger] + Seq::<Access>::empty();
    lemma_after_first(checked, nothing, watermark, address, seq![control] + end, rest);
    lemma_after_first(addressed, nothing, watermark, control, end, rest.skip(1));
    lemma_after_first(
        controlled,
        nothing,
        watermark,
        trigger,
        Seq::empty(),
        rest.skip(1).skip(1),
    );
}

/// Reading the data registers changes nothing, and delivers the contents of the flash memory.
proof fn lemma_words_received(
    receiver: Receiver,
    contents: spec_fn(int) -> u8,
    watermark: int,
    from: int,
    issued: Seq<Access>,
    replies: Seq<Reply>,
)
    requires
        0 <= from,
        from + issued.len() <= usize::MAX,
        issued.len() <= replies.len(),
        forall|i: int|
            0 <= i < issued.len() ==> #[trigger] issued[i] == Access::ReadRxData(
                (from + i) as usize,
            ),
        receiver.all_true(contents, watermark, issued, replies),
    ensures
        receiver.after(watermark, issued, replies) == receiver,
        forall|i: int|
            0 <= i < issued.len() ==> receiver.true_one(
                contents,
                watermark,
                Access::ReadRxData((from + i) as usize),
                #[trigger] replies[i],
            ),
    decreases issued.len(),
{
    if issued.len() > 0 {
        let more = issued.skip(1);
        assert forall|i: int| 0 <= i < more.len() implies #[trigger] more[i] == Access::ReadRxData(
            (from + 1 + i) as usize,
        ) by {
            assert(more[i] == issued[i + 1]);
        }
        lemma_words_received(receiver, contents, watermark, from + 1, more, replies.skip(1));
        assert forall|i: int| 0 <= i < issued.len() implies receiver.true_one(
            contents,
            watermark,
            Access::ReadRxData((from + i) as usize),
            #[trigger] replies[i],
        ) by {
            if i > 0 {
                assert(replies.skip(1)[i - 1] == replies[i]);
            }
        }
    }
}

/// Draining a FIFO that holds a watermark of data, or all that is left of the command, fills the
/// buffer with the contents of the flash memory. It goes up to the watermark, or as far as the
/// command does.
pub proof fn lemma_drain_receives(
    receiver: Receiver,
    contents: spec_fn(int) -> u8,
    watermark: int,
    buffer: Seq<u8>,
    start: int,
    end: int,
    replies: Seq<Reply>,
)
    requires
        0 <= start <= end <= buffer.len() <= usize::MAX,
        end - start == receiver.size - receiver.popped,
        receiver.promised >= min(watermark, end - start),
        watermark > 0,
        drain_run(buffer, start, end, replies).outcome is Some,
        receiver.all_true(
            contents,
            watermark,
            drain_run(buffer, start, end, replies).issued,
            replies,
        ),
    ensures
        ({
            let run = drain_run(buffer, start, end, replies);
            let after = receiver.after(watermark, run.issued, replies);
            let (filled, count) = run.outcome->0;
            &&& count == min(watermark, end - start)
            &&& filled.len() == buffer.len()
            &&& forall|i: int| 0 <= i < start ==> #[trigger] filled[i] == buffer[i]
            &&& forall|i: int|
                start <= i < start + count ==> #[trigger] filled[i] == contents(
                    receiver.address + receiver.popped + (i - start),
                )
            &&& after == (Receiver {
                popped: receiver.popped + watermark,
                promised: after.promised,
                ..receiver
            })
        }),
{
    let run = drain_run(buffer, start, end, replies);
    lemma_drain(buffer, start, end, replies);
    let fill = 8 * (replies[1]->RxFill_0);
    let mark = watermark_bytes(replies[0]->RxWatermark_0);
    let count = min(min(end - start, fill), mark);
    let words = words_in(replies.skip(2), word_count(count));
    let reads = run.issued.subrange(2, words.len() as int + 2);
    let pop = run.issued.last();
    let tail = seq![pop] + Seq::<Access>::empty();
    let rest = replies.skip(1).skip(1);
    assert(run.issued =~= seq![Access::ReadRxWatermark] + (seq![Access::ReadRxFill] + (reads
        + tail)));
    assert(rest =~= replies.skip(2));
    lemma_after_first(
        receiver,
        contents,
        watermark,
        Access::ReadRxWatermark,
        seq![Access::ReadRxFill] + (reads + tail),
        replies,
    );
    lemma_after_first(
        receiver,
        contents,
        watermark,
        Access::ReadRxFill,
        reads + tail,
        replies.skip(1),
    );
    lemma_after_both(receiver, contents, watermark, reads, tail, rest);
    assert(mark == watermark);
    assert(count == min(watermark, end - start));
    assert forall|i: int| 0 <= i < reads.len() implies #[trigger] reads[i] == Access::ReadRxData(
        (0 + i) as usize,
    ) by {
        assert(reads[i] == run.issued[i + 2]);
    }
    lemma_words_received(receiver, contents, watermark, 0, reads, rest);
    lemma_after_first(
        receiver,
        contents,
        watermark,
        pop,
        Seq::empty(),
        rest.skip(reads.len() as int),
    );
    let bytes = unpack(words, count);
    let filled = overwrite(buffer, start, bytes);
    lemma_overwrite(buffer, start, bytes);
    assert forall|i: int| start <= i < start + count implies #[trigger] filled[i] == contents(
        receiver.address + receiver.popped + (i - start),
    ) by {
        let at = i - start;
        assert(filled.subrange(start, start + count)[at] == bytes[at]);
        let word = at / 4;
        assert(words[word] == rest[word]->RxData_0);
        assert(receiver.true_one(
            contents,
            watermark,
            Access::ReadRxData((0 + word) as usize),
            rest[word],
        ));
        assert(bytes[at] == byte_of(words[word], at % 4));
    }
}

} // verus!
