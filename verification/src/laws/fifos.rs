//! What the driver does to the FIFOs.

use crate::nor_flash::configure::{configure_run, WATERMARK};
use crate::peripheral::fifo::{
    drain_fill_run, drain_run, drain_words_run, fill_run, fill_words_run, min, overwrite,
    watermark_bytes,
};
use crate::peripheral::settings::{
    level_bytes_run, level_words_run, watermark_field, write_run, Level,
};
use crate::registers::{Access, Interrupts, Reply};
use crate::words::{pack, unpack, word_count};
use vstd::prelude::*;

verus! {

/// The access that drops a watermark of data from the RX FIFO.
pub open spec fn pop_rx() -> Access {
    Access::ClearInterrupts(Interrupts { iprxwa: true, ..Interrupts::none() })
}

/// The access that marks what is in the TX FIFO ready for sending.
pub open spec fn send_tx() -> Access {
    Access::ClearInterrupts(Interrupts { iptxwe: true, ..Interrupts::none() })
}

/// A watermark that was set is the watermark that is read, if the field of the register holds
/// what was written to it. A watermark of zero is set as one.
pub proof fn lemma_watermark_read_back(words: u8)
    ensures
        ({
            let level = if words == 0 {
                1int
            } else {
                words as int
            };
            let field = watermark_field(words);
            &&& write_run(Access::SetTxWatermark(field), Seq::empty()).issued
                == seq![Access::SetTxWatermark(field)]
            &&& write_run(Access::SetRxWatermark(field), Seq::empty()).issued
                == seq![Access::SetRxWatermark(field)]
            &&& level_words_run(Level::TxWatermark, seq![Reply::TxWatermark(field)]).outcome
                == Some(level)
            &&& level_words_run(Level::RxWatermark, seq![Reply::RxWatermark(field)]).outcome
                == Some(level)
        }),
{
}

/// A level in bytes is the level in words of 64 bits, at eight bytes each.
pub proof fn lemma_level_bytes(level: Level, replies: Seq<Reply>)
    ensures
        ({
            let bytes = level_bytes_run(level, replies);
            let words = level_words_run(level, replies);
            &&& bytes.issued == words.issued
            &&& bytes.rest == words.rest
            &&& bytes.outcome == match words.outcome {
                Some(count) => Some(8 * count),
                None => None,
            }
        }),
{
}

/// The setup of the flash driver sets both watermarks to their highest level, the size of the
/// FIFOs, and does nothing else.
pub proof fn lemma_configure(replies: Seq<Reply>)
    requires
        replies.len() >= 2,
    ensures
        configure_run(replies).issued == seq![
            Access::SetRxWatermark(watermark_field(WATERMARK)),
            Access::SetTxWatermark(watermark_field(WATERMARK)),
        ],
        configure_run(replies).outcome == Some(()),
        watermark_bytes(watermark_field(WATERMARK)) == 128,
{
    assert(configure_run(replies).issued =~= seq![
        Access::SetRxWatermark(watermark_field(WATERMARK)),
        Access::SetTxWatermark(watermark_field(WATERMARK)),
    ]);
}

/// How `fill_words_run` goes on from `index`: the words in order, and then the mark, as far as the
/// replies go.
proof fn lemma_fill_words(words: Seq<u32>, index: int, count: int, replies: Seq<Reply>)
    requires
        0 <= index <= words.len() <= usize::MAX,
    ensures
        ({
            let run = fill_words_run(words, index, count, replies);
            let left = words.len() - index;
            &&& run.outcome == if replies.len() > left {
                Some(count)
            } else {
                None
            }
            &&& run.issued.len() == min(replies.len() as int, left) + 1
            &&& forall|i: int|
                index <= i < words.len() && i - index < run.issued.len()
                    ==> #[trigger] run.issued[i - index] == Access::WriteTxData(
                    i as usize,
                    words[i],
                )
            &&& run.issued.len() == left + 1 ==> run.issued.last() == send_tx()
        }),
    decreases words.len() - index,
{
    reveal(fill_words_run);
    let run = fill_words_run(words, index, count, replies);
    if index < words.len() && replies.len() > 0 {
        let next = fill_words_run(words, index + 1, count, replies.skip(1));
        lemma_fill_words(words, index + 1, count, replies.skip(1));
        assert(run.issued == seq![Access::WriteTxData(index as usize, words[index])]
            + next.issued);
        assert forall|i: int|
            index <= i < words.len() && i - index
                < run.issued.len() implies #[trigger] run.issued[i - index] == Access::WriteTxData(
            i as usize,
            words[i],
        ) by {
            if i > index {
                assert(run.issued[i - index] == next.issued[i - (index + 1)]);
            }
        }
    }
}

/// Filling the TX FIFO puts in the start of the data, up to the watermark, packed into words from
/// the first data register on, and then marks it ready for sending. The outcome is the number of
/// bytes that went in. With fewer replies the accesses are the start of these.
pub proof fn lemma_fill(data: Seq<u8>, replies: Seq<Reply>)
    requires
        data.len() <= usize::MAX,
    ensures
        ({
            let run = fill_run(data, replies);
            let count = min(data.len() as int, watermark_bytes(replies[0]->TxWatermark_0));
            let words = pack(data.take(count));
            &&& run.outcome == if replies.len() >= words.len() + 2 {
                Some(count)
            } else {
                None
            }
            &&& run.issued.len() == min(replies.len() as int, words.len() as int + 1) + 1
            &&& run.issued[0] == Access::ReadTxWatermark
            &&& forall|i: int|
                0 <= i < words.len() && i + 1 < run.issued.len() ==> #[trigger] run.issued[i + 1]
                    == Access::WriteTxData(i as usize, words[i])
            &&& run.issued.len() == words.len() + 2 ==> run.issued.last() == send_tx()
        }),
{
    let run = fill_run(data, replies);
    let count = min(data.len() as int, watermark_bytes(replies[0]->TxWatermark_0));
    let words = pack(data.take(count));
    if replies.len() > 0 {
        let next = fill_words_run(words, 0, count, replies.skip(1));
        lemma_fill_words(words, 0, count, replies.skip(1));
        assert(run.issued == seq![Access::ReadTxWatermark] + next.issued);
        assert forall|i: int|
            0 <= i < words.len() && i + 1 < run.issued.len() implies #[trigger] run.issued[i + 1]
            == Access::WriteTxData(i as usize, words[i]) by {
            assert(next.issued[i - 0] == run.issued[i + 1]);
        }
    }
}

/// The words that the first `count` replies deliver.
pub open spec fn words_in(replies: Seq<Reply>, count: int) -> Seq<u32> {
    Seq::new(count as nat, |i: int| replies[i]->RxData_0)
}

/// How `drain_words_run` goes on where `words` have been read: the rest of the words in order,
/// and then the pop.
proof fn lemma_drain_words(
    buffer: Seq<u8>,
    start: int,
    count: int,
    words: Seq<u32>,
    replies: Seq<Reply>,
)
    requires
        words.len() <= word_count(count) <= usize::MAX,
    ensures
        ({
            let run = drain_words_run(buffer, start, count, words, replies);
            let left = word_count(count) - words.len();
            let all = words + words_in(replies, left);
            &&& run.outcome is Some <==> replies.len() > left
            &&& run.outcome is Some ==> {
                &&& run.outcome == Some((overwrite(buffer, start, unpack(all, count)), count))
                &&& run.issued.len() == left + 1
                &&& run.issued.last() == pop_rx()
                &&& forall|i: int|
                    0 <= i < left ==> #[trigger] run.issued[i] == Access::ReadRxData(
                        (words.len() + i) as usize,
                    )
            }
        }),
    decreases word_count(count) - words.len(),
{
    reveal(drain_words_run);
    let run = drain_words_run(buffer, start, count, words, replies);
    let left = word_count(count) - words.len();
    let all = words + words_in(replies, left);
    if left > 0 && replies.len() > 0 {
        let more = words.push(replies[0]->RxData_0);
        let next = drain_words_run(buffer, start, count, more, replies.skip(1));
        lemma_drain_words(buffer, start, count, more, replies.skip(1));
        if run.outcome is Some {
            assert(more + words_in(replies.skip(1), left - 1) =~= all);
        }
        assert(run.issued == seq![Access::ReadRxData(words.len() as usize)] + next.issued);
        assert forall|i: int| 0 <= i < left && run.outcome is Some implies #[trigger] run.issued[i]
            == Access::ReadRxData((words.len() + i) as usize) by {
            if i > 0 {
                assert(run.issued[i] == next.issued[i - 1]);
            }
        }
    } else if left == 0 {
        assert(all =~= words);
    }
}

/// Draining the RX FIFO moves as many bytes as the FIFO holds, but no more than the watermark and
/// no more than there is room for. They are the bytes of the words that the data registers
/// deliver, from the first on. Every other byte of the buffer stays as it is. The last access, and
/// no other, drops a watermark of data from the FIFO.
pub proof fn lemma_drain(buffer: Seq<u8>, start: int, end: int, replies: Seq<Reply>)
    requires
        0 <= start <= end <= buffer.len() <= usize::MAX,
    ensures
        ({
            let run = drain_run(buffer, start, end, replies);
            let watermark = watermark_bytes(replies[0]->RxWatermark_0);
            let fill = 8 * (replies[1]->RxFill_0);
            let count = min(min(end - start, fill), watermark);
            let words = words_in(replies.skip(2), word_count(count));
            &&& run.outcome is Some <==> replies.len() >= words.len() + 3
            &&& run.outcome is Some ==> {
                &&& run.outcome == Some((overwrite(buffer, start, unpack(words, count)), count))
                &&& run.issued.len() == words.len() + 3
                &&& run.issued[0] == Access::ReadRxWatermark
                &&& run.issued[1] == Access::ReadRxFill
                &&& forall|i: int|
                    0 <= i < words.len() ==> #[trigger] run.issued[i + 2] == Access::ReadRxData(
                        i as usize,
                    )
                &&& run.issued.last() == pop_rx()
            }
        }),
{
    let run = drain_run(buffer, start, end, replies);
    let watermark = watermark_bytes(replies[0]->RxWatermark_0);
    let fill = 8 * (replies[1]->RxFill_0);
    let count = min(min(end - start, fill), watermark);
    let words = words_in(replies.skip(2), word_count(count));
    let second = drain_fill_run(buffer, start, end, watermark, replies.skip(1));
    let third = drain_words_run(buffer, start, count, Seq::empty(), replies.skip(2));
    if replies.len() >= 2 {
        assert(replies.skip(1).skip(1) =~= replies.skip(2));
        lemma_drain_words(buffer, start, count, Seq::empty(), replies.skip(2));
        assert(Seq::<u32>::empty() + words =~= words);
        assert(second.issued == seq![Access::ReadRxFill] + third.issued);
        assert(run.issued == seq![Access::ReadRxWatermark] + second.issued);
        assert forall|i: int|
            0 <= i < words.len() && run.outcome is Some implies #[trigger] run.issued[i + 2]
            == Access::ReadRxData(i as usize) by {
            assert(run.issued[i + 2] == third.issued[i]);
        }
    }
}

/// Putting bytes into a buffer keeps its size and everything around them.
pub proof fn lemma_overwrite(buffer: Seq<u8>, at: int, bytes: Seq<u8>)
    requires
        0 <= at,
        at + bytes.len() <= buffer.len(),
    ensures
        overwrite(buffer, at, bytes).len() == buffer.len(),
        overwrite(buffer, at, bytes).subrange(at, at + bytes.len()) == bytes,
        forall|i: int|
            0 <= i < buffer.len() && !(at <= i < at + bytes.len()) ==> #[trigger] overwrite(
                buffer,
                at,
                bytes,
            )[i] == buffer[i],
{
    assert(overwrite(buffer, at, bytes).subrange(at, at + bytes.len()) =~= bytes);
}

/// With a watermark of at most the size of the FIFOs, filling the TX FIFO does not go beyond the 32
/// data registers that it has.
pub proof fn lemma_fill_registers(data: Seq<u8>, replies: Seq<Reply>)
    requires
        data.len() <= usize::MAX,
        replies.len() > 0 ==> replies[0]->TxWatermark_0 < WATERMARK,
    ensures
        forall|i: int|
            0 <= i < fill_run(data, replies).issued.len() ==> (#[trigger] fill_run(
                data,
                replies,
            ).issued[i] matches Access::WriteTxData(index, _) ==> index < 32),
{
    let issued = fill_run(data, replies).issued;
    let count = min(data.len() as int, watermark_bytes(replies[0]->TxWatermark_0));
    let words = pack(data.take(count));
    lemma_fill(data, replies);
    assert forall|i: int| 0 <= i < issued.len() implies (#[trigger] issued[i] matches
        Access::WriteTxData(index, _) ==> index < 32) by {
        if 0 < i <= words.len() {
            let at = i - 1;
            assert(issued[at + 1] == Access::WriteTxData(at as usize, words[at]));
        }
    }
}

proof fn lemma_drain_words_registers(
    buffer: Seq<u8>,
    start: int,
    count: int,
    words: Seq<u32>,
    replies: Seq<Reply>,
)
    requires
        word_count(count) <= 32,
    ensures
        ({
            let issued = drain_words_run(buffer, start, count, words, replies).issued;
            forall|i: int|
                0 <= i < issued.len() ==> (#[trigger] issued[i] matches Access::ReadRxData(index)
                    ==> index < 32)
        }),
    decreases word_count(count) - words.len(),
{
    reveal(drain_words_run);
    if words.len() < word_count(count) {
        lemma_drain_words_registers(
            buffer,
            start,
            count,
            words.push(replies[0]->RxData_0),
            replies.skip(1),
        );
    }
}

/// With a watermark of at most the size of the FIFOs, draining the RX FIFO does not go beyond the
/// 32 data registers that it has.
pub proof fn lemma_drain_registers(buffer: Seq<u8>, start: int, end: int, replies: Seq<Reply>)
    requires
        replies.len() > 0 ==> replies[0]->RxWatermark_0 < WATERMARK,
    ensures
        forall|i: int|
            0 <= i < drain_run(buffer, start, end, replies).issued.len() ==> (
            #[trigger] drain_run(buffer, start, end, replies).issued[i] matches
                Access::ReadRxData(index) ==> index < 32),
{
    if replies.len() > 0 {
        let watermark = watermark_bytes(replies[0]->RxWatermark_0);
        let more = replies.skip(1);
        let fill = 8 * (more[0]->RxFill_0);
        let count = min(min(end - start, fill), watermark);
        lemma_drain_words_registers(buffer, start, count, Seq::empty(), more.skip(1));
        let second = drain_fill_run(buffer, start, end, watermark, more).issued;
        assert(forall|i: int|
            0 <= i < second.len() ==> (#[trigger] second[i] matches Access::ReadRxData(index)
                ==> index < 32));
    }
}

} // verus!
