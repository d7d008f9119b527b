//! How data moves through the FIFOs, access for access and byte for byte.

use crate::laws::fifos::words_in;
use crate::laws::scripts::{lemma_exchange_plays, lemma_finished_plays, plays};
use crate::laws::values::{digit, lemma_unpack_bytes};
use crate::peripheral::fifo::{
    drain_fill_run, drain_run, drain_words_run, fill_run, fill_send_run, fill_words_run, overwrite,
    watermark_bytes,
};
use crate::procedure::{finished, Run};
use crate::registers::{Access, Interrupts, Reply};
use crate::words::{pack, unpack, word_count};
use vstd::prelude::*;

verus! {

/// Clearing the flag of the RX watermark, and no other: a watermark of data leaves the FIFO.
pub open spec fn pop() -> Access {
    Access::ClearInterrupts(
        Interrupts {
            ipcmddone: false,
            ipcmdge: false,
            ipcmderr: false,
            iprxwa: true,
            iptxwe: false,
            datalearnfail: false,
            seqtimeout: false,
        },
    )
}

/// Clearing the flag of the TX watermark, and no other: what is in the FIFO is sent.
pub open spec fn send() -> Access {
    Access::ClearInterrupts(
        Interrupts {
            ipcmddone: false,
            ipcmdge: false,
            ipcmderr: false,
            iprxwa: false,
            iptxwe: true,
            datalearnfail: false,
            seqtimeout: false,
        },
    )
}

/// How many of `available` bytes go through at once with a watermark of `field` plus one words of
/// 64 bits.
pub open spec fn at_once(available: int, field: u8) -> int {
    if available <= 8 * (field + 1) {
        available
    } else {
        8 * (field + 1)
    }
}

/// Writing the words to the data registers in order, from the one with the index `from` on.
pub open spec fn writes(words: Seq<u32>, from: int) -> Seq<Access> {
    Seq::new(
        (words.len() - from) as nat,
        |i: int| Access::WriteTxData((from + i) as usize, words[from + i]),
    )
}

/// Reading the data registers in order, from the one with the index `from` up to `to`.
pub open spec fn reads(from: int, to: int) -> Seq<Access> {
    Seq::new((to - from) as nat, |i: int| Access::ReadRxData((from + i) as usize))
}

proof fn lemma_fill_words_plays(words: Seq<u32>, from: int, count: int, replies: Seq<Reply>)
    requires
        0 <= from <= words.len(),
    ensures
        plays(
            fill_words_run(words, from, count, replies),
            replies,
            writes(words, from) + seq![send()],
            count,
        ),
    decreases words.len() - from,
{
    reveal(fill_words_run);
    let none = Seq::<Access>::empty();
    if from < words.len() {
        let access = Access::WriteTxData(from as usize, words[from]);
        let next = fill_words_run(words, from + 1, count, replies.skip(1));
        lemma_fill_words_plays(words, from + 1, count, replies.skip(1));
        let tail = writes(words, from + 1) + seq![send()];
        lemma_exchange_plays(access, replies, next, tail, count);
        assert(seq![access] + tail =~= writes(words, from) + seq![send()]);
    } else {
        lemma_finished_plays(count, replies.skip(1));
        lemma_exchange_plays(send(), replies, finished(count, replies.skip(1)), none, count);
        assert(fill_words_run(words, from, count, replies) == fill_send_run(count, replies));
        assert(seq![send()] + none =~= writes(words, from) + seq![send()]);
    }
}

/// Whether the run fills the TX FIFO, access for access: reading the watermark, writing as much of
/// the data as the watermark allows to the data registers, four bytes to a word and in order, and
/// sending it. It comes to the number of bytes that went in.
pub open spec fn fills(run: Run<int>, data: Seq<u8>, replies: Seq<Reply>) -> bool {
    let count = at_once(data.len() as int, replies[0]->TxWatermark_0);
    plays(
        run,
        replies,
        seq![Access::ReadTxWatermark] + (writes(pack(data.take(count)), 0) + seq![send()]),
        count,
    )
}

/// What filling the TX FIFO does, access for access.
pub proof fn lemma_fill_exact(data: Seq<u8>, replies: Seq<Reply>)
    ensures
        fills(fill_run(data, replies), data, replies),
{
    let count = at_once(data.len() as int, replies[0]->TxWatermark_0);
    let words = pack(data.take(count));
    lemma_fill_words_plays(words, 0, count, replies.skip(1));
    lemma_exchange_plays(
        Access::ReadTxWatermark,
        replies,
        fill_words_run(words, 0, count, replies.skip(1)),
        writes(words, 0) + seq![send()],
        count,
    );
}

proof fn lemma_drain_words_plays(
    buffer: Seq<u8>,
    start: int,
    count: int,
    words: Seq<u32>,
    replies: Seq<Reply>,
)
    requires
        0 <= words.len() <= word_count(count),
    ensures
        ({
            let left = word_count(count) - words.len();
            plays(
                drain_words_run(buffer, start, count, words, replies),
                replies,
                reads(words.len() as int, word_count(count)) + seq![pop()],
                (overwrite(buffer, start, unpack(words + words_in(replies, left), count)), count),
            )
        }),
    decreases word_count(count) - words.len(),
{
    reveal(drain_words_run);
    let none = Seq::<Access>::empty();
    let from = words.len() as int;
    let left = word_count(count) - from;
    let value = (overwrite(buffer, start, unpack(words + words_in(replies, left), count)), count);
    let script = reads(from, word_count(count)) + seq![pop()];
    if left > 0 {
        let access = Access::ReadRxData(from as usize);
        let more = words.push(replies[0]->RxData_0);
        let next = drain_words_run(buffer, start, count, more, replies.skip(1));
        lemma_drain_words_plays(buffer, start, count, more, replies.skip(1));
        let tail = reads(from + 1, word_count(count)) + seq![pop()];
        if replies.len() > left {
            assert(more + words_in(replies.skip(1), left - 1) =~= words + words_in(replies, left));
        }
        assert(replies.len() > 0 ==> plays(next, replies.skip(1), tail, value));
        lemma_exchange_plays(access, replies, next, tail, value);
        assert(seq![access] + tail =~= script);
    } else {
        assert(words + words_in(replies, left) =~= words);
        lemma_finished_plays(value, replies.skip(1));
        lemma_exchange_plays(pop(), replies, finished(value, replies.skip(1)), none, value);
        assert(seq![pop()] + none =~= script);
    }
}

/// How many bytes a drain moves into `room` bytes with the given watermark and fill level: as many
/// as there are in the FIFO, but no more than the watermark and no more than there is room for.
pub open spec fn drained(room: int, field: u8, fill: u8) -> int {
    if room <= 8 * fill {
        at_once(room, field)
    } else {
        at_once(8 * fill, field)
    }
}

/// The buffer after a drain of `count` bytes to `start`: they are the bytes of the words that the
/// registers delivered, the least significant byte of each first. Every other byte is as before.
pub open spec fn after_drain(
    buffer: Seq<u8>,
    start: int,
    count: int,
    words: spec_fn(int) -> u32,
) -> Seq<u8> {
    Seq::new(
        buffer.len(),
        |i: int|
            if start <= i < start + count {
                digit(words((i - start) / 4), (i - start) % 4) as u8
            } else {
                buffer[i]
            },
    )
}

/// Whether the run drains the RX FIFO, access for access: reading the watermark and the fill level,
/// reading as many words from the data registers, in order, as the bytes take, and dropping a
/// watermark of data. It comes to the buffer and the number of bytes that went into it.
pub open spec fn drains(
    run: Run<(Seq<u8>, int)>,
    buffer: Seq<u8>,
    start: int,
    end: int,
    replies: Seq<Reply>,
) -> bool {
    let count = drained(end - start, replies[0]->RxWatermark_0, replies[1]->RxFill_0);
    plays(
        run,
        replies,
        seq![Access::ReadRxWatermark, Access::ReadRxFill] + (reads(0, (count + 3) / 4) + seq![
            pop(),
        ]),
        (after_drain(buffer, start, count, |word: int| replies[2 + word]->RxData_0), count),
    )
}

/// What draining the RX FIFO does, access for access.
pub proof fn lemma_drain_exact(buffer: Seq<u8>, start: int, end: int, replies: Seq<Reply>)
    requires
        0 <= start <= end <= buffer.len(),
    ensures
        drains(drain_run(buffer, start, end, replies), buffer, start, end, replies),
{
    let field = replies[0]->RxWatermark_0;
    let watermark = watermark_bytes(field);
    let more = replies.skip(1);
    let most = more.skip(1);
    let count = drained(end - start, field, more[0]->RxFill_0);
    let words = words_in(most, word_count(count));
    let value = (overwrite(buffer, start, unpack(words, count)), count);
    let third = drain_words_run(buffer, start, count, Seq::empty(), most);
    let tail = reads(0, word_count(count)) + seq![pop()];
    lemma_drain_words_plays(buffer, start, count, Seq::empty(), most);
    assert(Seq::<u32>::empty() + words =~= words);
    lemma_exchange_plays(Access::ReadRxFill, more, third, tail, value);
    let second = drain_fill_run(buffer, start, end, watermark, more);
    lemma_exchange_plays(
        Access::ReadRxWatermark,
        replies,
        second,
        seq![Access::ReadRxFill] + tail,
        value,
    );
    let script = seq![Access::ReadRxWatermark] + (seq![Access::ReadRxFill] + tail);
    assert(script =~= seq![Access::ReadRxWatermark, Access::ReadRxFill] + tail);
    let actual = drained(end - start, field, replies[1]->RxFill_0);
    if replies.len() >= 2 {
        assert(more[0] == replies[1]);
        if replies.len() >= script.len() {
            lemma_unpack_bytes(words, count);
            assert forall|word: int| 0 <= word < words.len() implies #[trigger] words[word]
                == replies[2 + word]->RxData_0 by {
                assert(most[word] == replies[2 + word]);
            }
            let expected = after_drain(
                buffer,
                start,
                count,
                |word: int| replies[2 + word]->RxData_0,
            );
            assert(overwrite(buffer, start, unpack(words, count)) =~= expected);
        }
    } else {
        let other = seq![Access::ReadRxWatermark, Access::ReadRxFill] + (reads(0, (actual + 3) / 4)
            + seq![pop()]);
        assert(script.take(replies.len() as int + 1) =~= other.take(replies.len() as int + 1));
    }
}

} // verus!
