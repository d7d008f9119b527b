//! Moving data through the FIFOs.

use crate::procedure::{exchange, finished, group_orderly, group_procedure, Procedure, Run};
use crate::registers::{Access, Interrupts, Reply};
use crate::words::{pack, read_u32_write_u8, read_u8_write_u32, unpack, word_count};
use vstd::prelude::*;
use vstd::slice::slice_subrange;

verus! {

broadcast use group_procedure;

/// The smaller of two numbers.
pub open spec fn min(a: int, b: int) -> int {
    if a < b {
        a
    } else {
        b
    }
}

/// The bytes of `buffer`, with `bytes` in place of what was at `at`.
pub open spec fn overwrite(buffer: Seq<u8>, at: int, bytes: Seq<u8>) -> Seq<u8> {
    buffer.take(at) + bytes + buffer.skip(at + bytes.len())
}

/// The watermark in bytes that a field of a watermark register stands for.
pub open spec fn watermark_bytes(field: u8) -> int {
    8 * (field + 1)
}

/// Filling the TX FIFO with the start of `data`, up to the watermark.
///
/// The outcome is how many bytes went in.
pub open spec fn fill_run(data: Seq<u8>, replies: Seq<Reply>) -> Run<int> {
    let count = min(data.len() as int, watermark_bytes(replies[0]->TxWatermark_0));
    exchange(
        Access::ReadTxWatermark,
        replies,
        fill_words_run(pack(data.take(count)), 0, count, replies.skip(1)),
    )
}

/// Filling the TX FIFO with `count` bytes that make `words`, from the word at `index` on.
#[verifier::opaque]
pub open spec fn fill_words_run(
    words: Seq<u32>,
    index: int,
    count: int,
    replies: Seq<Reply>,
) -> Run<int>
    decreases words.len() - index,
{
    if index < words.len() {
        exchange(
            Access::WriteTxData(index as usize, words[index]),
            replies,
            fill_words_run(words, index + 1, count, replies.skip(1)),
        )
    } else {
        fill_send_run(count, replies)
    }
}

/// Filling the TX FIFO, from the point where what is in it is marked ready for sending.
pub open spec fn fill_send_run(count: int, replies: Seq<Reply>) -> Run<int> {
    exchange(
        Access::ClearInterrupts(Interrupts { iptxwe: true, ..Interrupts::none() }),
        replies,
        finished(count, replies.skip(1)),
    )
}

/// Draining the RX FIFO into the part of `buffer` from `start` to `end`.
///
/// As many bytes move as the FIFO holds, but no more than the watermark and no more than there is
/// room for. The FIFO then drops a watermark of data. The outcome is the buffer, and how many
/// bytes went into it.
pub open spec fn drain_run(buffer: Seq<u8>, start: int, end: int, replies: Seq<Reply>) -> Run<
    (Seq<u8>, int),
> {
    exchange(
        Access::ReadRxWatermark,
        replies,
        drain_fill_run(
            buffer,
            start,
            end,
            watermark_bytes(replies[0]->RxWatermark_0),
            replies.skip(1),
        ),
    )
}

/// Draining the RX FIFO, where the watermark is known.
pub open spec fn drain_fill_run(
    buffer: Seq<u8>,
    start: int,
    end: int,
    watermark: int,
    replies: Seq<Reply>,
) -> Run<(Seq<u8>, int)> {
    let fill = 8 * (replies[0]->RxFill_0);
    exchange(
        Access::ReadRxFill,
        replies,
        drain_words_run(
            buffer,
            start,
            min(min(end - start, fill), watermark),
            Seq::empty(),
            replies.skip(1),
        ),
    )
}

/// Draining `count` bytes from the RX FIFO, where `words` have been read from it.
#[verifier::opaque]
pub open spec fn drain_words_run(
    buffer: Seq<u8>,
    start: int,
    count: int,
    words: Seq<u32>,
    replies: Seq<Reply>,
) -> Run<(Seq<u8>, int)>
    decreases word_count(count) - words.len(),
{
    if words.len() < word_count(count) {
        exchange(
            Access::ReadRxData(words.len() as usize),
            replies,
            drain_words_run(
                buffer,
                start,
                count,
                words.push(replies[0]->RxData_0),
                replies.skip(1),
            ),
        )
    } else {
        drain_pop_run(overwrite(buffer, start, unpack(words, count)), count, replies)
    }
}

/// Draining the RX FIFO, from the point where it drops a watermark of data.
pub open spec fn drain_pop_run(buffer: Seq<u8>, count: int, replies: Seq<Reply>) -> Run<
    (Seq<u8>, int),
> {
    exchange(
        Access::ClearInterrupts(Interrupts { iprxwa: true, ..Interrupts::none() }),
        replies,
        finished((buffer, count), replies.skip(1)),
    )
}

proof fn lemma_fill_words_orderly(words: Seq<u32>, index: int, count: int, replies: Seq<Reply>)
    ensures
        fill_words_run(words, index, count, replies).orderly(replies),
    decreases words.len() - index,
{
    broadcast use group_orderly;

    reveal(fill_words_run);
    if index < words.len() {
        lemma_fill_words_orderly(words, index + 1, count, replies.skip(1));
    }
}

/// Filling the TX FIFO is orderly.
pub proof fn lemma_fill_orderly(data: Seq<u8>, replies: Seq<Reply>)
    ensures
        fill_run(data, replies).orderly(replies),
{
    broadcast use group_orderly;

    let count = min(data.len() as int, watermark_bytes(replies[0]->TxWatermark_0));
    lemma_fill_words_orderly(pack(data.take(count)), 0, count, replies.skip(1));
}

proof fn lemma_drain_words_orderly(
    buffer: Seq<u8>,
    start: int,
    count: int,
    words: Seq<u32>,
    replies: Seq<Reply>,
)
    ensures
        drain_words_run(buffer, start, count, words, replies).orderly(replies),
    decreases word_count(count) - words.len(),
{
    broadcast use group_orderly;

    reveal(drain_words_run);
    if words.len() < word_count(count) {
        lemma_drain_words_orderly(
            buffer,
            start,
            count,
            words.push(replies[0]->RxData_0),
            replies.skip(1),
        );
    }
}

/// Draining the RX FIFO is orderly.
pub proof fn lemma_drain_orderly(buffer: Seq<u8>, start: int, end: int, replies: Seq<Reply>)
    ensures
        drain_run(buffer, start, end, replies).orderly(replies),
        drain_run(buffer, start, end, replies).issued.len() > 0,
{
    broadcast use group_orderly;

    let watermark = watermark_bytes(replies[0]->RxWatermark_0);
    let more = replies.skip(1);
    let fill = 8 * (more[0]->RxFill_0);
    lemma_drain_words_orderly(
        buffer,
        start,
        min(min(end - start, fill), watermark),
        Seq::empty(),
        more.skip(1),
    );
}

/// Fills the TX FIFO.
#[derive(Debug)]
pub struct FillTxFifo<'d> {
    data: &'d [u8],
    phase: FillPhase,
}

#[derive(Debug)]
enum FillPhase {
    ReadWatermark,
    WriteWord(Vec<u32>, usize, usize),
    Send(usize),
    Over(usize),
}

impl<'d> FillTxFifo<'d> {
    /// The amount of data that there is.
    pub closed spec fn available(&self) -> nat {
        self.data@.len()
    }

    /// Starts with the watermark.
    pub fn new(data: &'d [u8]) -> (fill: Self)
        ensures
            fill.inv(),
            fill.available() == data@.len(),
            forall|replies: Seq<Reply>| #[trigger] fill.run(replies) == fill_run(data@, replies),
    {
        FillTxFifo { data, phase: FillPhase::ReadWatermark }
    }

    fn writing(data: &'d [u8], words: Vec<u32>, index: usize, count: usize) -> (fill: Self)
        requires
            index <= words@.len(),
            count <= data@.len(),
        ensures
            fill.inv(),
            fill.available() == data@.len(),
            forall|replies: Seq<Reply>|
                #[trigger] fill.run(replies) == fill_words_run(
                    words@,
                    index as int,
                    count as int,
                    replies,
                ),
    {
        reveal(fill_words_run);
        if index < words.len() {
            FillTxFifo { data, phase: FillPhase::WriteWord(words, index, count) }
        } else {
            FillTxFifo { data, phase: FillPhase::Send(count) }
        }
    }
}

impl<'d> Procedure for FillTxFifo<'d> {
    type Output = usize;

    type Value = int;

    open spec fn value(output: Self::Output) -> Self::Value {
        output as int
    }

    closed spec fn inv(&self) -> bool {
        match self.phase {
            FillPhase::ReadWatermark => true,
            FillPhase::WriteWord(words, index, count) => {
                index < words.len() && count <= self.data@.len()
            },
            FillPhase::Send(count) => count <= self.data@.len(),
            FillPhase::Over(count) => count <= self.data@.len(),
        }
    }

    closed spec fn run(&self, replies: Seq<Reply>) -> Run<Self::Value> {
        match self.phase {
            FillPhase::ReadWatermark => fill_run(self.data@, replies),
            FillPhase::WriteWord(words, index, count) => fill_words_run(
                words@,
                index as int,
                count as int,
                replies,
            ),
            FillPhase::Send(count) => fill_send_run(count as int, replies),
            FillPhase::Over(count) => finished(count as int, replies),
        }
    }

    fn pending(&self) -> (access: Option<Access>) {
        reveal(fill_words_run);
        match &self.phase {
            FillPhase::ReadWatermark => Some(Access::ReadTxWatermark),
            FillPhase::WriteWord(words, index, _) => Some(
                Access::WriteTxData(*index, words[*index]),
            ),
            FillPhase::Send(_) => Some(
                Access::ClearInterrupts(
                    Interrupts {
                        ipcmddone: false,
                        ipcmdge: false,
                        ipcmderr: false,
                        iprxwa: false,
                        iptxwe: true,
                        datalearnfail: false,
                        seqtimeout: false,
                    },
                ),
            ),
            FillPhase::Over(_) => None,
        }
    }

    fn step(self, reply: Reply) -> (next: Self)
        ensures
            next.available() == self.available(),
    {
        reveal(fill_words_run);
        let data = self.data;
        match (self.phase, reply) {
            (FillPhase::ReadWatermark, Reply::TxWatermark(field)) => {
                let watermark: usize = (field as usize + 1) * 8;
                let count: usize = if data.len() < watermark {
                    data.len()
                } else {
                    watermark
                };
                let chunk = slice_subrange(data, 0, count);
                assert(chunk@ =~= data@.take(count as int));
                let mut words: Vec<u32> = vec![0;(count + 3) / 4];
                read_u8_write_u32(chunk, words.as_mut_slice());
                assert(words@ =~= pack(chunk@));
                FillTxFifo::writing(data, words, 0, count)
            },
            (FillPhase::WriteWord(words, index, count), _) => {
                FillTxFifo::writing(data, words, index + 1, count)
            },
            (FillPhase::Send(count), _) => FillTxFifo { data, phase: FillPhase::Over(count) },
            _ => unreached(),
        }
    }

    fn finish(self) -> (output: Self::Output)
        ensures
            output <= self.available(),
    {
        reveal(fill_words_run);
        match self.phase {
            FillPhase::Over(count) => count,
            _ => unreached(),
        }
    }
}

/// Drains the RX FIFO.
#[derive(Debug)]
pub struct DrainRxFifo {
    buffer: Vec<u8>,
    start: usize,
    end: usize,
    phase: DrainPhase,
}

#[derive(Debug)]
enum DrainPhase {
    ReadWatermark,
    ReadFill(usize),
    ReadWord(usize, Vec<u32>),
    Pop(usize),
    Over(usize),
}

impl DrainRxFifo {
    /// The size of the buffer.
    pub closed spec fn size(&self) -> nat {
        self.buffer@.len()
    }

    /// The size of the part of the buffer that is drained into.
    pub closed spec fn room(&self) -> int {
        self.end - self.start
    }

    /// Starts with the watermark.
    pub fn new(buffer: Vec<u8>, start: usize, end: usize) -> (drain: Self)
        requires
            start <= end <= buffer@.len(),
        ensures
            drain.inv(),
            drain.size() == buffer@.len(),
            drain.room() == end - start,
            forall|replies: Seq<Reply>|
                #[trigger] drain.run(replies) == drain_run(
                    buffer@,
                    start as int,
                    end as int,
                    replies,
                ),
    {
        DrainRxFifo { buffer, start, end, phase: DrainPhase::ReadWatermark }
    }

    fn reading(
        buffer: Vec<u8>,
        start: usize,
        end: usize,
        count: usize,
        words: Vec<u32>,
    ) -> (drain: Self)
        requires
            start <= end <= buffer@.len(),
            count <= end - start,
            words@.len() <= word_count(count as int),
        ensures
            drain.inv(),
            drain.size() == buffer@.len(),
            drain.room() == end - start,
            forall|replies: Seq<Reply>|
                #[trigger] drain.run(replies) == drain_words_run(
                    buffer@,
                    start as int,
                    count as int,
                    words@,
                    replies,
                ),
    {
        reveal(drain_words_run);
        let mut buffer = buffer;
        if words.len() < count / 4 || (words.len() == count / 4 && count % 4 != 0) {
            return DrainRxFifo { buffer, start, end, phase: DrainPhase::ReadWord(count, words) };
        }
        let ghost before = buffer@;
        let (_, room) = buffer.as_mut_slice().split_at_mut(start);
        let (dest, _) = room.split_at_mut(count);
        read_u32_write_u8(words.as_slice(), dest);
        assert(buffer@ =~= overwrite(before, start as int, unpack(words@, count as int)));
        DrainRxFifo { buffer, start, end, phase: DrainPhase::Pop(count) }
    }
}

impl Procedure for DrainRxFifo {
    type Output = (Vec<u8>, usize);

    type Value = (Seq<u8>, int);

    open spec fn value(output: Self::Output) -> Self::Value {
        (output.0@, output.1 as int)
    }

    closed spec fn inv(&self) -> bool {
        &&& self.start <= self.end <= self.buffer@.len()
        &&& match self.phase {
            DrainPhase::ReadWord(count, words) => {
                &&& count <= self.end - self.start
                &&& words@.len() < word_count(count as int)
            },
            DrainPhase::Pop(count) => count <= self.end - self.start,
            DrainPhase::Over(count) => count <= self.end - self.start,
            _ => true,
        }
    }

    closed spec fn run(&self, replies: Seq<Reply>) -> Run<Self::Value> {
        match self.phase {
            DrainPhase::ReadWatermark => drain_run(
                self.buffer@,
                self.start as int,
                self.end as int,
                replies,
            ),
            DrainPhase::ReadFill(watermark) => drain_fill_run(
                self.buffer@,
                self.start as int,
                self.end as int,
                watermark as int,
                replies,
            ),
            DrainPhase::ReadWord(count, words) => drain_words_run(
                self.buffer@,
                self.start as int,
                count as int,
                words@,
                replies,
            ),
            DrainPhase::Pop(count) => drain_pop_run(self.buffer@, count as int, replies),
            DrainPhase::Over(count) => finished((self.buffer@, count as int), replies),
        }
    }

    fn pending(&self) -> (access: Option<Access>) {
        reveal(drain_words_run);
        match &self.phase {
            DrainPhase::ReadWatermark => Some(Access::ReadRxWatermark),
            DrainPhase::ReadFill(_) => Some(Access::ReadRxFill),
            DrainPhase::ReadWord(_, words) => Some(Access::ReadRxData(words.len())),
            DrainPhase::Pop(_) => Some(
                Access::ClearInterrupts(
                    Interrupts {
                        ipcmddone: false,
                        ipcmdge: false,
                        ipcmderr: false,
                        iprxwa: true,
                        iptxwe: false,
                        datalearnfail: false,
                        seqtimeout: false,
                    },
                ),
            ),
            DrainPhase::Over(_) => None,
        }
    }

    fn step(self, reply: Reply) -> (next: Self)
        ensures
            next.size() == self.size(),
            next.room() == self.room(),
    {
        reveal(drain_words_run);
        let DrainRxFifo { buffer, start, end, phase } = self;
        match (phase, reply) {
            (DrainPhase::ReadWatermark, Reply::RxWatermark(field)) => {
                let watermark: usize = (field as usize + 1) * 8;
                DrainRxFifo { buffer, start, end, phase: DrainPhase::ReadFill(watermark) }
            },
            (DrainPhase::ReadFill(watermark), Reply::RxFill(fill)) => {
                let fill: usize = fill as usize * 8;
                let available: usize = if fill < watermark {
                    fill
                } else {
                    watermark
                };
                let count: usize = if end - start < available {
                    end - start
                } else {
                    available
                };
                DrainRxFifo::reading(buffer, start, end, count, Vec::new())
            },
            (DrainPhase::ReadWord(count, words), Reply::RxData(word)) => {
                let mut words = words;
                words.push(word);
                DrainRxFifo::reading(buffer, start, end, count, words)
            },
            (DrainPhase::Pop(count), _) => {
                DrainRxFifo { buffer, start, end, phase: DrainPhase::Over(count) }
            },
            _ => unreached(),
        }
    }

    fn finish(self) -> (output: Self::Output)
        ensures
            output.0@.len() == self.size(),
            output.1 <= self.room(),
    {
        reveal(drain_words_run);
        match self.phase {
            DrainPhase::Over(count) => (self.buffer, count),
            _ => unreached(),
        }
    }
}

} // verus!
