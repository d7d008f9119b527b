//! Single register accesses: the FIFO levels, and writes that stand alone.

use crate::procedure::{exchange, finished, group_procedure, Procedure, Run};
use crate::registers::{Access, Reply};
use vstd::prelude::*;

verus! {

broadcast use group_procedure;

/// A level of a FIFO.
#[derive(Copy, Clone, Debug, PartialEq, Eq, Structural)]
pub enum Level {
    /// The watermark of the TX FIFO.
    TxWatermark,
    /// The watermark of the RX FIFO.
    RxWatermark,
    /// How far the RX FIFO is filled.
    RxFill,
}

impl Level {
    /// The access that reads the level.
    pub open spec fn access(self) -> Access {
        match self {
            Level::TxWatermark => Access::ReadTxWatermark,
            Level::RxWatermark => Access::ReadRxWatermark,
            Level::RxFill => Access::ReadRxFill,
        }
    }

    /// The level in words of 64 bits that a reply tells. The registers hold a watermark less one.
    pub open spec fn words(self, reply: Reply) -> int {
        match self {
            Level::TxWatermark => reply->TxWatermark_0 + 1,
            Level::RxWatermark => reply->RxWatermark_0 + 1,
            Level::RxFill => reply->RxFill_0 as int,
        }
    }
}

/// Reading a level in words of 64 bits.
pub open spec fn level_words_run(level: Level, replies: Seq<Reply>) -> Run<int> {
    exchange(level.access(), replies, finished(level.words(replies[0]), replies.skip(1)))
}

/// Reading a level in bytes.
pub open spec fn level_bytes_run(level: Level, replies: Seq<Reply>) -> Run<int> {
    exchange(level.access(), replies, finished(8 * level.words(replies[0]), replies.skip(1)))
}

/// Making one write.
pub open spec fn write_run(access: Access, replies: Seq<Reply>) -> Run<()> {
    exchange(access, replies, finished((), replies.skip(1)))
}

/// The field of the watermark registers for a watermark of `words` words of 64 bits.
///
/// The field holds the watermark less one, and the lowest watermark is one word.
pub open spec fn watermark_field(words: u8) -> u8 {
    if words == 0 {
        0
    } else {
        (words - 1) as u8
    }
}

/// Reads a level in words of 64 bits.
#[derive(Copy, Clone, Debug)]
pub struct ReadLevelWords {
    level: Level,
    words: Option<u8>,
}

impl ReadLevelWords {
    /// Starts with the register that holds the level.
    pub fn new(level: Level) -> (read: Self)
        ensures
            read.inv(),
            forall|replies: Seq<Reply>|
                #[trigger] read.run(replies) == level_words_run(level, replies),
    {
        ReadLevelWords { level, words: None }
    }
}

impl Procedure for ReadLevelWords {
    type Output = u8;

    type Value = int;

    open spec fn value(output: Self::Output) -> Self::Value {
        output as int
    }

    closed spec fn inv(&self) -> bool {
        true
    }

    closed spec fn run(&self, replies: Seq<Reply>) -> Run<Self::Value> {
        match self.words {
            None => level_words_run(self.level, replies),
            Some(words) => finished(words as int, replies),
        }
    }

    fn pending(&self) -> (access: Option<Access>) {
        match (self.words, self.level) {
            (Some(_), _) => None,
            (None, Level::TxWatermark) => Some(Access::ReadTxWatermark),
            (None, Level::RxWatermark) => Some(Access::ReadRxWatermark),
            (None, Level::RxFill) => Some(Access::ReadRxFill),
        }
    }

    fn step(self, reply: Reply) -> (next: Self) {
        let words: u8 = match reply {
            Reply::TxWatermark(field) => field + 1,
            Reply::RxWatermark(field) => field + 1,
            Reply::RxFill(fill) => fill,
            _ => unreached(),
        };
        ReadLevelWords { level: self.level, words: Some(words) }
    }

    fn finish(self) -> (output: Self::Output) {
        match self.words {
            Some(words) => words,
            None => unreached(),
        }
    }
}

/// Reads a level in bytes.
#[derive(Copy, Clone, Debug)]
pub struct ReadLevelBytes {
    read: ReadLevelWords,
}

impl ReadLevelBytes {
    /// Starts with the register that holds the level.
    pub fn new(level: Level) -> (read: Self)
        ensures
            read.inv(),
            forall|replies: Seq<Reply>|
                #[trigger] read.run(replies) == level_bytes_run(level, replies),
    {
        ReadLevelBytes { read: ReadLevelWords::new(level) }
    }
}

impl Procedure for ReadLevelBytes {
    type Output = usize;

    type Value = int;

    open spec fn value(output: Self::Output) -> Self::Value {
        output as int
    }

    closed spec fn inv(&self) -> bool {
        self.read.inv()
    }

    closed spec fn run(&self, replies: Seq<Reply>) -> Run<Self::Value> {
        let words = self.read.run(replies);
        Run {
            issued: words.issued,
            outcome: match words.outcome {
                Some(count) => Some(8 * count),
                None => None,
            },
            rest: words.rest,
        }
    }

    fn pending(&self) -> (access: Option<Access>) {
        self.read.pending()
    }

    fn step(self, reply: Reply) -> (next: Self) {
        ReadLevelBytes { read: self.read.step(reply) }
    }

    fn finish(self) -> (output: Self::Output) {
        self.read.finish() as usize * 8
    }
}

/// Makes one write.
#[derive(Copy, Clone, Debug)]
pub struct Write {
    access: Access,
    made: bool,
}

impl Write {
    /// Starts with the write.
    pub fn new(access: Access) -> (write: Self)
        ensures
            write.inv(),
            forall|replies: Seq<Reply>| #[trigger] write.run(replies) == write_run(access, replies),
    {
        Write { access, made: false }
    }
}

impl Procedure for Write {
    type Output = ();

    type Value = ();

    open spec fn value(output: Self::Output) -> Self::Value {
        output
    }

    closed spec fn inv(&self) -> bool {
        true
    }

    closed spec fn run(&self, replies: Seq<Reply>) -> Run<Self::Value> {
        if self.made {
            finished((), replies)
        } else {
            write_run(self.access, replies)
        }
    }

    fn pending(&self) -> (access: Option<Access>) {
        if self.made {
            None
        } else {
            Some(self.access)
        }
    }

    fn step(self, reply: Reply) -> (next: Self) {
        Write { access: self.access, made: true }
    }

    fn finish(self) -> (output: Self::Output) {
    }
}

} // verus!
