//! Reading data.

use crate::nor_flash::sequence::READ;
use crate::nor_flash::ReadError;
use crate::peripheral::command::{launch_run, lemma_launch_orderly, LaunchCommand};
use crate::peripheral::fifo::{drain_run, lemma_drain_orderly, min, DrainRxFifo};
use crate::peripheral::wait::{
    lemma_wait_command_done_orderly, lemma_wait_rx_ready_orderly, wait_command_done_run,
    wait_rx_ready_run, WaitCommandDone, WaitRxReady,
};
use crate::peripheral::{CommandSequence, WaitCommandError};
use crate::procedure::{exchange, finished, group_orderly, group_procedure, then, Procedure, Run};
use crate::registers::{Access, Reply};
use vstd::arithmetic::div_mod::{
    lemma_div_is_ordered, lemma_fundamental_div_mod, lemma_mod_add_multiples_vanish,
    lemma_mod_bound, lemma_mod_multiples_basic,
};
use vstd::arithmetic::mul::{lemma_mul_inequality, lemma_mul_is_commutative};
use vstd::prelude::*;

verus! {

broadcast use group_procedure;

/// The largest amount of data that one command can read.
pub const MAX_READ: usize = 0xFFFF;

/// The parts in which data is read, with one command each.
#[derive(Copy, Clone, Debug, PartialEq, Eq, Structural)]
pub struct Parts {
    /// The flash address of the first part.
    pub address: u32,
    /// The size of every part but the last, which may be smaller.
    pub size: usize,
}

impl Parts {
    /// Whether one command can read a part.
    pub open spec fn valid(self) -> bool {
        0 < self.size <= MAX_READ
    }

    /// The parts in which `length` bytes at `address` are read, where read commands have to be
    /// aligned to `read_alignment`.
    pub open spec fn aligned(address: u32, length: int, read_alignment: u32) -> Parts {
        Parts { address, size: part_size(address, length, read_alignment) as usize }
    }

    /// The parts in which `length` bytes at `address` are read, where read commands have to be
    /// aligned to `read_alignment`.
    pub fn new(address: u32, length: usize, read_alignment: u32) -> (parts: Self)
        ensures
            parts == Parts::aligned(address, length as int, read_alignment),
            parts.valid(),
    {
        proof {
            lemma_part_size(address, length as int, read_alignment);
        }
        if read_alignment == 0 || read_alignment as usize > MAX_READ {
            return Parts { address, size: MAX_READ };
        }
        let alignment: usize = read_alignment as usize;
        let within = length as u64 <= 0x1_0000_0000 - address as u64;
        if within && address % read_alignment == 0 && length % alignment == 0 {
            Parts { address, size: MAX_READ - MAX_READ % alignment }
        } else {
            Parts { address, size: MAX_READ }
        }
    }
}

/// Whether `length` bytes at `address` can be read with commands that start and end at multiples of
/// `read_alignment`.
///
/// That takes an address and a length that are multiples of it themselves, an alignment that is no
/// more than one command can read, and data that does not go beyond the last address of 32 bits.
pub open spec fn can_align(address: u32, length: int, read_alignment: u32) -> bool {
    &&& 0 < read_alignment <= MAX_READ
    &&& address as int % read_alignment as int == 0
    &&& length % read_alignment as int == 0
    &&& address + length <= 0x1_0000_0000
}

/// The size of the parts in which `length` bytes at `address` are read: as many bytes as one
/// command can read, but a multiple of the alignment where the commands can be aligned.
pub open spec fn part_size(address: u32, length: int, read_alignment: u32) -> int {
    if can_align(address, length, read_alignment) {
        MAX_READ as int - MAX_READ as int % read_alignment as int
    } else {
        MAX_READ as int
    }
}

/// Where the commands can be aligned, a part is the largest multiple of the alignment that one
/// command can read.
pub proof fn lemma_part_size(address: u32, length: int, read_alignment: u32)
    ensures
        0 < part_size(address, length, read_alignment) <= MAX_READ,
        can_align(address, length, read_alignment) ==> {
            &&& part_size(address, length, read_alignment) % read_alignment as int == 0
            &&& part_size(address, length, read_alignment) + read_alignment > MAX_READ
        },
{
    let alignment = read_alignment as int;
    if 0 < alignment <= MAX_READ {
        let most = MAX_READ as int;
        lemma_fundamental_div_mod(most, alignment);
        lemma_mod_bound(most, alignment);
        lemma_mod_multiples_basic(most / alignment, alignment);
        lemma_mul_is_commutative(most / alignment, alignment);
        assert(most - most % alignment == most / alignment * alignment);
    }
}

/// Whether the address of every command that reads `length` bytes in the given parts fits 32 bits.
pub open spec fn addresses_fit(parts: Parts, length: int) -> bool {
    length > 0 ==> parts.address + (length - 1) / parts.size as int * parts.size <= u32::MAX
}

/// Whether `length` bytes can be read from `address`: with as many bytes to a command as one
/// command can read, the address of every command fits 32 bits.
pub open spec fn readable(address: u32, length: int) -> bool {
    length > 0 ==> address + (length - 1) / MAX_READ as int * MAX_READ <= u32::MAX
}

/// Tells whether `length` bytes can be read from `address`.
pub fn is_readable(address: u32, length: usize) -> (can_read: bool)
    ensures
        can_read == readable(address, length as int),
{
    if length == 0 {
        return true;
    }
    let last: usize = (length - 1) / MAX_READ * MAX_READ;
    last <= (u32::MAX - address) as usize
}

/// Data that can be read can be read in aligned parts.
pub proof fn lemma_readable(address: u32, length: int, read_alignment: u32)
    requires
        readable(address, length),
    ensures
        addresses_fit(Parts::aligned(address, length, read_alignment), length),
{
    lemma_part_size(address, length, read_alignment);
    if length > 0 && can_align(address, length, read_alignment) {
        let size = part_size(address, length, read_alignment);
        lemma_fundamental_div_mod(length - 1, size);
        lemma_mod_bound(length - 1, size);
        lemma_mul_is_commutative((length - 1) / size, size);
    }
}

/// The end of the part that starts at `start`.
pub open spec fn chunk_end(parts: Parts, start: int, length: int) -> int {
    min(start + parts.size, length)
}

/// The command that reads what is from `start` to `end` of the data.
pub open spec fn read_sequence(parts: Parts, start: int, end: int) -> CommandSequence {
    CommandSequence {
        start: READ,
        count: 1,
        address: (parts.address + start) as u32,
        data_size: (end - start) as u16,
        parallel: false,
    }
}

/// Reading data into `buffer` in the given parts, with one command after the other.
///
/// The outcome is the result together with the buffer. After an error the buffer holds what was
/// received before.
pub open spec fn read_run(parts: Parts, buffer: Seq<u8>, replies: Seq<Reply>) -> Run<
    (Result<(), ReadError>, Seq<u8>),
> {
    exchange(Access::ClearRxFifo, replies, read_chunk_run(parts, buffer, 0, replies.skip(1)))
}

/// Reading data, where `buffer` is filled up to `start`, and the next command is due.
#[verifier::opaque]
pub open spec fn read_chunk_run(
    parts: Parts,
    buffer: Seq<u8>,
    start: int,
    replies: Seq<Reply>,
) -> Run<(Result<(), ReadError>, Seq<u8>)>
    decreases replies.len(), 5int,
{
    if start < buffer.len() {
        let end = chunk_end(parts, start, buffer.len() as int);
        proof {
            lemma_launch_orderly(read_sequence(parts, start, end), replies);
        }
        read_launched(
            parts,
            buffer,
            start,
            end,
            launch_run(read_sequence(parts, start, end), replies),
        )
    } else {
        finished((Ok(()), buffer), replies)
    }
}

/// Reading data, from the point where `launch` starts a command.
pub open spec fn read_launched(
    parts: Parts,
    buffer: Seq<u8>,
    start: int,
    end: int,
    launch: Run<()>,
) -> Run<(Result<(), ReadError>, Seq<u8>)>
    decreases launch.rest.len(), 4int,
{
    then(launch, read_data_run(parts, buffer, start, end, launch.rest))
}

/// Reading data, where `buffer` is filled up to `filled`, and the command yields what goes up to
/// `end`.
#[verifier::opaque]
pub open spec fn read_data_run(
    parts: Parts,
    buffer: Seq<u8>,
    filled: int,
    end: int,
    replies: Seq<Reply>,
) -> Run<(Result<(), ReadError>, Seq<u8>)>
    decreases replies.len(), 3int,
{
    if filled < end {
        let wait = wait_rx_ready_run(replies);
        if wait.outcome is Some {
            proof {
                lemma_wait_rx_ready_orderly(replies);
            }
            read_ready(parts, buffer, filled, end, wait)
        } else {
            Run { issued: wait.issued, outcome: None, rest: wait.rest }
        }
    } else {
        let wait = wait_command_done_run(replies);
        if wait.outcome is Some {
            proof {
                lemma_wait_command_done_orderly(replies);
            }
            read_waited(parts, buffer, end, wait)
        } else {
            Run { issued: wait.issued, outcome: None, rest: wait.rest }
        }
    }
}

/// Reading data, from the point where `wait` waits for data in the RX FIFO.
pub open spec fn read_ready(
    parts: Parts,
    buffer: Seq<u8>,
    filled: int,
    end: int,
    wait: Run<Result<(), WaitCommandError>>,
) -> Run<(Result<(), ReadError>, Seq<u8>)>
    decreases wait.rest.len(), 6int,
{
    then(
        wait,
        match wait.outcome->0 {
            Err(error) => finished((Err(ReadError::WaitRx(error)), buffer), wait.rest),
            Ok(()) => {
                proof {
                    lemma_drain_orderly(buffer, filled, end, wait.rest);
                }
                read_drained(parts, filled, end, drain_run(buffer, filled, end, wait.rest))
            },
        },
    )
}

/// Reading data, from the point where `drain` gets data out of the RX FIFO.
pub open spec fn read_drained(
    parts: Parts,
    filled: int,
    end: int,
    drain: Run<(Seq<u8>, int)>,
) -> Run<(Result<(), ReadError>, Seq<u8>)>
    decreases drain.rest.len(), 5int,
{
    let (buffer, count) = drain.outcome->0;
    then(drain, read_data_run(parts, buffer, filled + count, end, drain.rest))
}

/// Reading data, from the point where `wait` waits for a command to be done.
pub open spec fn read_waited(
    parts: Parts,
    buffer: Seq<u8>,
    end: int,
    wait: Run<Result<(), WaitCommandError>>,
) -> Run<(Result<(), ReadError>, Seq<u8>)>
    decreases wait.rest.len(), 6int,
{
    then(
        wait,
        match wait.outcome->0 {
            Err(error) => finished((Err(ReadError::WaitFinish(error)), buffer), wait.rest),
            Ok(()) => read_chunk_run(parts, buffer, end, wait.rest),
        },
    )
}

proof fn lemma_read_data_orderly(
    parts: Parts,
    buffer: Seq<u8>,
    filled: int,
    end: int,
    replies: Seq<Reply>,
)
    ensures
        read_data_run(parts, buffer, filled, end, replies).orderly(replies),
    decreases replies.len(), 0int,
{
    broadcast use group_orderly;

    reveal(read_data_run);
    reveal(read_chunk_run);
    if filled < end {
        let wait = wait_rx_ready_run(replies);
        lemma_wait_rx_ready_orderly(replies);
        if wait.outcome is Some {
            let drain = drain_run(buffer, filled, end, wait.rest);
            lemma_drain_orderly(buffer, filled, end, wait.rest);
            let (next, count) = drain.outcome->0;
            lemma_read_data_orderly(parts, next, filled + count, end, drain.rest);
            assert(read_drained(parts, filled, end, drain).orderly(wait.rest));
            assert(read_ready(parts, buffer, filled, end, wait).orderly(replies));
        }
    } else {
        let wait = wait_command_done_run(replies);
        lemma_wait_command_done_orderly(replies);
        if wait.outcome is Some {
            lemma_read_chunk_orderly(parts, buffer, end, wait.rest);
            assert(read_waited(parts, buffer, end, wait).orderly(replies));
        }
    }
}

proof fn lemma_read_chunk_orderly(parts: Parts, buffer: Seq<u8>, start: int, replies: Seq<Reply>)
    ensures
        read_chunk_run(parts, buffer, start, replies).orderly(replies),
    decreases replies.len(), 1int,
{
    broadcast use group_orderly;

    reveal(read_chunk_run);
    reveal(read_data_run);
    if start < buffer.len() {
        let end = chunk_end(parts, start, buffer.len() as int);
        let launch = launch_run(read_sequence(parts, start, end), replies);
        lemma_launch_orderly(read_sequence(parts, start, end), replies);
        lemma_read_data_orderly(parts, buffer, start, end, launch.rest);
        assert(read_launched(parts, buffer, start, end, launch).orderly(replies));
    }
}

/// Reading data is orderly.
pub proof fn lemma_read_orderly(parts: Parts, buffer: Seq<u8>, replies: Seq<Reply>)
    ensures
        read_run(parts, buffer, replies).orderly(replies),
{
    broadcast use group_orderly;

    lemma_read_chunk_orderly(parts, buffer, 0, replies.skip(1));
}

/// Reads data.
#[derive(Debug)]
pub struct Read {
    parts: Parts,
    phase: ReadPhase,
}

#[derive(Debug)]
enum ReadPhase {
    ClearFifo(Vec<u8>),
    Launch(Vec<u8>, usize, usize, LaunchCommand),
    Ready(Vec<u8>, usize, usize, WaitRxReady),
    Drain(usize, usize, DrainRxFifo),
    Wait(Vec<u8>, usize, WaitCommandDone),
    Over(Result<(), ReadError>, Vec<u8>),
}

/// Whether a chunk of a buffer of `length` bytes can end at `end`.
spec fn is_chunk_end(parts: Parts, length: int, end: int) -> bool {
    &&& parts.valid()
    &&& addresses_fit(parts, length)
    &&& 0 <= end <= length
    &&& end == length || end % parts.size as int == 0
}

impl Read {
    /// Starts with an empty RX FIFO.
    pub fn new(parts: Parts, buffer: Vec<u8>) -> (read: Self)
        requires
            parts.valid(),
            addresses_fit(parts, buffer@.len() as int),
        ensures
            read.inv(),
            forall|replies: Seq<Reply>|
                #[trigger] read.run(replies) == read_run(parts, buffer@, replies),
    {
        Read { parts, phase: ReadPhase::ClearFifo(buffer) }
    }

    fn chunk(parts: Parts, buffer: Vec<u8>, start: usize) -> (read: Self)
        requires
            is_chunk_end(parts, buffer@.len() as int, start as int),
        ensures
            read.inv(),
            forall|replies: Seq<Reply>|
                #[trigger] read.run(replies) == read_chunk_run(
                    parts,
                    buffer@,
                    start as int,
                    replies,
                ),
    {
        reveal(read_chunk_run);
        let length: usize = buffer.len();
        if start >= length {
            return Read { parts, phase: ReadPhase::Over(Ok(()), buffer) };
        }
        let end: usize = if length - start > parts.size {
            start + parts.size
        } else {
            length
        };
        proof {
            lemma_chunk_address(parts, start as int, length as int);
        }
        let sequence = CommandSequence {
            start: READ,
            count: 1,
            address: parts.address + start as u32,
            data_size: (end - start) as u16,
            parallel: false,
        };
        proof {
            lemma_launch_orderly(sequence, Seq::empty());
        }
        let launch = LaunchCommand::new(sequence);
        Read { parts, phase: ReadPhase::Launch(buffer, start, end, launch) }
    }

    fn launching(
        parts: Parts,
        buffer: Vec<u8>,
        start: usize,
        end: usize,
        launch: LaunchCommand,
    ) -> (read: Self)
        requires
            launch.inv(),
            start <= end,
            is_chunk_end(parts, buffer@.len() as int, end as int),
        ensures
            read.inv(),
            forall|replies: Seq<Reply>|
                #[trigger] read.run(replies) == read_launched(
                    parts,
                    buffer@,
                    start as int,
                    end as int,
                    launch.run(replies),
                ),
    {
        if launch.pending().is_some() {
            return Read { parts, phase: ReadPhase::Launch(buffer, start, end, launch) };
        }
        reveal(read_data_run);
        launch.finish();
        Read::receiving(parts, buffer, start, end)
    }

    fn receiving(parts: Parts, buffer: Vec<u8>, filled: usize, end: usize) -> (read: Self)
        requires
            filled <= end,
            is_chunk_end(parts, buffer@.len() as int, end as int),
        ensures
            read.inv(),
            forall|replies: Seq<Reply>|
                #[trigger] read.run(replies) == read_data_run(
                    parts,
                    buffer@,
                    filled as int,
                    end as int,
                    replies,
                ),
    {
        reveal(read_data_run);
        proof {
            lemma_wait_rx_ready_orderly(Seq::empty());
            lemma_wait_command_done_orderly(Seq::empty());
        }
        if filled < end {
            Read { parts, phase: ReadPhase::Ready(buffer, filled, end, WaitRxReady::new()) }
        } else {
            Read { parts, phase: ReadPhase::Wait(buffer, end, WaitCommandDone::new()) }
        }
    }

    fn expecting(
        parts: Parts,
        buffer: Vec<u8>,
        filled: usize,
        end: usize,
        wait: WaitRxReady,
    ) -> (read: Self)
        requires
            wait.inv(),
            filled <= end,
            is_chunk_end(parts, buffer@.len() as int, end as int),
        ensures
            read.inv(),
            forall|replies: Seq<Reply>|
                #[trigger] read.run(replies) == read_ready(
                    parts,
                    buffer@,
                    filled as int,
                    end as int,
                    wait.run(replies),
                ),
    {
        if wait.pending().is_some() {
            return Read { parts, phase: ReadPhase::Ready(buffer, filled, end, wait) };
        }
        match wait.finish() {
            Err(error) => {
                Read { parts, phase: ReadPhase::Over(Err(ReadError::WaitRx(error)), buffer) }
            },
            Ok(()) => {
                let ghost before = buffer@;
                let drain = DrainRxFifo::new(buffer, filled, end);
                proof {
                    lemma_drain_orderly(before, filled as int, end as int, Seq::empty());
                }
                Read { parts, phase: ReadPhase::Drain(filled, end, drain) }
            },
        }
    }

    fn draining(parts: Parts, filled: usize, end: usize, drain: DrainRxFifo) -> (read: Self)
        requires
            drain.inv(),
            filled <= end,
            drain.room() == end - filled,
            is_chunk_end(parts, drain.size() as int, end as int),
        ensures
            read.inv(),
            forall|replies: Seq<Reply>|
                #[trigger] read.run(replies) == read_drained(
                    parts,
                    filled as int,
                    end as int,
                    drain.run(replies),
                ),
    {
        if drain.pending().is_some() {
            return Read { parts, phase: ReadPhase::Drain(filled, end, drain) };
        }
        reveal(read_data_run);
        let (buffer, count) = drain.finish();
        Read::receiving(parts, buffer, filled + count, end)
    }

    fn ending(parts: Parts, buffer: Vec<u8>, end: usize, wait: WaitCommandDone) -> (read: Self)
        requires
            wait.inv(),
            is_chunk_end(parts, buffer@.len() as int, end as int),
        ensures
            read.inv(),
            forall|replies: Seq<Reply>|
                #[trigger] read.run(replies) == read_waited(
                    parts,
                    buffer@,
                    end as int,
                    wait.run(replies),
                ),
    {
        if wait.pending().is_some() {
            return Read { parts, phase: ReadPhase::Wait(buffer, end, wait) };
        }
        reveal(read_chunk_run);
        match wait.finish() {
            Err(error) => {
                Read { parts, phase: ReadPhase::Over(Err(ReadError::WaitFinish(error)), buffer) }
            },
            Ok(()) => Read::chunk(parts, buffer, end),
        }
    }
}

impl Procedure for Read {
    type Output = (Result<(), ReadError>, Vec<u8>);

    type Value = (Result<(), ReadError>, Seq<u8>);

    open spec fn value(output: Self::Output) -> Self::Value {
        (output.0, output.1@)
    }

    closed spec fn inv(&self) -> bool {
        match self.phase {
            ReadPhase::ClearFifo(buffer) => {
                self.parts.valid() && addresses_fit(self.parts, buffer@.len() as int)
            },
            ReadPhase::Launch(buffer, start, end, launch) => {
                &&& start <= end
                &&& is_chunk_end(self.parts, buffer@.len() as int, end as int)
                &&& launch.inv()
                &&& launch.run(Seq::empty()).outcome is None
            },
            ReadPhase::Ready(buffer, filled, end, wait) => {
                &&& filled <= end
                &&& is_chunk_end(self.parts, buffer@.len() as int, end as int)
                &&& wait.inv()
                &&& wait.run(Seq::empty()).outcome is None
            },
            ReadPhase::Drain(filled, end, drain) => {
                &&& filled <= end
                &&& drain.room() == end - filled
                &&& is_chunk_end(self.parts, drain.size() as int, end as int)
                &&& drain.inv()
                &&& drain.run(Seq::empty()).outcome is None
            },
            ReadPhase::Wait(buffer, end, wait) => {
                &&& is_chunk_end(self.parts, buffer@.len() as int, end as int)
                &&& wait.inv()
                &&& wait.run(Seq::empty()).outcome is None
            },
            ReadPhase::Over(_, _) => true,
        }
    }

    closed spec fn run(&self, replies: Seq<Reply>) -> Run<Self::Value> {
        match self.phase {
            ReadPhase::ClearFifo(buffer) => read_run(self.parts, buffer@, replies),
            ReadPhase::Launch(buffer, start, end, launch) => read_launched(
                self.parts,
                buffer@,
                start as int,
                end as int,
                launch.run(replies),
            ),
            ReadPhase::Ready(buffer, filled, end, wait) => read_ready(
                self.parts,
                buffer@,
                filled as int,
                end as int,
                wait.run(replies),
            ),
            ReadPhase::Drain(filled, end, drain) => read_drained(
                self.parts,
                filled as int,
                end as int,
                drain.run(replies),
            ),
            ReadPhase::Wait(buffer, end, wait) => read_waited(
                self.parts,
                buffer@,
                end as int,
                wait.run(replies),
            ),
            ReadPhase::Over(result, buffer) => finished((result, buffer@), replies),
        }
    }

    fn pending(&self) -> (access: Option<Access>) {
        match &self.phase {
            ReadPhase::ClearFifo(_) => Some(Access::ClearRxFifo),
            ReadPhase::Launch(_, _, _, launch) => launch.pending(),
            ReadPhase::Ready(_, _, _, wait) => wait.pending(),
            ReadPhase::Drain(_, _, drain) => drain.pending(),
            ReadPhase::Wait(_, _, wait) => wait.pending(),
            ReadPhase::Over(_, _) => None,
        }
    }

    fn step(self, reply: Reply) -> (next: Self) {
        let Read { parts, phase } = self;
        match phase {
            ReadPhase::ClearFifo(buffer) => Read::chunk(parts, buffer, 0),
            ReadPhase::Launch(buffer, start, end, launch) => Read::launching(
                parts,
                buffer,
                start,
                end,
                launch.step(reply),
            ),
            ReadPhase::Ready(buffer, filled, end, wait) => Read::expecting(
                parts,
                buffer,
                filled,
                end,
                wait.step(reply),
            ),
            ReadPhase::Drain(filled, end, drain) => Read::draining(
                parts,
                filled,
                end,
                drain.step(reply),
            ),
            ReadPhase::Wait(buffer, end, wait) => Read::ending(
                parts,
                buffer,
                end,
                wait.step(reply),
            ),
            ReadPhase::Over(_, _) => unreached(),
        }
    }

    fn finish(self) -> (output: Self::Output) {
        match self.phase {
            ReadPhase::Over(result, buffer) => (result, buffer),
            _ => unreached(),
        }
    }
}

proof fn lemma_chunk_address(parts: Parts, start: int, length: int)
    requires
        parts.valid(),
        0 <= start < length,
        start % parts.size as int == 0,
    ensures
        start <= (length - 1) / parts.size as int * parts.size,
        (start + parts.size) % parts.size as int == 0,
{
    let size = parts.size as int;
    lemma_fundamental_div_mod(start, size);
    lemma_div_is_ordered(start, length - 1, size);
    lemma_mul_inequality(start / size, (length - 1) / size, size);
    lemma_mul_is_commutative(start / size, size);
    lemma_mod_add_multiples_vanish(start, size);
}

} // verus!
