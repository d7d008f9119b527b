//! What each operation on the flash memory does and comes to, by what its parts come to.

use crate::laws::moving::{after_drain, lemma_drain_exact};
use crate::laws::scripts::{in_turn, lemma_then_in_turn};
use crate::laws::values::{digit, lemma_status_bits};
use crate::nor_flash::erase::{erase_commanded, erase_run, erase_sequence, settle_run};
use crate::nor_flash::identify::{
    read_id_drained, read_id_launched, read_id_ready, read_id_run, read_id_waited,
};
use crate::nor_flash::program::{
    page_program_run, program_clear, program_data_run, program_filled, program_launched,
    program_ready, program_settled, program_waited,
};
use crate::nor_flash::read::{
    chunk_end, read_chunk_run, read_data_run, read_drained, read_launched, read_ready, read_run,
    read_sequence, read_waited, Parts,
};
use crate::nor_flash::sequence::{CHIP_ERASE, ERASE_BLOCK, ERASE_SECTOR};
use crate::nor_flash::status::{
    lemma_read_status_orderly, read_status_commanded, read_status_run, run_command_run,
};
use crate::nor_flash::write_enable::{
    enable_write_run, enable_write_set, enable_write_status, set_write_enable_run, wait_write_run,
};
use crate::nor_flash::{
    NotEnoughData, PageProgramError, ReadError, Status, WriteCrossesPageBoundary, WriteError,
};
use crate::peripheral::cache::invalidate_cache_run;
use crate::peripheral::command::{launch_run, lemma_launch_orderly};
use crate::peripheral::fifo::{drain_run, fill_run, lemma_drain_orderly, lemma_fill_orderly};
use crate::peripheral::wait::{
    lemma_wait_command_done_orderly, lemma_wait_rx_ready_orderly, lemma_wait_tx_ready_orderly,
    wait_command_done_run, wait_rx_ready_run, wait_tx_ready_run,
};
use crate::peripheral::CommandSequence;
use crate::procedure::Run;
use crate::registers::{Access, Reply};
use vstd::arithmetic::div_mod::lemma_mod_bound;
use vstd::prelude::*;

verus! {

/// A single sequence of the LUT, for one flash memory.
pub open spec fn single(start: u8, address: u32, data_size: u16) -> CommandSequence {
    CommandSequence { start, count: 1, address, data_size, parallel: false }
}

/// The accesses, if they are made at all.
pub open spec fn provided(condition: bool, issued: Seq<Access>) -> Seq<Access> {
    if condition {
        issued
    } else {
        Seq::empty()
    }
}

/// Whether the run has ended well.
pub open spec fn well<V, E>(run: Run<Result<V, E>>) -> bool {
    run.outcome matches Some(Ok(_))
}

/// Running a command is starting it and then waiting for it to be done.
pub proof fn lemma_run_command_outcome(sequence: CommandSequence, replies: Seq<Reply>)
    ensures
        ({
            let launch = launch_run(sequence, replies);
            in_turn(
                run_command_run(sequence, replies),
                launch,
                wait_command_done_run(launch.rest),
            )
        }),
{
    let launch = launch_run(sequence, replies);
    lemma_then_in_turn(launch, wait_command_done_run(launch.rest));
}

/// Reading the status empties the RX FIFO, runs sequence 2 for four bytes, and drains the FIFO. An
/// error of the command is reported as such. Without one the status is what was received, if four
/// bytes were.
pub proof fn lemma_read_status_outcome(replies: Seq<Reply>)
    ensures
        ({
            let run = read_status_run(replies);
            let command = run_command_run(single(2, 0, 4), replies.skip(1));
            let drain = drain_run(seq![0xEF, 0xBE, 0xAD, 0xDE], 0, 4, command.rest);
            &&& run.issued == seq![Access::ClearRxFifo] + provided(
                replies.len() > 0,
                command.issued + provided(well(command), drain.issued),
            )
            &&& run.outcome == if replies.len() == 0 {
                None
            } else {
                match command.outcome {
                    None => None,
                    Some(Err(error)) => Some(Err(ReadError::WaitFinish(error))),
                    Some(Ok(())) => match drain.outcome {
                        None => None,
                        Some((bytes, count)) => Some(
                            match four_bytes(bytes, count) {
                                Ok(raw) => Ok(Status { raw }),
                                Err(error) => Err(error),
                            },
                        ),
                    },
                }
            }
        }),
{
    reveal(read_status_run);
    let run = read_status_run(replies);
    let command = run_command_run(single(2, 0, 4), replies.skip(1));
    let drain = drain_run(seq![0xEF, 0xBE, 0xAD, 0xDE], 0, 4, command.rest);
    assert(seq![Access::ClearRxFifo] + Seq::<Access>::empty() =~= seq![Access::ClearRxFifo]);
    if replies.len() > 0 {
        let commanded = read_status_commanded(command);
        assert(run.issued == seq![Access::ClearRxFifo] + commanded.issued);
        assert(commanded.issued =~= command.issued + provided(well(command), drain.issued));
        if well(command) && drain.outcome is Some {
            let (bytes, count) = drain.outcome->0;
        }
    }
}

/// What four bytes in a buffer come to when `count` of them were received: the number that they
/// make, the least significant first, or the error that says how many there were.
pub open spec fn four_bytes(bytes: Seq<u8>, count: int) -> Result<u32, ReadError> {
    if count == 4 {
        Ok((bytes[0] + 0x100 * bytes[1] + 0x1_0000 * bytes[2] + 0x100_0000 * bytes[3]) as u32)
    } else {
        Err(ReadError::NotEnoughData(NotEnoughData { expected: 4, actual: count as usize }))
    }
}

/// Reading the flash ID empties the RX FIFO, starts sequence 7 for 64 bytes, waits for data, drains
/// four bytes, and waits for the command. An error of either wait is reported as such, and no
/// other. Without one the ID is what was received, if four bytes were.
pub proof fn lemma_read_id_outcome(replies: Seq<Reply>)
    ensures
        ({
            let run = read_id_run(replies);
            let launch = launch_run(single(7, 0, 64), replies.skip(1));
            let ready = wait_rx_ready_run(launch.rest);
            let drain = drain_run(seq![0xAA, 0xAA, 0xAA, 0xAA], 0, 4, ready.rest);
            let done = wait_command_done_run(drain.rest);
            &&& run.issued == seq![Access::ClearRxFifo] + provided(
                replies.len() > 0,
                launch.issued + provided(
                    launch.outcome is Some,
                    ready.issued + provided(
                        well(ready),
                        drain.issued + provided(drain.outcome is Some, done.issued),
                    ),
                ),
            )
            &&& run.outcome == if replies.len() == 0 || launch.outcome is None {
                None
            } else {
                match ready.outcome {
                    None => None,
                    Some(Err(error)) => Some(Err(ReadError::WaitRx(error))),
                    Some(Ok(())) => match drain.outcome {
                        None => None,
                        Some((bytes, count)) => match done.outcome {
                            None => None,
                            Some(Err(error)) => Some(Err(ReadError::WaitFinish(error))),
                            Some(Ok(())) => Some(four_bytes(bytes, count)),
                        },
                    },
                }
            }
        }),
{
    let run = read_id_run(replies);
    let launch = launch_run(single(7, 0, 64), replies.skip(1));
    let ready = wait_rx_ready_run(launch.rest);
    let drain = drain_run(seq![0xAA, 0xAA, 0xAA, 0xAA], 0, 4, ready.rest);
    let done = wait_command_done_run(drain.rest);
    assert(seq![Access::ClearRxFifo] + Seq::<Access>::empty() =~= seq![Access::ClearRxFifo]);
    if replies.len() > 0 {
        let launched = read_id_launched(launch);
        let readied = read_id_ready(ready);
        let drained = read_id_drained(drain);
        assert(run.issued == seq![Access::ClearRxFifo] + launched.issued);
        if launch.outcome is Some && well(ready) && drain.outcome is Some {
            let (bytes, count) = drain.outcome->0;
            let waited = read_id_waited(bytes, count, done);
            assert(waited.issued =~= done.issued);
        }
        assert(drained.issued =~= drain.issued + provided(drain.outcome is Some, done.issued));
        assert(readied.issued =~= ready.issued + provided(well(ready), drained.issued));
        assert(launched.issued =~= launch.issued + provided(
            launch.outcome is Some,
            readied.issued,
        ));
    }
}

/// When the command ended well and the FIFO was not found empty, the status is the word at the
/// front of the FIFO.
pub proof fn lemma_read_status_success(replies: Seq<Reply>)
    requires
        replies.len() > 0,
    ensures
        ({
            let command = run_command_run(single(2, 0, 4), replies.skip(1));
            let fifo = command.rest;
            well(command) && fifo.len() >= 4 && fifo[1]->RxFill_0 > 0
                ==> read_status_run(replies).outcome == Some(
                Ok::<_, ReadError>(Status { raw: fifo[2]->RxData_0 }),
            )
        }),
{
    let command = run_command_run(single(2, 0, 4), replies.skip(1));
    let fifo = command.rest;
    lemma_read_status_outcome(replies);
    if well(command) && fifo.len() >= 4 && fifo[1]->RxFill_0 > 0 {
        lemma_drain_four(seq![0xEF, 0xBE, 0xAD, 0xDE], fifo);
    }
}

/// When both waits ended well and the FIFO was not found empty, the flash ID is the word at the
/// front of the FIFO.
pub proof fn lemma_read_id_success(replies: Seq<Reply>)
    requires
        replies.len() > 0,
    ensures
        ({
            let launch = launch_run(single(7, 0, 64), replies.skip(1));
            let ready = wait_rx_ready_run(launch.rest);
            let fifo = ready.rest;
            let done = wait_command_done_run(fifo.skip(4));
            launch.outcome is Some && well(ready) && fifo.len() >= 4 && fifo[1]->RxFill_0 > 0
                && well(done) ==> read_id_run(replies).outcome == Some(
                Ok::<_, ReadError>(fifo[2]->RxData_0),
            )
        }),
{
    let launch = launch_run(single(7, 0, 64), replies.skip(1));
    let ready = wait_rx_ready_run(launch.rest);
    let fifo = ready.rest;
    let done = wait_command_done_run(fifo.skip(4));
    lemma_read_id_outcome(replies);
    if launch.outcome is Some && well(ready) && fifo.len() >= 4 && fifo[1]->RxFill_0 > 0 {
        lemma_drain_four(seq![0xAA, 0xAA, 0xAA, 0xAA], fifo);
    }
}

/// Draining four bytes from a FIFO that is not empty takes four accesses and gets the word at the
/// front.
proof fn lemma_drain_four(buffer: Seq<u8>, replies: Seq<Reply>)
    requires
        buffer.len() == 4,
        replies.len() >= 4,
        replies[1]->RxFill_0 > 0,
    ensures
        ({
            let run = drain_run(buffer, 0, 4, replies);
            &&& run.outcome matches Some((bytes, count)) && four_bytes(bytes, count) == Ok::<
                u32,
                ReadError,
            >(replies[2]->RxData_0)
            &&& run.rest == replies.skip(4)
        }),
{
    lemma_drain_exact(buffer, 0, 4, replies);
    let word = replies[2int + 0]->RxData_0;
    let run = drain_run(buffer, 0, 4, replies);
    let (bytes, count) = run.outcome->0;
    assert(count == 4);
    assert(bytes == after_drain(buffer, 0, 4, |word: int| replies[2 + word]->RxData_0));
    assert(bytes[0] == digit(word, 0) as u8);
    assert(bytes[1] == digit(word, 1) as u8);
    assert(bytes[2] == digit(word, 2) as u8);
    assert(bytes[3] == digit(word, 3) as u8);
    lemma_digits(word);
}

/// A word is what its bytes make.
proof fn lemma_digits(word: u32)
    ensures
        forall|index: int| 0 <= index < 4 ==> 0 <= #[trigger] digit(word, index) < 256,
        digit(word, 0) + 0x100 * digit(word, 1) + 0x1_0000 * digit(word, 2) + 0x100_0000 * digit(
            word,
            3,
        ) == word,
{
}

/// Setting the write-enable latch is running sequence 4, without data.
pub proof fn lemma_set_write_enable_outcome(replies: Seq<Reply>)
    ensures
        set_write_enable_run(replies) == run_command_run(single(4, 0, 0), replies),
{
}

/// Enabling writes has ten attempts to set the latch, and begins with the status.
pub proof fn lemma_enable_write_begins(replies: Seq<Reply>)
    ensures
        enable_write_run(replies) == enable_write_status(read_status_run(replies), 10),
{
}

/// What a status leads to while writes are being enabled. One that could not be read is an error,
/// and so is one that shows a write in progress (bit 0). One that shows the latch set (bit 1) ends
/// it well. Any other leads to an attempt to set the latch, if one is left, and then to the next
/// status.
pub proof fn lemma_enable_write_outcome(replies: Seq<Reply>, attempts: nat)
    ensures
        ({
            let status = read_status_run(replies);
            let run = enable_write_status(status, attempts);
            let set = run_command_run(single(4, 0, 0), status.rest);
            let next = enable_write_status(read_status_run(set.rest), (attempts - 1) as nat);
            match status.outcome {
                None => run.issued == status.issued && run.outcome == None::<
                    Result<(), WriteError>,
                >,
                Some(Err(error)) => {
                    &&& run.issued == status.issued
                    &&& run.outcome == Some(Err::<(), _>(WriteError::ReadStatus(error)))
                },
                Some(Ok(found)) => if found.raw & 1 != 0 {
                    &&& run.issued == status.issued
                    &&& run.outcome == Some(Err::<(), _>(WriteError::WriteInProgress))
                } else if found.raw & 2 != 0 {
                    &&& run.issued == status.issued
                    &&& run.outcome == Some(Ok::<(), WriteError>(()))
                } else if attempts == 0 {
                    &&& run.issued == status.issued
                    &&& run.outcome == Some(Err::<(), _>(WriteError::WriteEnableFailed))
                } else {
                    &&& run.issued == status.issued + (set.issued + provided(
                        well(set),
                        next.issued,
                    ))
                    &&& run.outcome == match set.outcome {
                        None => None,
                        Some(Err(error)) => Some(Err(WriteError::SetWriteEnable(error))),
                        Some(Ok(())) => next.outcome,
                    }
                },
            }
        }),
{
    reveal(enable_write_status);
    reveal(enable_write_set);
    let status = read_status_run(replies);
    let run = enable_write_status(status, attempts);
    if status.outcome is Some && status.outcome->0 is Ok {
        let found = status.outcome->0->Ok_0;
        lemma_status_bits(found);
        if !found.busy() && !found.writable() && attempts > 0 {
            let set = set_write_enable_run(status.rest);
            let latched = enable_write_set(set, (attempts - 1) as nat);
            let next = enable_write_status(read_status_run(set.rest), (attempts - 1) as nat);
            assert(latched.issued =~= set.issued + provided(well(set), next.issued));
        } else {
            assert(run.issued =~= status.issued);
        }
    } else {
        assert(run.issued =~= status.issued);
    }
}

/// Waiting for a write to end reads the status until it shows no write in progress (bit 0), or
/// cannot be read.
pub proof fn lemma_wait_write_outcome(replies: Seq<Reply>)
    ensures
        ({
            let status = read_status_run(replies);
            let run = wait_write_run(replies);
            let next = wait_write_run(status.rest);
            match status.outcome {
                None => run.issued == status.issued && run.outcome == None::<
                    Result<(), WriteError>,
                >,
                Some(Err(error)) => {
                    &&& run.issued == status.issued
                    &&& run.outcome == Some(Err::<(), _>(WriteError::ReadStatus(error)))
                },
                Some(Ok(found)) => if found.raw & 1 != 0 {
                    &&& run.issued == status.issued + next.issued
                    &&& run.outcome == next.outcome
                } else {
                    &&& run.issued == status.issued
                    &&& run.outcome == Some(Ok::<(), WriteError>(()))
                },
            }
        }),
{
    reveal(wait_write_run);
    let status = read_status_run(replies);
    let run = wait_write_run(replies);
    if status.outcome is Some && status.outcome->0 is Ok {
        let found = status.outcome->0->Ok_0;
        lemma_status_bits(found);
        lemma_read_status_orderly(replies);
        if !found.busy() {
            assert(run.issued =~= status.issued);
        }
    } else {
        assert(run.issued =~= status.issued);
    }
}

/// What ends a write: waiting for it and, if that ended well, invalidating the cache.
pub proof fn lemma_settle_outcome(replies: Seq<Reply>)
    ensures
        ({
            let wait = wait_write_run(replies);
            let invalidate = invalidate_cache_run(wait.rest);
            let run = settle_run(replies);
            &&& run.issued == wait.issued + provided(well(wait), invalidate.issued)
            &&& run.outcome == match wait.outcome {
                None => None,
                Some(Err(error)) => Some(Err(error)),
                Some(Ok(())) => match invalidate.outcome {
                    None => None,
                    Some(()) => Some(Ok(())),
                },
            }
        }),
{
    let wait = wait_write_run(replies);
    let invalidate = invalidate_cache_run(wait.rest);
    assert(settle_run(replies).issued =~= wait.issued + provided(well(wait), invalidate.issued));
}

/// The commands that erase a sector, a block and the chip are the sequences 5, 8 and 11, at the
/// given address and without data.
pub proof fn lemma_erase_sequences(address: u32)
    ensures
        erase_sequence(ERASE_SECTOR, address) == single(5, address, 0),
        erase_sequence(ERASE_BLOCK, address) == single(8, address, 0),
        erase_sequence(CHIP_ERASE, address) == single(11, address, 0),
{
}

/// Erasing enables writes, then runs the command, then ends the write. Each of these happens only
/// if the one before ended well, and each error is reported as such.
pub proof fn lemma_erase_outcome(sequence: CommandSequence, replies: Seq<Reply>)
    ensures
        ({
            let enable = enable_write_run(replies);
            let command = run_command_run(sequence, enable.rest);
            let settle = settle_run(command.rest);
            let run = erase_run(sequence, replies);
            &&& run.issued == enable.issued + provided(
                well(enable),
                command.issued + provided(well(command), settle.issued),
            )
            &&& run.outcome == match enable.outcome {
                None => None,
                Some(Err(error)) => Some(Err(error)),
                Some(Ok(())) => match command.outcome {
                    None => None,
                    Some(Err(error)) => Some(Err(WriteError::WaitFinish(error))),
                    Some(Ok(())) => settle.outcome,
                },
            }
        }),
{
    let enable = enable_write_run(replies);
    let command = run_command_run(sequence, enable.rest);
    let settle = settle_run(command.rest);
    let commanded = erase_commanded(command);
    assert(commanded.issued =~= command.issued + provided(well(command), settle.issued));
    assert(erase_run(sequence, replies).issued =~= enable.issued + provided(
        well(enable),
        commanded.issued,
    ));
}

/// Programming a page refuses data that does not stay within one page. Any other data enables
/// writes, empties the TX FIFO, starts sequence 9 for the address and the size of the data, and
/// hands the data over.
///
/// The size is announced in 16 bits.
pub proof fn lemma_page_program_outcome(
    address: u32,
    data: Seq<u8>,
    page_size: u32,
    replies: Seq<Reply>,
)
    requires
        page_size > 0 || data.len() > 0,
        data.len() <= u32::MAX,
    ensures
        ({
            let run = page_program_run(address, data, page_size, replies);
            let enable = enable_write_run(replies);
            let more = enable.rest.skip(1);
            let launch = launch_run(single(9, address, (data.len() % 0x1_0000) as u16), more);
            let next = program_data_run(data, launch.rest);
            if page_size == 0 || address as int % page_size as int + data.len() > page_size {
                &&& run.issued == Seq::<Access>::empty()
                &&& run.outcome == Some(
                    Err::<(), _>(
                        PageProgramError::PageBoundaryCrossed(
                            WriteCrossesPageBoundary {
                                address,
                                length: data.len() as u32,
                                page_size,
                            },
                        ),
                    ),
                )
            } else {
                &&& run.issued == enable.issued + provided(
                    well(enable),
                    seq![Access::ClearTxFifo] + provided(
                        enable.rest.len() > 0,
                        launch.issued + provided(launch.outcome is Some, next.issued),
                    ),
                )
                &&& run.outcome == match enable.outcome {
                    None => None,
                    Some(Err(error)) => Some(Err(PageProgramError::WriteFailed(error))),
                    Some(Ok(())) => if enable.rest.len() == 0 || launch.outcome is None {
                        None
                    } else {
                        next.outcome
                    },
                }
            }
        }),
{
    let run = page_program_run(address, data, page_size, replies);
    if page_size > 0 {
        lemma_mod_bound(address as int, page_size as int);
    }
    if page_size > 0 && address as int % page_size as int + data.len() <= page_size {
        let enable = enable_write_run(replies);
        let more = enable.rest.skip(1);
        let launch = launch_run(single(9, address, (data.len() % 0x1_0000) as u16), more);
        let next = program_data_run(data, launch.rest);
        let launched = program_launched(data, launch);
        let cleared = program_clear(address, data, enable.rest);
        assert(launched.issued =~= launch.issued + provided(
            launch.outcome is Some,
            next.issued,
        ));
        assert(cleared.issued =~= seq![Access::ClearTxFifo] + provided(
            enable.rest.len() > 0,
            launched.issued,
        ));
        assert(run.issued =~= enable.issued + provided(well(enable), cleared.issued));
    }
}

/// Handing data over waits for room, fills the FIFO, and goes on with what is left. With nothing
/// left it waits for the command and ends the write. Each error is reported as such.
pub proof fn lemma_program_data_outcome(data: Seq<u8>, replies: Seq<Reply>)
    ensures
        ({
            let run = program_data_run(data, replies);
            if data.len() == 0 {
                let done = wait_command_done_run(replies);
                let settle = settle_run(done.rest);
                &&& run.issued == done.issued + provided(well(done), settle.issued)
                &&& run.outcome == match done.outcome {
                    None => None,
                    Some(Err(error)) => Some(
                        Err(PageProgramError::WriteFailed(WriteError::WaitFinish(error))),
                    ),
                    Some(Ok(())) => match settle.outcome {
                        None => None,
                        Some(Err(error)) => Some(Err(PageProgramError::WriteFailed(error))),
                        Some(Ok(())) => Some(Ok(())),
                    },
                }
            } else {
                let ready = wait_tx_ready_run(replies);
                let fill = fill_run(data, ready.rest);
                let next = program_data_run(data.skip(fill.outcome->0), fill.rest);
                &&& run.issued == ready.issued + provided(
                    well(ready),
                    fill.issued + provided(fill.outcome is Some, next.issued),
                )
                &&& run.outcome == match ready.outcome {
                    None => None,
                    Some(Err(error)) => Some(
                        Err(PageProgramError::WriteFailed(WriteError::WaitTx(error))),
                    ),
                    Some(Ok(())) => if fill.outcome is None {
                        None
                    } else {
                        next.outcome
                    },
                }
            }
        }),
{
    reveal(program_data_run);
    let run = program_data_run(data, replies);
    if data.len() == 0 {
        let done = wait_command_done_run(replies);
        let settle = settle_run(done.rest);
        let settled = program_settled(settle);
        assert(run == program_waited(done));
        assert(settled.issued =~= settle.issued);
        assert(run.issued =~= done.issued + provided(well(done), settle.issued));
    } else {
        let ready = wait_tx_ready_run(replies);
        let fill = fill_run(data, ready.rest);
        let next = program_data_run(data.skip(fill.outcome->0), fill.rest);
        let filled = program_filled(data, fill);
        if ready.outcome is Some {
            lemma_wait_tx_ready_orderly(replies);
            lemma_fill_orderly(data, ready.rest);
            assert(run == program_ready(data, ready));
            assert(filled.issued =~= fill.issued + provided(fill.outcome is Some, next.issued));
            assert(run.issued =~= ready.issued + provided(well(ready), filled.issued));
        } else {
            assert(run.issued =~= ready.issued);
        }
    }
}

/// Reading data empties the RX FIFO and then reads part after part.
pub proof fn lemma_read_begins(parts: Parts, buffer: Seq<u8>, replies: Seq<Reply>)
    ensures
        ({
            let run = read_run(parts, buffer, replies);
            let next = read_chunk_run(parts, buffer, 0, replies.skip(1));
            &&& run.issued == seq![Access::ClearRxFifo] + provided(replies.len() > 0, next.issued)
            &&& run.outcome == if replies.len() == 0 {
                None
            } else {
                next.outcome
            }
        }),
{
    assert(seq![Access::ClearRxFifo] + Seq::<Access>::empty() =~= seq![Access::ClearRxFifo]);
}

/// Where the buffer is filled up to `start`, the next part is read with sequence 0, from the
/// address at that distance and for as many bytes as the part has, which is as many as are left if
/// those are fewer. When nothing is left, reading has ended well.
pub proof fn lemma_read_part_outcome(
    parts: Parts,
    buffer: Seq<u8>,
    start: int,
    replies: Seq<Reply>,
)
    requires
        parts.valid(),
    ensures
        ({
            let run = read_chunk_run(parts, buffer, start, replies);
            let left = buffer.len() - start;
            if left <= 0 {
                &&& run.issued == Seq::<Access>::empty()
                &&& run.outcome == Some((Ok::<(), ReadError>(()), buffer))
            } else {
                let size = if left < parts.size {
                    left
                } else {
                    parts.size as int
                };
                let launch = launch_run(
                    single(0, (parts.address + start) as u32, size as u16),
                    replies,
                );
                let next = read_data_run(parts, buffer, start, start + size, launch.rest);
                &&& run.issued == launch.issued + provided(launch.outcome is Some, next.issued)
                &&& run.outcome == if launch.outcome is None {
                    None
                } else {
                    next.outcome
                }
            }
        }),
{
    reveal(read_chunk_run);
    reveal(read_data_run);
    let run = read_chunk_run(parts, buffer, start, replies);
    let left = buffer.len() - start;
    if left > 0 {
        let size = if left < parts.size {
            left
        } else {
            parts.size as int
        };
        let sequence = single(0, (parts.address + start) as u32, size as u16);
        let launch = launch_run(sequence, replies);
        let next = read_data_run(parts, buffer, start, start + size, launch.rest);
        assert(chunk_end(parts, start, buffer.len() as int) == start + size);
        assert(read_sequence(parts, start, start + size) == sequence);
        lemma_launch_orderly(sequence, replies);
        assert(run == read_launched(parts, buffer, start, start + size, launch));
        assert(run.issued =~= launch.issued + provided(launch.outcome is Some, next.issued));
    }
}

/// Where the buffer is filled up to `filled` and the command delivers what goes up to `end`,
/// reading waits for data, drains it behind what is there, and goes on. At the end it waits for the
/// command, and then the next part is due. Each error is reported as such, with the buffer as it
/// is.
pub proof fn lemma_read_data_outcome(
    parts: Parts,
    buffer: Seq<u8>,
    filled: int,
    end: int,
    replies: Seq<Reply>,
)
    ensures
        ({
            let run = read_data_run(parts, buffer, filled, end, replies);
            if filled < end {
                let ready = wait_rx_ready_run(replies);
                let drain = drain_run(buffer, filled, end, ready.rest);
                let (more, count) = drain.outcome->0;
                let next = read_data_run(parts, more, filled + count, end, drain.rest);
                &&& run.issued == ready.issued + provided(
                    well(ready),
                    drain.issued + provided(drain.outcome is Some, next.issued),
                )
                &&& run.outcome == match ready.outcome {
                    None => None,
                    Some(Err(error)) => Some((Err(ReadError::WaitRx(error)), buffer)),
                    Some(Ok(())) => if drain.outcome is None {
                        None
                    } else {
                        next.outcome
                    },
                }
            } else {
                let done = wait_command_done_run(replies);
                let next = read_chunk_run(parts, buffer, end, done.rest);
                &&& run.issued == done.issued + provided(well(done), next.issued)
                &&& run.outcome == match done.outcome {
                    None => None,
                    Some(Err(error)) => Some((Err(ReadError::WaitFinish(error)), buffer)),
                    Some(Ok(())) => next.outcome,
                }
            }
        }),
{
    reveal(read_data_run);
    reveal(read_chunk_run);
    let run = read_data_run(parts, buffer, filled, end, replies);
    if filled < end {
        let ready = wait_rx_ready_run(replies);
        let drain = drain_run(buffer, filled, end, ready.rest);
        let (more, count) = drain.outcome->0;
        let next = read_data_run(parts, more, filled + count, end, drain.rest);
        let drained = read_drained(parts, filled, end, drain);
        if ready.outcome is Some {
            lemma_wait_rx_ready_orderly(replies);
            lemma_drain_orderly(buffer, filled, end, ready.rest);
            assert(run == read_ready(parts, buffer, filled, end, ready));
            assert(drained.issued =~= drain.issued + provided(
                drain.outcome is Some,
                next.issued,
            ));
            assert(run.issued =~= ready.issued + provided(well(ready), drained.issued));
        } else {
            assert(run.issued =~= ready.issued);
        }
    } else {
        let done = wait_command_done_run(replies);
        let next = read_chunk_run(parts, buffer, end, done.rest);
        if done.outcome is Some {
            lemma_wait_command_done_orderly(replies);
            assert(run == read_waited(parts, buffer, end, done));
            assert(run.issued =~= done.issued + provided(well(done), next.issued));
        } else {
            assert(run.issued =~= done.issued);
        }
    }
}

} // verus!
