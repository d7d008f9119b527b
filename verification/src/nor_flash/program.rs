//! Programming a page.

use crate::nor_flash::erase::{lemma_settle_orderly, settle_run, SettleWrite};
use crate::nor_flash::sequence::PAGE_PROGRAM;
use crate::nor_flash::write_enable::{enable_write_run, lemma_enable_write_orderly, EnableWrite};
use crate::nor_flash::{
    page_offset_defined, within_page, PageProgramError, WriteCrossesPageBoundary, WriteError,
};
use crate::peripheral::command::{launch_run, lemma_launch_orderly, LaunchCommand};
use crate::peripheral::fifo::{fill_run, lemma_fill_orderly, FillTxFifo};
use crate::peripheral::wait::{
    lemma_wait_command_done_orderly, lemma_wait_tx_ready_orderly, wait_command_done_run,
    wait_tx_ready_run, WaitCommandDone, WaitTxReady,
};
use crate::peripheral::{CommandSequence, WaitCommandError, WaitTxReadyError};
use crate::procedure::{exchange, finished, group_orderly, group_procedure, then, Procedure, Run};
use crate::registers::{Access, Reply};
use vstd::prelude::*;
use vstd::slice::slice_subrange;

verus! {

broadcast use group_procedure;

/// The command that programs `length` bytes at `address`.
///
/// The peripheral takes the length in 16 bits.
pub open spec fn page_program_sequence(address: u32, length: int) -> CommandSequence {
    CommandSequence {
        start: PAGE_PROGRAM,
        count: 1,
        address,
        data_size: (length % 0x1_0000) as u16,
        parallel: false,
    }
}

/// Programming `data` at `address`, unless that crosses the boundary of a page.
pub open spec fn page_program_run(
    address: u32,
    data: Seq<u8>,
    page_size: u32,
    replies: Seq<Reply>,
) -> Run<Result<(), PageProgramError>> {
    if within_page(address, data.len() as int, page_size) {
        program_enabled(address, data, enable_write_run(replies))
    } else {
        finished(
            Err(
                PageProgramError::PageBoundaryCrossed(
                    WriteCrossesPageBoundary { address, length: data.len() as u32, page_size },
                ),
            ),
            replies,
        )
    }
}

/// Programming a page, from the point where `enable` enables writing.
pub open spec fn program_enabled(
    address: u32,
    data: Seq<u8>,
    enable: Run<Result<(), WriteError>>,
) -> Run<Result<(), PageProgramError>> {
    then(
        enable,
        match enable.outcome->0 {
            Err(error) => finished(Err(PageProgramError::WriteFailed(error)), enable.rest),
            Ok(()) => program_clear(address, data, enable.rest),
        },
    )
}

/// Programming a page, from the point where the TX FIFO is emptied.
pub open spec fn program_clear(address: u32, data: Seq<u8>, replies: Seq<Reply>) -> Run<
    Result<(), PageProgramError>,
> {
    exchange(
        Access::ClearTxFifo,
        replies,
        program_launched(
            data,
            launch_run(page_program_sequence(address, data.len() as int), replies.skip(1)),
        ),
    )
}

/// Programming a page, from the point where `launch` starts the command.
pub open spec fn program_launched(data: Seq<u8>, launch: Run<()>) -> Run<
    Result<(), PageProgramError>,
> {
    then(launch, program_data_run(data, launch.rest))
}

/// Programming a page, where `data` still has to go through the TX FIFO.
#[verifier::opaque]
pub open spec fn program_data_run(data: Seq<u8>, replies: Seq<Reply>) -> Run<
    Result<(), PageProgramError>,
>
    decreases replies.len(), 0int,
{
    if data.len() == 0 {
        program_waited(wait_command_done_run(replies))
    } else {
        let wait = wait_tx_ready_run(replies);
        if wait.outcome is Some {
            proof {
                lemma_wait_tx_ready_orderly(replies);
            }
            program_ready(data, wait)
        } else {
            Run { issued: wait.issued, outcome: None, rest: wait.rest }
        }
    }
}

/// Programming a page, from the point where `wait` waits for room in the TX FIFO.
pub open spec fn program_ready(data: Seq<u8>, wait: Run<Result<(), WaitTxReadyError>>) -> Run<
    Result<(), PageProgramError>,
>
    decreases wait.rest.len(), 2int,
{
    then(
        wait,
        match wait.outcome->0 {
            Err(error) => finished(
                Err(PageProgramError::WriteFailed(WriteError::WaitTx(error))),
                wait.rest,
            ),
            Ok(()) => {
                proof {
                    lemma_fill_orderly(data, wait.rest);
                }
                program_filled(data, fill_run(data, wait.rest))
            },
        },
    )
}

/// Programming a page, from the point where `fill` fills the TX FIFO with the start of `data`.
pub open spec fn program_filled(data: Seq<u8>, fill: Run<int>) -> Run<Result<(), PageProgramError>>
    decreases fill.rest.len(), 1int,
{
    then(fill, program_data_run(data.skip(fill.outcome->0), fill.rest))
}

/// Programming a page, from the point where `wait` waits for the command to be done.
pub open spec fn program_waited(wait: Run<Result<(), WaitCommandError>>) -> Run<
    Result<(), PageProgramError>,
> {
    then(
        wait,
        match wait.outcome->0 {
            Err(error) => finished(
                Err(PageProgramError::WriteFailed(WriteError::WaitFinish(error))),
                wait.rest,
            ),
            Ok(()) => program_settled(settle_run(wait.rest)),
        },
    )
}

/// Programming a page, from the point where `settle` ends the write.
pub open spec fn program_settled(settle: Run<Result<(), WriteError>>) -> Run<
    Result<(), PageProgramError>,
> {
    then(
        settle,
        finished(
            match settle.outcome->0 {
                Err(error) => Err(PageProgramError::WriteFailed(error)),
                Ok(()) => Ok(()),
            },
            settle.rest,
        ),
    )
}

proof fn lemma_program_waited_orderly(
    wait: Run<Result<(), WaitCommandError>>,
    replies: Seq<Reply>,
)
    requires
        wait.orderly(replies),
    ensures
        program_waited(wait).orderly(replies),
{
    broadcast use group_orderly;

    lemma_settle_orderly(wait.rest);
}

proof fn lemma_program_data_orderly(data: Seq<u8>, replies: Seq<Reply>)
    ensures
        program_data_run(data, replies).orderly(replies),
    decreases replies.len(),
{
    broadcast use group_orderly;

    reveal(program_data_run);
    if data.len() == 0 {
        lemma_wait_command_done_orderly(replies);
        lemma_program_waited_orderly(wait_command_done_run(replies), replies);
    } else {
        let wait = wait_tx_ready_run(replies);
        lemma_wait_tx_ready_orderly(replies);
        if wait.outcome is Some {
            let fill = fill_run(data, wait.rest);
            lemma_fill_orderly(data, wait.rest);
            lemma_program_data_orderly(data.skip(fill.outcome->0), fill.rest);
            assert(program_filled(data, fill).orderly(wait.rest));
            assert(program_ready(data, wait).orderly(replies));
        }
    }
}

/// Programming a page is orderly.
pub proof fn lemma_page_program_orderly(
    address: u32,
    data: Seq<u8>,
    page_size: u32,
    replies: Seq<Reply>,
)
    ensures
        page_program_run(address, data, page_size, replies).orderly(replies),
{
    broadcast use group_orderly;

    let enable = enable_write_run(replies);
    lemma_enable_write_orderly(replies);
    let sequence = page_program_sequence(address, data.len() as int);
    let launch = launch_run(sequence, enable.rest.skip(1));
    lemma_launch_orderly(sequence, enable.rest.skip(1));
    lemma_program_data_orderly(data, launch.rest);
    assert(program_launched(data, launch).orderly(enable.rest.skip(1)));
    assert(program_clear(address, data, enable.rest).orderly(enable.rest));
}

/// Programs a page.
#[derive(Debug)]
pub struct PageProgram<'d> {
    address: u32,
    data: &'d [u8],
    phase: ProgramPhase<'d>,
}

#[derive(Debug)]
enum ProgramPhase<'d> {
    Enable(EnableWrite),
    ClearFifo,
    Launch(LaunchCommand),
    Ready(WaitTxReady),
    Fill(FillTxFifo<'d>),
    Wait(WaitCommandDone),
    Settle(SettleWrite),
    Over(Result<(), PageProgramError>),
}

impl<'d> PageProgram<'d> {
    /// Checks the page boundary and, if it is respected, starts with enabling writes.
    pub fn new(address: u32, data: &'d [u8], page_size: u32) -> (program: Self)
        requires
            data@.len() <= u32::MAX,
            page_offset_defined(data@.len() as int, page_size),
        ensures
            program.inv(),
            forall|replies: Seq<Reply>|
                #[trigger] program.run(replies) == page_program_run(
                    address,
                    data@,
                    page_size,
                    replies,
                ),
    {
        match WriteCrossesPageBoundary::check(address, data.len() as u32, page_size) {
            Err(error) => {
                let error = PageProgramError::PageBoundaryCrossed(error);
                PageProgram { address, data, phase: ProgramPhase::Over(Err(error)) }
            },
            Ok(()) => PageProgram::enabling(address, data, EnableWrite::new()),
        }
    }

    fn enabling(address: u32, data: &'d [u8], enable: EnableWrite) -> (program: Self)
        requires
            enable.inv(),
        ensures
            program.inv(),
            forall|replies: Seq<Reply>|
                #[trigger] program.run(replies) == program_enabled(
                    address,
                    data@,
                    enable.run(replies),
                ),
    {
        if enable.pending().is_some() {
            return PageProgram { address, data, phase: ProgramPhase::Enable(enable) };
        }
        match enable.finish() {
            Err(error) => {
                let error = PageProgramError::WriteFailed(error);
                PageProgram { address, data, phase: ProgramPhase::Over(Err(error)) }
            },
            Ok(()) => PageProgram { address, data, phase: ProgramPhase::ClearFifo },
        }
    }

    fn launching(address: u32, data: &'d [u8], launch: LaunchCommand) -> (program: Self)
        requires
            launch.inv(),
        ensures
            program.inv(),
            forall|replies: Seq<Reply>|
                #[trigger] program.run(replies) == program_launched(data@, launch.run(replies)),
    {
        if launch.pending().is_some() {
            return PageProgram { address, data, phase: ProgramPhase::Launch(launch) };
        }
        launch.finish();
        PageProgram::sending(address, data)
    }

    fn sending(address: u32, data: &'d [u8]) -> (program: Self)
        ensures
            program.inv(),
            forall|replies: Seq<Reply>|
                #[trigger] program.run(replies) == program_data_run(data@, replies),
    {
        reveal(program_data_run);
        if data.is_empty() {
            return PageProgram::waiting(address, data, WaitCommandDone::new());
        }
        proof {
            lemma_wait_tx_ready_orderly(Seq::empty());
        }
        PageProgram { address, data, phase: ProgramPhase::Ready(WaitTxReady::new()) }
    }

    fn making_room(address: u32, data: &'d [u8], wait: WaitTxReady) -> (program: Self)
        requires
            wait.inv(),
        ensures
            program.inv(),
            forall|replies: Seq<Reply>|
                #[trigger] program.run(replies) == program_ready(data@, wait.run(replies)),
    {
        if wait.pending().is_some() {
            return PageProgram { address, data, phase: ProgramPhase::Ready(wait) };
        }
        match wait.finish() {
            Err(error) => {
                let error = PageProgramError::WriteFailed(WriteError::WaitTx(error));
                PageProgram { address, data, phase: ProgramPhase::Over(Err(error)) }
            },
            Ok(()) => PageProgram::filling(address, data, FillTxFifo::new(data)),
        }
    }

    fn filling(address: u32, data: &'d [u8], fill: FillTxFifo<'d>) -> (program: Self)
        requires
            fill.inv(),
            fill.available() == data@.len(),
        ensures
            program.inv(),
            forall|replies: Seq<Reply>|
                #[trigger] program.run(replies) == program_filled(data@, fill.run(replies)),
    {
        if fill.pending().is_some() {
            return PageProgram { address, data, phase: ProgramPhase::Fill(fill) };
        }
        reveal(program_data_run);
        let written: usize = fill.finish();
        let rest = slice_subrange(data, written, data.len());
        assert(rest@ =~= data@.skip(written as int));
        PageProgram::sending(address, rest)
    }

    fn waiting(address: u32, data: &'d [u8], wait: WaitCommandDone) -> (program: Self)
        requires
            wait.inv(),
        ensures
            program.inv(),
            forall|replies: Seq<Reply>|
                #[trigger] program.run(replies) == program_waited(wait.run(replies)),
    {
        if wait.pending().is_some() {
            return PageProgram { address, data, phase: ProgramPhase::Wait(wait) };
        }
        match wait.finish() {
            Err(error) => {
                let error = PageProgramError::WriteFailed(WriteError::WaitFinish(error));
                PageProgram { address, data, phase: ProgramPhase::Over(Err(error)) }
            },
            Ok(()) => PageProgram::settling(address, data, SettleWrite::new()),
        }
    }

    fn settling(address: u32, data: &'d [u8], settle: SettleWrite) -> (program: Self)
        requires
            settle.inv(),
        ensures
            program.inv(),
            forall|replies: Seq<Reply>|
                #[trigger] program.run(replies) == program_settled(settle.run(replies)),
    {
        if settle.pending().is_some() {
            return PageProgram { address, data, phase: ProgramPhase::Settle(settle) };
        }
        let result = match settle.finish() {
            Err(error) => Err(PageProgramError::WriteFailed(error)),
            Ok(()) => Ok(()),
        };
        PageProgram { address, data, phase: ProgramPhase::Over(result) }
    }
}

impl<'d> Procedure for PageProgram<'d> {
    type Output = Result<(), PageProgramError>;

    type Value = Result<(), PageProgramError>;

    open spec fn value(output: Self::Output) -> Self::Value {
        output
    }

    closed spec fn inv(&self) -> bool {
        match self.phase {
            ProgramPhase::Enable(enable) => enable.inv() && enable.run(
                Seq::empty(),
            ).outcome is None,
            ProgramPhase::ClearFifo => true,
            ProgramPhase::Launch(launch) => launch.inv() && launch.run(
                Seq::empty(),
            ).outcome is None,
            ProgramPhase::Ready(wait) => wait.inv() && wait.run(Seq::empty()).outcome is None,
            ProgramPhase::Fill(fill) => {
                &&& fill.inv()
                &&& fill.available() == self.data@.len()
                &&& fill.run(Seq::empty()).outcome is None
            },
            ProgramPhase::Wait(wait) => wait.inv() && wait.run(Seq::empty()).outcome is None,
            ProgramPhase::Settle(settle) => settle.inv() && settle.run(
                Seq::empty(),
            ).outcome is None,
            ProgramPhase::Over(_) => true,
        }
    }

    closed spec fn run(&self, replies: Seq<Reply>) -> Run<Self::Value> {
        match self.phase {
            ProgramPhase::Enable(enable) => program_enabled(
                self.address,
                self.data@,
                enable.run(replies),
            ),
            ProgramPhase::ClearFifo => program_clear(self.address, self.data@, replies),
            ProgramPhase::Launch(launch) => program_launched(self.data@, launch.run(replies)),
            ProgramPhase::Ready(wait) => program_ready(self.data@, wait.run(replies)),
            ProgramPhase::Fill(fill) => program_filled(self.data@, fill.run(replies)),
            ProgramPhase::Wait(wait) => program_waited(wait.run(replies)),
            ProgramPhase::Settle(settle) => program_settled(settle.run(replies)),
            ProgramPhase::Over(result) => finished(result, replies),
        }
    }

    fn pending(&self) -> (access: Option<Access>) {
        match &self.phase {
            ProgramPhase::Enable(enable) => enable.pending(),
            ProgramPhase::ClearFifo => Some(Access::ClearTxFifo),
            ProgramPhase::Launch(launch) => launch.pending(),
            ProgramPhase::Ready(wait) => wait.pending(),
            ProgramPhase::Fill(fill) => fill.pending(),
            ProgramPhase::Wait(wait) => wait.pending(),
            ProgramPhase::Settle(settle) => settle.pending(),
            ProgramPhase::Over(_) => None,
        }
    }

    fn step(self, reply: Reply) -> (next: Self) {
        let PageProgram { address, data, phase } = self;
        match phase {
            ProgramPhase::Enable(enable) => PageProgram::enabling(
                address,
                data,
                enable.step(reply),
            ),
            ProgramPhase::ClearFifo => {
                let sequence = CommandSequence {
                    start: PAGE_PROGRAM,
                    count: 1,
                    address,
                    data_size: (data.len() % 0x1_0000) as u16,
                    parallel: false,
                };
                PageProgram::launching(address, data, LaunchCommand::new(sequence))
            },
            ProgramPhase::Launch(launch) => PageProgram::launching(
                address,
                data,
                launch.step(reply),
            ),
            ProgramPhase::Ready(wait) => PageProgram::making_room(address, data, wait.step(reply)),
            ProgramPhase::Fill(fill) => PageProgram::filling(address, data, fill.step(reply)),
            ProgramPhase::Wait(wait) => PageProgram::waiting(address, data, wait.step(reply)),
            ProgramPhase::Settle(settle) => PageProgram::settling(
                address,
                data,
                settle.step(reply),
            ),
            ProgramPhase::Over(_) => unreached(),
        }
    }

    fn finish(self) -> (output: Self::Output) {
        match self.phase {
            ProgramPhase::Over(result) => result,
            _ => unreached(),
        }
    }
}

} // verus!
