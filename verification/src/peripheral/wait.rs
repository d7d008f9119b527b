//! Waiting for a command to finish or to make progress.

use crate::peripheral::check::{
    check_ended_run, clear_run, command_finished_bits, lemma_check_ended_orderly, CheckEnded,
};
use crate::peripheral::{WaitCommandError, WaitTxReadyError};
use crate::procedure::{
    exchange, finished, group_orderly, group_procedure, then, Procedure, Run,
};
use crate::registers::{Access, Interrupts, Reply};
use vstd::prelude::*;

verus! {

broadcast use group_procedure;

/// Looking at the peripheral once: whether the arbiter is idle, and which flags are set.
///
/// The arbiter is looked at first. So, when it is seen idle and the command is not seen finished
/// afterwards, the command did not finish. Of a command that failed nothing stays flagged.
pub open spec fn poll_run(replies: Seq<Reply>) -> Run<
    Result<(bool, Interrupts), WaitCommandError>,
> {
    exchange(
        Access::ReadStatus0,
        replies,
        poll_check(replies[0].arbidle(), check_ended_run(replies.skip(1))),
    )
}

/// Looking at the peripheral once, from the point where `check` checks the flags.
pub open spec fn poll_check(
    idle: bool,
    check: Run<Result<Interrupts, WaitCommandError>>,
) -> Run<Result<(bool, Interrupts), WaitCommandError>> {
    then(
        check,
        finished(
            match check.outcome->0 {
                Ok(flags) => Ok((idle, flags)),
                Err(error) => Err(error),
            },
            check.rest,
        ),
    )
}

/// Looking at the peripheral is orderly.
pub proof fn lemma_poll_orderly(replies: Seq<Reply>)
    ensures
        poll_run(replies).orderly(replies),
        poll_run(replies).issued.len() > 0,
{
    broadcast use group_orderly;

    if replies.len() > 0 {
        lemma_check_ended_orderly(replies.skip(1));
    }
}

/// Waiting for the command to be done, and clearing the flag that says so.
///
/// An error is reported by the first look that shows one.
#[verifier::opaque]
pub open spec fn wait_command_done_run(replies: Seq<Reply>) -> Run<Result<(), WaitCommandError>>
    decreases replies.len(), 0int,
{
    let poll = poll_run(replies);
    if poll.outcome is Some {
        proof {
            lemma_poll_orderly(replies);
        }
        wait_command_done_polled(poll)
    } else {
        Run { issued: poll.issued, outcome: None, rest: poll.rest }
    }
}

/// Waiting for the command to be done, from the point where `poll` looks at the peripheral.
pub open spec fn wait_command_done_polled(
    poll: Run<Result<(bool, Interrupts), WaitCommandError>>,
) -> Run<Result<(), WaitCommandError>>
    decreases poll.rest.len(), 1int,
{
    then(
        poll,
        match poll.outcome->0 {
            Err(error) => finished(Err(error), poll.rest),
            Ok((idle, flags)) => {
                if flags.ipcmddone {
                    clear_run(flags.finished(), Ok(()), poll.rest)
                } else if idle {
                    finished(Err(WaitCommandError::ArbiterIdle), poll.rest)
                } else {
                    wait_command_done_run(poll.rest)
                }
            },
        },
    )
}

/// Waiting for data in the RX FIFO, or for the command to be done.
///
/// No flag is cleared unless it reports an error: a command that is done stays flagged for
/// whoever waits for that.
#[verifier::opaque]
pub open spec fn wait_rx_ready_run(replies: Seq<Reply>) -> Run<Result<(), WaitCommandError>>
    decreases replies.len(), 0int,
{
    let poll = poll_run(replies);
    if poll.outcome is Some {
        proof {
            lemma_poll_orderly(replies);
        }
        wait_rx_ready_polled(poll)
    } else {
        Run { issued: poll.issued, outcome: None, rest: poll.rest }
    }
}

/// Waiting for data in the RX FIFO, from the point where `poll` looks at the peripheral.
pub open spec fn wait_rx_ready_polled(
    poll: Run<Result<(bool, Interrupts), WaitCommandError>>,
) -> Run<Result<(), WaitCommandError>>
    decreases poll.rest.len(), 1int,
{
    then(
        poll,
        match poll.outcome->0 {
            Err(error) => finished(Err(error), poll.rest),
            Ok((idle, flags)) => {
                if flags.ipcmddone || flags.iprxwa {
                    finished(Ok(()), poll.rest)
                } else if idle {
                    finished(Err(WaitCommandError::ArbiterIdle), poll.rest)
                } else {
                    wait_rx_ready_run(poll.rest)
                }
            },
        },
    )
}

/// Waiting for room in the TX FIFO.
///
/// A command that is done takes no more data: that is an error, and its flag is cleared.
#[verifier::opaque]
pub open spec fn wait_tx_ready_run(replies: Seq<Reply>) -> Run<Result<(), WaitTxReadyError>>
    decreases replies.len(), 0int,
{
    let poll = poll_run(replies);
    if poll.outcome is Some {
        proof {
            lemma_poll_orderly(replies);
        }
        wait_tx_ready_polled(poll)
    } else {
        Run { issued: poll.issued, outcome: None, rest: poll.rest }
    }
}

/// Waiting for room in the TX FIFO, from the point where `poll` looks at the peripheral.
pub open spec fn wait_tx_ready_polled(
    poll: Run<Result<(bool, Interrupts), WaitCommandError>>,
) -> Run<Result<(), WaitTxReadyError>>
    decreases poll.rest.len(), 1int,
{
    then(
        poll,
        match poll.outcome->0 {
            Err(error) => finished(Err(WaitTxReadyError::CommandError(error)), poll.rest),
            Ok((idle, flags)) => {
                if flags.ipcmddone {
                    clear_run(
                        flags.finished(),
                        Err(WaitTxReadyError::CommandFinished),
                        poll.rest,
                    )
                } else if flags.iptxwe {
                    finished(Ok(()), poll.rest)
                } else if idle {
                    finished(
                        Err(WaitTxReadyError::CommandError(WaitCommandError::ArbiterIdle)),
                        poll.rest,
                    )
                } else {
                    wait_tx_ready_run(poll.rest)
                }
            },
        },
    )
}

/// Waiting for the command to be done is orderly.
pub proof fn lemma_wait_command_done_orderly(replies: Seq<Reply>)
    ensures
        wait_command_done_run(replies).orderly(replies),
        wait_command_done_run(replies).issued.len() > 0,
    decreases replies.len(),
{
    broadcast use group_orderly;

    reveal(wait_command_done_run);
    lemma_poll_orderly(replies);
    let poll = poll_run(replies);
    if poll.outcome is Some {
        lemma_wait_command_done_orderly(poll.rest);
    }
}

/// Waiting for data in the RX FIFO is orderly.
pub proof fn lemma_wait_rx_ready_orderly(replies: Seq<Reply>)
    ensures
        wait_rx_ready_run(replies).orderly(replies),
        wait_rx_ready_run(replies).issued.len() > 0,
    decreases replies.len(),
{
    broadcast use group_orderly;

    reveal(wait_rx_ready_run);
    lemma_poll_orderly(replies);
    let poll = poll_run(replies);
    if poll.outcome is Some {
        lemma_wait_rx_ready_orderly(poll.rest);
    }
}

/// Waiting for room in the TX FIFO is orderly.
pub proof fn lemma_wait_tx_ready_orderly(replies: Seq<Reply>)
    ensures
        wait_tx_ready_run(replies).orderly(replies),
        wait_tx_ready_run(replies).issued.len() > 0,
    decreases replies.len(),
{
    broadcast use group_orderly;

    reveal(wait_tx_ready_run);
    lemma_poll_orderly(replies);
    let poll = poll_run(replies);
    if poll.outcome is Some {
        lemma_wait_tx_ready_orderly(poll.rest);
    }
}

/// Looks at the peripheral once.
#[derive(Copy, Clone, Debug)]
pub struct Poll {
    phase: PollPhase,
}

#[derive(Copy, Clone, Debug)]
enum PollPhase {
    ReadStatus,
    Check(bool, CheckEnded),
    Over(Result<(bool, Interrupts), WaitCommandError>),
}

impl Poll {
    /// Starts with the state of the arbiter.
    pub fn new() -> (poll: Self)
        ensures
            poll.inv(),
            forall|replies: Seq<Reply>| #[trigger] poll.run(replies) == poll_run(replies),
    {
        Poll { phase: PollPhase::ReadStatus }
    }

    fn checking(idle: bool, check: CheckEnded) -> (poll: Self)
        requires
            check.inv(),
        ensures
            poll.inv(),
            forall|replies: Seq<Reply>|
                #[trigger] poll.run(replies) == poll_check(idle, check.run(replies)),
    {
        if check.pending().is_some() {
            return Poll { phase: PollPhase::Check(idle, check) };
        }
        let result = match check.finish() {
            Ok(flags) => Ok((idle, flags)),
            Err(error) => Err(error),
        };
        Poll { phase: PollPhase::Over(result) }
    }
}

impl Procedure for Poll {
    type Output = Result<(bool, Interrupts), WaitCommandError>;

    type Value = Result<(bool, Interrupts), WaitCommandError>;

    open spec fn value(output: Self::Output) -> Self::Value {
        output
    }

    closed spec fn inv(&self) -> bool {
        match self.phase {
            PollPhase::Check(_, check) => check.inv() && check.run(Seq::empty()).outcome is None,
            _ => true,
        }
    }

    closed spec fn run(&self, replies: Seq<Reply>) -> Run<Self::Value> {
        match self.phase {
            PollPhase::ReadStatus => poll_run(replies),
            PollPhase::Check(idle, check) => poll_check(idle, check.run(replies)),
            PollPhase::Over(result) => finished(result, replies),
        }
    }

    fn pending(&self) -> (access: Option<Access>) {
        match &self.phase {
            PollPhase::ReadStatus => Some(Access::ReadStatus0),
            PollPhase::Check(_, check) => check.pending(),
            PollPhase::Over(_) => None,
        }
    }

    fn step(self, reply: Reply) -> (next: Self) {
        match (self.phase, reply) {
            (PollPhase::ReadStatus, Reply::Status0(idle)) => {
                Poll::checking(idle, CheckEnded::new())
            },
            (PollPhase::Check(idle, check), _) => Poll::checking(idle, check.step(reply)),
            _ => unreached(),
        }
    }

    fn finish(self) -> (output: Self::Output) {
        match self.phase {
            PollPhase::Over(result) => result,
            _ => unreached(),
        }
    }
}

/// Waits for the command to be done.
#[derive(Copy, Clone, Debug)]
pub struct WaitCommandDone {
    phase: WaitCommandDonePhase,
}

#[derive(Copy, Clone, Debug)]
enum WaitCommandDonePhase {
    Poll(Poll),
    Clear(Interrupts),
    Over(Result<(), WaitCommandError>),
}

impl WaitCommandDone {
    /// Starts with a first look at the peripheral.
    pub fn new() -> (wait: Self)
        ensures
            wait.inv(),
            forall|replies: Seq<Reply>|
                #[trigger] wait.run(replies) == wait_command_done_run(replies),
    {
        reveal(wait_command_done_run);
        WaitCommandDone { phase: WaitCommandDonePhase::Poll(Poll::new()) }
    }

    fn polling(poll: Poll) -> (wait: Self)
        requires
            poll.inv(),
        ensures
            wait.inv(),
            forall|replies: Seq<Reply>|
                #[trigger] wait.run(replies) == wait_command_done_polled(poll.run(replies)),
    {
        reveal(wait_command_done_run);
        if poll.pending().is_some() {
            return WaitCommandDone { phase: WaitCommandDonePhase::Poll(poll) };
        }
        match poll.finish() {
            Err(error) => WaitCommandDone { phase: WaitCommandDonePhase::Over(Err(error)) },
            Ok((idle, flags)) => {
                if flags.ipcmddone {
                    WaitCommandDone { phase: WaitCommandDonePhase::Clear(flags) }
                } else if idle {
                    let error = WaitCommandError::ArbiterIdle;
                    WaitCommandDone { phase: WaitCommandDonePhase::Over(Err(error)) }
                } else {
                    WaitCommandDone::new()
                }
            },
        }
    }
}

impl Procedure for WaitCommandDone {
    type Output = Result<(), WaitCommandError>;

    type Value = Result<(), WaitCommandError>;

    open spec fn value(output: Self::Output) -> Self::Value {
        output
    }

    closed spec fn inv(&self) -> bool {
        match self.phase {
            WaitCommandDonePhase::Poll(poll) => {
                poll.inv() && poll.run(Seq::empty()).outcome is None
            },
            _ => true,
        }
    }

    closed spec fn run(&self, replies: Seq<Reply>) -> Run<Self::Value> {
        match self.phase {
            WaitCommandDonePhase::Poll(poll) => wait_command_done_polled(poll.run(replies)),
            WaitCommandDonePhase::Clear(flags) => clear_run(
                flags.finished(),
                Ok(()),
                replies,
            ),
            WaitCommandDonePhase::Over(result) => finished(result, replies),
        }
    }

    fn pending(&self) -> (access: Option<Access>) {
        match &self.phase {
            WaitCommandDonePhase::Poll(poll) => poll.pending(),
            WaitCommandDonePhase::Clear(flags) => Some(
                Access::ClearInterrupts(command_finished_bits(flags)),
            ),
            WaitCommandDonePhase::Over(_) => None,
        }
    }

    fn step(self, reply: Reply) -> (next: Self) {
        match self.phase {
            WaitCommandDonePhase::Poll(poll) => WaitCommandDone::polling(poll.step(reply)),
            WaitCommandDonePhase::Clear(_) => {
                WaitCommandDone { phase: WaitCommandDonePhase::Over(Ok(())) }
            },
            WaitCommandDonePhase::Over(_) => unreached(),
        }
    }

    fn finish(self) -> (output: Self::Output) {
        match self.phase {
            WaitCommandDonePhase::Over(result) => result,
            _ => unreached(),
        }
    }
}

/// Waits for data in the RX FIFO.
#[derive(Copy, Clone, Debug)]
pub struct WaitRxReady {
    phase: WaitRxReadyPhase,
}

#[derive(Copy, Clone, Debug)]
enum WaitRxReadyPhase {
    Poll(Poll),
    Over(Result<(), WaitCommandError>),
}

impl WaitRxReady {
    /// Starts with a first look at the peripheral.
    pub fn new() -> (wait: Self)
        ensures
            wait.inv(),
            forall|replies: Seq<Reply>|
                #[trigger] wait.run(replies) == wait_rx_ready_run(replies),
    {
        reveal(wait_rx_ready_run);
        WaitRxReady { phase: WaitRxReadyPhase::Poll(Poll::new()) }
    }

    fn polling(poll: Poll) -> (wait: Self)
        requires
            poll.inv(),
        ensures
            wait.inv(),
            forall|replies: Seq<Reply>|
                #[trigger] wait.run(replies) == wait_rx_ready_polled(poll.run(replies)),
    {
        reveal(wait_rx_ready_run);
        if poll.pending().is_some() {
            return WaitRxReady { phase: WaitRxReadyPhase::Poll(poll) };
        }
        match poll.finish() {
            Err(error) => WaitRxReady { phase: WaitRxReadyPhase::Over(Err(error)) },
            Ok((idle, flags)) => {
                if flags.ipcmddone || flags.iprxwa {
                    // The FIFO fill level is left to the caller, who knows how much data to
                    // expect.
                    WaitRxReady { phase: WaitRxReadyPhase::Over(Ok(())) }
                } else if idle {
                    let error = WaitCommandError::ArbiterIdle;
                    WaitRxReady { phase: WaitRxReadyPhase::Over(Err(error)) }
                } else {
                    WaitRxReady::new()
                }
            },
        }
    }
}

impl Procedure for WaitRxReady {
    type Output = Result<(), WaitCommandError>;

    type Value = Result<(), WaitCommandError>;

    open spec fn value(output: Self::Output) -> Self::Value {
        output
    }

    closed spec fn inv(&self) -> bool {
        match self.phase {
            WaitRxReadyPhase::Poll(poll) => poll.inv() && poll.run(Seq::empty()).outcome is None,
            _ => true,
        }
    }

    closed spec fn run(&self, replies: Seq<Reply>) -> Run<Self::Value> {
        match self.phase {
            WaitRxReadyPhase::Poll(poll) => wait_rx_ready_polled(poll.run(replies)),
            WaitRxReadyPhase::Over(result) => finished(result, replies),
        }
    }

    fn pending(&self) -> (access: Option<Access>) {
        match &self.phase {
            WaitRxReadyPhase::Poll(poll) => poll.pending(),
            WaitRxReadyPhase::Over(_) => None,
        }
    }

    fn step(self, reply: Reply) -> (next: Self) {
        match self.phase {
            WaitRxReadyPhase::Poll(poll) => WaitRxReady::polling(poll.step(reply)),
            WaitRxReadyPhase::Over(_) => unreached(),
        }
    }

    fn finish(self) -> (output: Self::Output) {
        match self.phase {
            WaitRxReadyPhase::Over(result) => result,
            _ => unreached(),
        }
    }
}

/// Waits for room in the TX FIFO.
#[derive(Copy, Clone, Debug)]
pub struct WaitTxReady {
    phase: WaitTxReadyPhase,
}

#[derive(Copy, Clone, Debug)]
enum WaitTxReadyPhase {
    Poll(Poll),
    Clear(Interrupts),
    Over(Result<(), WaitTxReadyError>),
}

impl WaitTxReady {
    /// Starts with a first look at the peripheral.
    pub fn new() -> (wait: Self)
        ensures
            wait.inv(),
            forall|replies: Seq<Reply>|
                #[trigger] wait.run(replies) == wait_tx_ready_run(replies),
    {
        reveal(wait_tx_ready_run);
        WaitTxReady { phase: WaitTxReadyPhase::Poll(Poll::new()) }
    }

    fn polling(poll: Poll) -> (wait: Self)
        requires
            poll.inv(),
        ensures
            wait.inv(),
            forall|replies: Seq<Reply>|
                #[trigger] wait.run(replies) == wait_tx_ready_polled(poll.run(replies)),
    {
        reveal(wait_tx_ready_run);
        if poll.pending().is_some() {
            return WaitTxReady { phase: WaitTxReadyPhase::Poll(poll) };
        }
        match poll.finish() {
            Err(error) => {
                let error = WaitTxReadyError::CommandError(error);
                WaitTxReady { phase: WaitTxReadyPhase::Over(Err(error)) }
            },
            Ok((idle, flags)) => {
                if flags.ipcmddone {
                    WaitTxReady { phase: WaitTxReadyPhase::Clear(flags) }
                } else if flags.iptxwe {
                    WaitTxReady { phase: WaitTxReadyPhase::Over(Ok(())) }
                } else if idle {
                    let error = WaitTxReadyError::CommandError(WaitCommandError::ArbiterIdle);
                    WaitTxReady { phase: WaitTxReadyPhase::Over(Err(error)) }
                } else {
                    WaitTxReady::new()
                }
            },
        }
    }
}

impl Procedure for WaitTxReady {
    type Output = Result<(), WaitTxReadyError>;

    type Value = Result<(), WaitTxReadyError>;

    open spec fn value(output: Self::Output) -> Self::Value {
        output
    }

    closed spec fn inv(&self) -> bool {
        match self.phase {
            WaitTxReadyPhase::Poll(poll) => poll.inv() && poll.run(Seq::empty()).outcome is None,
            _ => true,
        }
    }

    closed spec fn run(&self, replies: Seq<Reply>) -> Run<Self::Value> {
        match self.phase {
            WaitTxReadyPhase::Poll(poll) => wait_tx_ready_polled(poll.run(replies)),
            WaitTxReadyPhase::Clear(flags) => clear_run(
                flags.finished(),
                Err(WaitTxReadyError::CommandFinished),
                replies,
            ),
            WaitTxReadyPhase::Over(result) => finished(result, replies),
        }
    }

    fn pending(&self) -> (access: Option<Access>) {
        match &self.phase {
            WaitTxReadyPhase::Poll(poll) => poll.pending(),
            WaitTxReadyPhase::Clear(flags) => Some(
                Access::ClearInterrupts(command_finished_bits(flags)),
            ),
            WaitTxReadyPhase::Over(_) => None,
        }
    }

    fn step(self, reply: Reply) -> (next: Self) {
        match self.phase {
            WaitTxReadyPhase::Poll(poll) => WaitTxReady::polling(poll.step(reply)),
            WaitTxReadyPhase::Clear(_) => {
                WaitTxReady {
                    phase: WaitTxReadyPhase::Over(Err(WaitTxReadyError::CommandFinished)),
                }
            },
            WaitTxReadyPhase::Over(_) => unreached(),
        }
    }

    fn finish(self) -> (output: Self::Output) {
        match self.phase {
            WaitTxReadyPhase::Over(result) => result,
            _ => unreached(),
        }
    }
}

} // verus!
