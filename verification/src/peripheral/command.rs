//! Starting a command sequence.

use crate::peripheral::check::{
    check_ended_run, command_finished_bits, lemma_check_ended_orderly, CheckEnded,
};
use crate::peripheral::{CommandSequence, InvalidCommandSequence, WaitCommandError};
use crate::procedure::{exchange, finished, group_orderly, group_procedure, then, Procedure, Run};
use crate::registers::{Access, Interrupts, IpControl1, Reply};
use vstd::prelude::*;

verus! {

broadcast use group_procedure;

/// Starting a command sequence, or refusing an invalid one without any access.
pub open spec fn start_command_sequence_run(sequence: CommandSequence, replies: Seq<Reply>) -> Run<
    Result<(), InvalidCommandSequence>,
> {
    if sequence.valid() {
        let launch = launch_run(sequence, replies);
        then(launch, finished(Ok(()), launch.rest))
    } else {
        finished(
            Err(InvalidCommandSequence { start: sequence.start, count: sequence.count }),
            replies,
        )
    }
}

/// Starting a valid command sequence.
///
/// Flags that an earlier command left behind are cleared first, and the errors they stand for are
/// not reported: they do not belong to this command.
pub open spec fn launch_run(sequence: CommandSequence, replies: Seq<Reply>) -> Run<()> {
    launch_checked(sequence, check_ended_run(replies))
}

/// Starting a valid command sequence, from the point where `check` checks the flags.
pub open spec fn launch_checked(
    sequence: CommandSequence,
    check: Run<Result<Interrupts, WaitCommandError>>,
) -> Run<()> {
    then(
        check,
        match check.outcome->0 {
            Ok(flags) => launch_clear(sequence, flags, check.rest),
            Err(_) => launch_address(sequence, check.rest),
        },
    )
}

/// Starting a valid command sequence, from the point where the flags are cleared.
pub open spec fn launch_clear(
    sequence: CommandSequence,
    flags: Interrupts,
    replies: Seq<Reply>,
) -> Run<()> {
    exchange(
        Access::ClearInterrupts(flags.finished()),
        replies,
        launch_address(sequence, replies.skip(1)),
    )
}

/// Starting a valid command sequence, from the point where the address is set.
pub open spec fn launch_address(sequence: CommandSequence, replies: Seq<Reply>) -> Run<()> {
    exchange(
        Access::WriteIpControl0(sequence.address),
        replies,
        launch_control(sequence, replies.skip(1)),
    )
}

/// Starting a valid command sequence, from the point where everything but the address is set.
pub open spec fn launch_control(sequence: CommandSequence, replies: Seq<Reply>) -> Run<()> {
    exchange(
        Access::WriteIpControl1(sequence.control1()),
        replies,
        launch_trigger(replies.skip(1)),
    )
}

/// Starting a valid command sequence that is set up.
pub open spec fn launch_trigger(replies: Seq<Reply>) -> Run<()> {
    exchange(Access::TriggerCommand, replies, finished((), replies.skip(1)))
}

/// Starting a command sequence is orderly.
pub proof fn lemma_launch_orderly(sequence: CommandSequence, replies: Seq<Reply>)
    ensures
        launch_run(sequence, replies).orderly(replies),
        launch_run(sequence, replies).issued.len() > 0,
{
    broadcast use group_orderly;

    lemma_check_ended_orderly(replies);
}

/// Starts a valid command sequence.
#[derive(Copy, Clone, Debug)]
pub struct LaunchCommand {
    sequence: CommandSequence,
    phase: LaunchPhase,
}

#[derive(Copy, Clone, Debug)]
enum LaunchPhase {
    Check(CheckEnded),
    Clear(Interrupts),
    Address,
    Control,
    Trigger,
    Over,
}

impl LaunchCommand {
    /// Starts with the flags that an earlier command left behind.
    pub fn new(sequence: CommandSequence) -> (launch: Self)
        requires
            sequence.valid(),
        ensures
            launch.inv(),
            forall|replies: Seq<Reply>|
                #[trigger] launch.run(replies) == launch_run(sequence, replies),
    {
        LaunchCommand::checking(sequence, CheckEnded::new())
    }

    fn checking(sequence: CommandSequence, check: CheckEnded) -> (launch: Self)
        requires
            sequence.valid(),
            check.inv(),
        ensures
            launch.inv(),
            forall|replies: Seq<Reply>|
                #[trigger] launch.run(replies) == launch_checked(sequence, check.run(replies)),
    {
        if check.pending().is_some() {
            return LaunchCommand { sequence, phase: LaunchPhase::Check(check) };
        }
        match check.finish() {
            Ok(flags) => LaunchCommand { sequence, phase: LaunchPhase::Clear(flags) },
            Err(_) => LaunchCommand { sequence, phase: LaunchPhase::Address },
        }
    }
}

impl Procedure for LaunchCommand {
    type Output = ();

    type Value = ();

    open spec fn value(output: Self::Output) -> Self::Value {
        output
    }

    closed spec fn inv(&self) -> bool {
        &&& self.sequence.valid()
        &&& self.phase matches LaunchPhase::Check(check) ==> check.inv() && check.run(
            Seq::empty(),
        ).outcome is None
    }

    closed spec fn run(&self, replies: Seq<Reply>) -> Run<Self::Value> {
        match self.phase {
            LaunchPhase::Check(check) => launch_checked(self.sequence, check.run(replies)),
            LaunchPhase::Clear(flags) => launch_clear(self.sequence, flags, replies),
            LaunchPhase::Address => launch_address(self.sequence, replies),
            LaunchPhase::Control => launch_control(self.sequence, replies),
            LaunchPhase::Trigger => launch_trigger(replies),
            LaunchPhase::Over => finished((), replies),
        }
    }

    fn pending(&self) -> (access: Option<Access>) {
        match &self.phase {
            LaunchPhase::Check(check) => check.pending(),
            LaunchPhase::Clear(flags) => Some(
                Access::ClearInterrupts(command_finished_bits(flags)),
            ),
            LaunchPhase::Address => Some(Access::WriteIpControl0(self.sequence.address)),
            LaunchPhase::Control => Some(
                Access::WriteIpControl1(
                    IpControl1 {
                        idatsz: self.sequence.data_size,
                        iseqid: self.sequence.start,
                        iseqnum: self.sequence.count.saturating_sub(1),
                        iparen: self.sequence.parallel,
                    },
                ),
            ),
            LaunchPhase::Trigger => Some(Access::TriggerCommand),
            LaunchPhase::Over => None,
        }
    }

    fn step(self, reply: Reply) -> (next: Self) {
        let sequence = self.sequence;
        match self.phase {
            LaunchPhase::Check(check) => LaunchCommand::checking(sequence, check.step(reply)),
            LaunchPhase::Clear(_) => LaunchCommand { sequence, phase: LaunchPhase::Address },
            LaunchPhase::Address => LaunchCommand { sequence, phase: LaunchPhase::Control },
            LaunchPhase::Control => LaunchCommand { sequence, phase: LaunchPhase::Trigger },
            LaunchPhase::Trigger => LaunchCommand { sequence, phase: LaunchPhase::Over },
            LaunchPhase::Over => unreached(),
        }
    }

    fn finish(self) -> (output: Self::Output) {
    }
}

/// Starts a command sequence, unless it is invalid.
#[derive(Copy, Clone, Debug)]
pub struct StartCommand {
    phase: StartPhase,
}

#[derive(Copy, Clone, Debug)]
enum StartPhase {
    Refused(InvalidCommandSequence),
    Launch(LaunchCommand),
}

impl StartCommand {
    /// Checks the sequence and, if it is valid, starts with the flags that an earlier command left
    /// behind.
    pub fn new(sequence: CommandSequence) -> (start: Self)
        ensures
            start.inv(),
            forall|replies: Seq<Reply>|
                #[trigger] start.run(replies) == start_command_sequence_run(sequence, replies),
    {
        // Check if the sequence start and end fall within the valid range (0..32).
        let within = if sequence.count <= 1 {
            sequence.start < 32
        } else {
            sequence.start < 32 && sequence.count < 32 && sequence.start + sequence.count < 32
        };
        if !within {
            let refused = InvalidCommandSequence { start: sequence.start, count: sequence.count };
            return StartCommand { phase: StartPhase::Refused(refused) };
        }
        StartCommand { phase: StartPhase::Launch(LaunchCommand::new(sequence)) }
    }
}

impl Procedure for StartCommand {
    type Output = Result<(), InvalidCommandSequence>;

    type Value = Result<(), InvalidCommandSequence>;

    open spec fn value(output: Self::Output) -> Self::Value {
        output
    }

    closed spec fn inv(&self) -> bool {
        self.phase matches StartPhase::Launch(launch) ==> launch.inv()
    }

    closed spec fn run(&self, replies: Seq<Reply>) -> Run<Self::Value> {
        match self.phase {
            StartPhase::Refused(error) => finished(Err(error), replies),
            StartPhase::Launch(launch) => then(
                launch.run(replies),
                finished(Ok(()), launch.run(replies).rest),
            ),
        }
    }

    fn pending(&self) -> (access: Option<Access>) {
        match &self.phase {
            StartPhase::Refused(_) => None,
            StartPhase::Launch(launch) => launch.pending(),
        }
    }

    fn step(self, reply: Reply) -> (next: Self) {
        match self.phase {
            StartPhase::Refused(_) => unreached(),
            StartPhase::Launch(launch) => StartCommand {
                phase: StartPhase::Launch(launch.step(reply)),
            },
        }
    }

    fn finish(self) -> (output: Self::Output) {
        match self.phase {
            StartPhase::Refused(error) => Err(error),
            StartPhase::Launch(launch) => {
                launch.finish();
                Ok(())
            },
        }
    }
}

} // verus!
