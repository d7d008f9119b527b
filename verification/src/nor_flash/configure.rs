//! Setting the FIFOs up for the flash driver.

use crate::peripheral::settings::{watermark_field, write_run, Write};
use crate::procedure::{group_procedure, then, Procedure, Run};
use crate::registers::{Access, Reply};
use vstd::prelude::*;

verus! {

broadcast use group_procedure;

/// The watermark of both FIFOs in words of 64 bits: the size of the FIFOs.
pub const WATERMARK: u8 = 16;

/// Setting both watermarks to the maximum size.
pub open spec fn configure_run(replies: Seq<Reply>) -> Run<()> {
    configure_rx(write_run(Access::SetRxWatermark(watermark_field(WATERMARK)), replies))
}

/// Setting both watermarks, from the point where `rx` sets the watermark of the RX FIFO.
pub open spec fn configure_rx(rx: Run<()>) -> Run<()> {
    then(rx, write_run(Access::SetTxWatermark(watermark_field(WATERMARK)), rx.rest))
}

/// Sets both watermarks to the maximum size.
#[derive(Copy, Clone, Debug)]
pub struct Configure {
    phase: ConfigurePhase,
}

#[derive(Copy, Clone, Debug)]
enum ConfigurePhase {
    Rx(Write),
    Tx(Write),
}

impl Configure {
    /// Starts with the RX FIFO.
    pub fn new() -> (configure: Self)
        ensures
            configure.inv(),
            forall|replies: Seq<Reply>| #[trigger] configure.run(replies) == configure_run(replies),
    {
        Configure::receiver(Write::new(Access::SetRxWatermark(WATERMARK.saturating_sub(1))))
    }

    fn receiver(rx: Write) -> (configure: Self)
        requires
            rx.inv(),
        ensures
            configure.inv(),
            forall|replies: Seq<Reply>|
                #[trigger] configure.run(replies) == configure_rx(rx.run(replies)),
    {
        if rx.pending().is_some() {
            return Configure { phase: ConfigurePhase::Rx(rx) };
        }
        rx.finish();
        let tx = Write::new(Access::SetTxWatermark(WATERMARK.saturating_sub(1)));
        Configure { phase: ConfigurePhase::Tx(tx) }
    }
}

impl Procedure for Configure {
    type Output = ();

    type Value = ();

    open spec fn value(output: Self::Output) -> Self::Value {
        output
    }

    closed spec fn inv(&self) -> bool {
        match self.phase {
            ConfigurePhase::Rx(rx) => rx.inv() && rx.run(Seq::empty()).outcome is None,
            ConfigurePhase::Tx(tx) => tx.inv(),
        }
    }

    closed spec fn run(&self, replies: Seq<Reply>) -> Run<Self::Value> {
        match self.phase {
            ConfigurePhase::Rx(rx) => configure_rx(rx.run(replies)),
            ConfigurePhase::Tx(tx) => tx.run(replies),
        }
    }

    fn pending(&self) -> (access: Option<Access>) {
        match &self.phase {
            ConfigurePhase::Rx(rx) => rx.pending(),
            ConfigurePhase::Tx(tx) => tx.pending(),
        }
    }

    fn step(self, reply: Reply) -> (next: Self) {
        match self.phase {
            ConfigurePhase::Rx(rx) => Configure::receiver(rx.step(reply)),
            ConfigurePhase::Tx(tx) => Configure { phase: ConfigurePhase::Tx(tx.step(reply)) },
        }
    }

    fn finish(self) -> (output: Self::Output) {
        match self.phase {
            ConfigurePhase::Rx(_) => unreached(),
            ConfigurePhase::Tx(tx) => tx.finish(),
        }
    }
}

} // verus!
