//! The register accesses that the driver makes, and what the registers answer.

use vstd::prelude::*;

verus! {

/// The flags of the `INTR` register that concern IP commands.
#[derive(Copy, Clone, Debug, PartialEq, Eq, Structural)]
pub struct Interrupts {
    /// The command sequence finished.
    pub ipcmddone: bool,
    /// The arbiter did not grant the command in time.
    pub ipcmdge: bool,
    /// The command sequence failed.
    pub ipcmderr: bool,
    /// The RX FIFO holds at least a watermark of data.
    pub iprxwa: bool,
    /// The TX FIFO has room for at least a watermark of data.
    pub iptxwe: bool,
    /// A data learn instruction failed.
    pub datalearnfail: bool,
    /// The command sequence took too long.
    pub seqtimeout: bool,
}

impl Interrupts {
    /// No flag at all.
    pub open spec fn none() -> Interrupts {
        Interrupts {
            ipcmddone: false,
            ipcmdge: false,
            ipcmderr: false,
            iprxwa: false,
            iptxwe: false,
            datalearnfail: false,
            seqtimeout: false,
        }
    }

    /// The flags of `self` that say that a command finished, with or without an error.
    pub open spec fn finished(self) -> Interrupts {
        Interrupts { iprxwa: false, iptxwe: false, ..self }
    }

    /// The flags of `self` that say that a command failed.
    pub open spec fn errors(self) -> Interrupts {
        Interrupts { ipcmddone: false, iprxwa: false, iptxwe: false, ..self }
    }

    /// The flag of `self` that says that a command is done.
    pub open spec fn done(self) -> Interrupts {
        Interrupts { ipcmddone: self.ipcmddone, ..Interrupts::none() }
    }

    /// Whether every flag of `self` is also set in `other`.
    pub open spec fn within(self, other: Interrupts) -> bool {
        &&& self.ipcmddone ==> other.ipcmddone
        &&& self.ipcmdge ==> other.ipcmdge
        &&& self.ipcmderr ==> other.ipcmderr
        &&& self.iprxwa ==> other.iprxwa
        &&& self.iptxwe ==> other.iptxwe
        &&& self.datalearnfail ==> other.datalearnfail
        &&& self.seqtimeout ==> other.seqtimeout
    }

    /// Whether a flag says that a command failed.
    pub open spec fn failed(self) -> bool {
        self.ipcmderr || self.seqtimeout || self.datalearnfail || self.ipcmdge
    }
}

/// The fields of the `IPCR1` register.
#[derive(Copy, Clone, Debug, PartialEq, Eq, Structural)]
pub struct IpControl1 {
    /// `IDATSZ`: the size in bytes of the data to transfer.
    pub idatsz: u16,
    /// `ISEQID`: the index in the LUT of the first sequence.
    pub iseqid: u8,
    /// `ISEQNUM`: the number of sequences, less one. The register takes the low three bits.
    pub iseqnum: u8,
    /// `IPAREN`: whether two flash chips are accessed in parallel.
    pub iparen: bool,
}

/// The fields of the cache control register that start a cache command.
#[derive(Copy, Clone, Debug, PartialEq, Eq, Structural)]
pub struct CacheCommand {
    /// `INVW0`: invalidate way 0.
    pub invw0: bool,
    /// `PUSHW0`: push the modified lines of way 0.
    pub pushw0: bool,
    /// `INVW1`: invalidate way 1.
    pub invw1: bool,
    /// `PUSHW1`: push the modified lines of way 1.
    pub pushw1: bool,
    /// `GO`: start the command.
    pub go: bool,
}

impl CacheCommand {
    /// Invalidating the whole cache, without pushing anything.
    pub open spec fn invalidate_all() -> CacheCommand {
        CacheCommand { invw0: true, pushw0: false, invw1: true, pushw1: false, go: true }
    }

    /// The command, unless `go` says that another one is still running.
    pub fn unless_running(self, go: bool) -> (command: Option<CacheCommand>)
        ensures
            command == if go {
                None
            } else {
                Some(self)
            },
    {
        if go {
            None
        } else {
            Some(self)
        }
    }
}

/// One register access.
#[derive(Copy, Clone, Debug, PartialEq, Eq, Structural)]
pub enum Access {
    /// Read `INTR`.
    ReadInterrupts,
    /// Write `INTR`, with a one for each flag of the argument: this clears those flags.
    ClearInterrupts(Interrupts),
    /// Read `STS0`.
    ReadStatus0,
    /// Read `STS1`.
    ReadStatus1,
    /// Write the flash address to `SFAR` of `IPCR0`.
    WriteIpControl0(u32),
    /// Write `IPCR1`.
    WriteIpControl1(IpControl1),
    /// Write a one to `TRG` of `IPCMD`: this starts the command.
    TriggerCommand,
    /// Read `TXWMRK` of `IPTXFCR`.
    ReadTxWatermark,
    /// Change `TXWMRK` of `IPTXFCR`, and no other field.
    SetTxWatermark(u8),
    /// Set `CLRIPTXF` of `IPTXFCR`, and change no other field: this empties the TX FIFO.
    ClearTxFifo,
    /// Read `RXWMRK` of `IPRXFCR`.
    ReadRxWatermark,
    /// Change `RXWMRK` of `IPRXFCR`, and no other field.
    SetRxWatermark(u8),
    /// Set `CLRIPRXF` of `IPRXFCR`, and change no other field: this empties the RX FIFO.
    ClearRxFifo,
    /// Read `FILL` of `IPRXFSTS`.
    ReadRxFill,
    /// Write a word to the TX FIFO data register with the given index.
    WriteTxData(usize, u32),
    /// Read the RX FIFO data register with the given index.
    ReadRxData(usize),
    /// Read `GO` of the cache control register.
    ReadCacheGo,
    /// In one critical section, read `GO` of the cache control register and, unless it is set,
    /// change the fields of the command and no other: see [`CacheCommand::unless_running`].
    StartCacheCommand(CacheCommand),
}

/// What a register access comes back with.
#[derive(Copy, Clone, Debug, PartialEq, Eq, Structural)]
pub enum Reply {
    /// A write was made.
    Written,
    /// The flags of `INTR`.
    Interrupts(Interrupts),
    /// The `ARBIDLE` bit of `STS0`.
    Status0(bool),
    /// The fields `IPCMDERRID` and `IPCMDERRCODE` of `STS1`.
    Status1(u8, u8),
    /// The field `TXWMRK`, which has seven bits.
    TxWatermark(u8),
    /// The field `RXWMRK`, which has six bits.
    RxWatermark(u8),
    /// The field `FILL`.
    RxFill(u8),
    /// A word of the RX FIFO.
    RxData(u32),
    /// The `GO` bit of the cache control register.
    CacheGo(bool),
    /// Whether the cache command was started.
    CacheStarted(bool),
}

impl Reply {
    pub open spec fn interrupts(self) -> Interrupts {
        self->Interrupts_0
    }

    pub open spec fn arbidle(self) -> bool {
        self->Status0_0
    }
}

impl Access {
    /// Whether `reply` is what this access can come back with.
    pub open spec fn answered_by(self, reply: Reply) -> bool {
        match self {
            Access::ReadInterrupts => reply is Interrupts,
            Access::ReadStatus0 => reply is Status0,
            Access::ReadStatus1 => reply is Status1,
            Access::ReadTxWatermark => reply is TxWatermark && reply->TxWatermark_0 < 128,
            Access::ReadRxWatermark => reply is RxWatermark && reply->RxWatermark_0 < 64,
            Access::ReadRxFill => reply is RxFill,
            Access::ReadRxData(_) => reply is RxData,
            Access::ReadCacheGo => reply is CacheGo,
            Access::StartCacheCommand(_) => reply is CacheStarted,
            _ => reply is Written,
        }
    }

    /// Tells whether `reply` is what this access can come back with.
    pub fn is_answered_by(&self, reply: &Reply) -> (answered: bool)
        ensures
            answered == self.answered_by(*reply),
    {
        match (self, reply) {
            (Access::ReadInterrupts, Reply::Interrupts(_)) => true,
            (Access::ReadStatus0, Reply::Status0(_)) => true,
            (Access::ReadStatus1, Reply::Status1(_, _)) => true,
            (Access::ReadTxWatermark, Reply::TxWatermark(field)) => *field < 128,
            (Access::ReadRxWatermark, Reply::RxWatermark(field)) => *field < 64,
            (Access::ReadRxFill, Reply::RxFill(_)) => true,
            (Access::ReadRxData(_), Reply::RxData(_)) => true,
            (Access::ReadCacheGo, Reply::CacheGo(_)) => true,
            (Access::StartCacheCommand(_), Reply::CacheStarted(_)) => true,
            (Access::ClearInterrupts(_), Reply::Written) => true,
            (Access::WriteIpControl0(_), Reply::Written) => true,
            (Access::WriteIpControl1(_), Reply::Written) => true,
            (Access::TriggerCommand, Reply::Written) => true,
            (Access::SetTxWatermark(_), Reply::Written) => true,
            (Access::ClearTxFifo, Reply::Written) => true,
            (Access::SetRxWatermark(_), Reply::Written) => true,
            (Access::ClearRxFifo, Reply::Written) => true,
            (Access::WriteTxData(_, _), Reply::Written) => true,
            _ => false,
        }
    }
}

} // verus!
