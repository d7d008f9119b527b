use flexspi_nor::peripheral::{
    CommandErrorCode, CommandFailed, CommandSequence, FlexSpi, InvalidCommandSequence,
    WaitCommandError, WaitTxReadyError,
};
use flexspi_nor::procedure::Procedure;
use flexspi_nor::registers::{Access, CacheCommand, Interrupts, IpControl1, Reply};

const NONE: Interrupts = Interrupts {
    ipcmddone: false,
    ipcmdge: false,
    ipcmderr: false,
    iprxwa: false,
    iptxwe: false,
    datalearnfail: false,
    seqtimeout: false,
};

const DONE: Interrupts = Interrupts { ipcmddone: true, ..NONE };

/// Carries a procedure out with the given replies. All of them must be needed.
fn drive<P: Procedure>(procedure: P, replies: &[Reply]) -> (Vec<Access>, P::Output) {
    let (issued, output) = try_drive(procedure, replies);
    (issued, output.expect("the procedure still waits for a reply"))
}

/// Carries a procedure out as far as the given replies go. All of them must be needed.
fn try_drive<P: Procedure>(procedure: P, replies: &[Reply]) -> (Vec<Access>, Option<P::Output>) {
    let mut procedure = procedure;
    let mut issued = Vec::new();
    for reply in replies {
        let access = procedure.pending().expect("the procedure is over too early");
        assert!(access.is_answered_by(reply), "{:?} got {:?}", access, reply);
        issued.push(access);
        procedure = procedure.step(*reply);
    }
    match procedure.pending() {
        Some(access) => {
            issued.push(access);
            (issued, None)
        }
        None => (issued, Some(procedure.finish())),
    }
}

fn flags(interrupts: Interrupts) -> Reply {
    Reply::Interrupts(interrupts)
}

fn sequence(start: u8, count: u8) -> CommandSequence {
    CommandSequence { start, count, address: 0x1234_5678, data_size: 42, parallel: false }
}

#[test]
fn a_command_is_set_up_and_triggered() {
    let mut flex_spi = FlexSpi::new(());
    let start = flex_spi.start_command_sequence(CommandSequence {
        start: 9,
        count: 3,
        address: 0x0BAD_CAFE,
        data_size: 256,
        parallel: true,
    });
    let (issued, result) = drive(
        start,
        &[flags(NONE), Reply::Written, Reply::Written, Reply::Written, Reply::Written],
    );
    assert_eq!(result, Ok(()));
    assert_eq!(
        issued,
        vec![
            Access::ReadInterrupts,
            Access::ClearInterrupts(NONE),
            Access::WriteIpControl0(0x0BAD_CAFE),
            Access::WriteIpControl1(IpControl1 {
                idatsz: 256,
                iseqid: 9,
                iseqnum: 2,
                iparen: true,
            }),
            Access::TriggerCommand,
        ]
    );
}

#[test]
fn flags_of_an_earlier_command_are_cleared_and_ignored() {
    let mut flex_spi = FlexSpi::new(());
    let left = Interrupts { ipcmddone: true, ipcmderr: true, iprxwa: true, ..NONE };
    let (issued, result) = drive(
        flex_spi.start_command_sequence(sequence(5, 1)),
        &[
            flags(left),
            Reply::Status1(3, 6),
            Reply::Written,
            Reply::Written,
            Reply::Written,
            Reply::Written,
            Reply::Written,
        ],
    );
    assert_eq!(result, Ok(()));
    assert_eq!(issued[1], Access::ReadStatus1);
    assert_eq!(issued[2], Access::ClearInterrupts(Interrupts { ipcmderr: true, ..NONE }));
    assert_eq!(issued[3], Access::ClearInterrupts(DONE));
    assert_eq!(issued[4], Access::WriteIpControl0(0x1234_5678));
    assert_eq!(issued[6], Access::TriggerCommand);

    let (issued, result) = drive(
        flex_spi.start_command_sequence(sequence(5, 1)),
        &[
            flags(Interrupts { ipcmdge: true, ..NONE }),
            Reply::Written,
            Reply::Written,
            Reply::Written,
            Reply::Written,
        ],
    );
    assert_eq!(result, Ok(()));
    assert_eq!(issued[1], Access::ClearInterrupts(Interrupts { ipcmdge: true, ..NONE }));
    assert_eq!(issued[2], Access::WriteIpControl0(0x1234_5678));

    let (issued, _) = drive(
        flex_spi.start_command_sequence(sequence(5, 1)),
        &[flags(DONE), Reply::Written, Reply::Written, Reply::Written, Reply::Written],
    );
    assert_eq!(issued[1], Access::ClearInterrupts(DONE));
}

#[test]
fn a_sequence_outside_of_the_lut_is_refused_without_any_access() {
    let mut flex_spi = FlexSpi::new(());
    for (start, count) in [
        (32, 0),
        (32, 1),
        (31, 2),
        (0, 32),
        (30, 2),
        (255, 1),
        (255, 255),
        (200, 100),
        (16, 16),
    ] {
        let (issued, result) = drive(flex_spi.start_command_sequence(sequence(start, count)), &[]);
        assert_eq!(result, Err(InvalidCommandSequence { start, count }));
        assert_eq!(issued, vec![]);
    }
    for (start, count) in [(31, 0), (31, 1), (30, 1), (29, 2), (0, 31), (0, 0)] {
        let (issued, result) =
            try_drive(flex_spi.start_command_sequence(sequence(start, count)), &[]);
        assert_eq!(result, None);
        assert_eq!(issued, vec![Access::ReadInterrupts]);
    }
}

#[test]
fn a_count_of_zero_is_a_count_of_one() {
    let mut flex_spi = FlexSpi::new(());
    let replies = [flags(NONE), Reply::Written, Reply::Written, Reply::Written, Reply::Written];
    for start in 0..32 {
        let zero = drive(flex_spi.start_command_sequence(sequence(start, 0)), &replies);
        let one = drive(flex_spi.start_command_sequence(sequence(start, 1)), &replies);
        assert_eq!(zero, one);
    }
}

#[test]
fn watermarks_are_set_less_one() {
    let mut flex_spi = FlexSpi::new(());
    for (words, field) in [(0, 0), (1, 0), (2, 1), (16, 15), (255, 254)] {
        let (issued, ()) =
            drive(flex_spi.set_tx_fifo_watermark_u64_words(words), &[Reply::Written]);
        assert_eq!(issued, vec![Access::SetTxWatermark(field)]);
        let (issued, ()) =
            drive(flex_spi.set_rx_fifo_watermark_u64_words(words), &[Reply::Written]);
        assert_eq!(issued, vec![Access::SetRxWatermark(field)]);
    }
}

#[test]
fn levels_are_read_in_words_and_bytes() {
    let mut flex_spi = FlexSpi::new(());
    let tx = [Reply::TxWatermark(15)];
    let rx = [Reply::RxWatermark(7)];
    let fill = [Reply::RxFill(5)];
    assert_eq!(
        drive(flex_spi.get_tx_fifo_watermark_u64_words(), &tx),
        (vec![Access::ReadTxWatermark], 16)
    );
    assert_eq!(
        drive(flex_spi.get_tx_fifo_watermark_bytes(), &tx),
        (vec![Access::ReadTxWatermark], 128)
    );
    assert_eq!(
        drive(flex_spi.get_rx_fifo_watermark_u64_words(), &rx),
        (vec![Access::ReadRxWatermark], 8)
    );
    assert_eq!(
        drive(flex_spi.get_rx_fifo_watermark_bytes(), &rx),
        (vec![Access::ReadRxWatermark], 64)
    );
    assert_eq!(
        drive(flex_spi.get_rx_fill_level_u64_words(), &fill),
        (vec![Access::ReadRxFill], 5)
    );
    assert_eq!(drive(flex_spi.get_rx_fill_level_bytes(), &fill), (vec![Access::ReadRxFill], 40));
    assert_eq!(
        drive(flex_spi.get_tx_fifo_watermark_bytes(), &[Reply::TxWatermark(127)]).1,
        1024
    );
    assert_eq!(drive(flex_spi.get_rx_fill_level_bytes(), &[Reply::RxFill(255)]).1, 2040);
}

#[test]
fn a_watermark_that_was_set_is_read_back() {
    let mut flex_spi = FlexSpi::new(());
    for words in 0..=64u8 {
        let (issued, ()) =
            drive(flex_spi.set_rx_fifo_watermark_u64_words(words), &[Reply::Written]);
        let field = match issued[0] {
            Access::SetRxWatermark(field) => field,
            other => panic!("unexpected access {:?}", other),
        };
        let (_, read) =
            drive(flex_spi.get_rx_fifo_watermark_u64_words(), &[Reply::RxWatermark(field)]);
        assert_eq!(read, words.max(1));
    }
}

#[test]
fn the_fifos_are_cleared() {
    let mut flex_spi = FlexSpi::new(());
    assert_eq!(
        drive(flex_spi.clear_rx_fifo(), &[Reply::Written]),
        (vec![Access::ClearRxFifo], ())
    );
    assert_eq!(
        drive(flex_spi.clear_tx_fifo(), &[Reply::Written]),
        (vec![Access::ClearTxFifo], ())
    );
    flex_spi.clear_ahb_rx_buffers();
}

#[test]
fn waiting_for_the_command_clears_its_flag() {
    let mut flex_spi = FlexSpi::new(());
    let done = Interrupts { ipcmddone: true, iprxwa: true, iptxwe: true, ..NONE };
    let (issued, result) = drive(
        flex_spi.wait_command_done(),
        &[
            Reply::Status0(false),
            flags(NONE),
            Reply::Status0(false),
            flags(Interrupts { iprxwa: true, ..NONE }),
            Reply::Status0(true),
            flags(done),
            Reply::Written,
        ],
    );
    assert_eq!(result, Ok(()));
    assert_eq!(
        issued,
        vec![
            Access::ReadStatus0,
            Access::ReadInterrupts,
            Access::ReadStatus0,
            Access::ReadInterrupts,
            Access::ReadStatus0,
            Access::ReadInterrupts,
            Access::ClearInterrupts(DONE),
        ]
    );
}

#[test]
fn waiting_for_the_command_reports_an_idle_arbiter() {
    let mut flex_spi = FlexSpi::new(());
    let (issued, result) =
        drive(flex_spi.wait_command_done(), &[Reply::Status0(true), flags(NONE)]);
    assert_eq!(result, Err(WaitCommandError::ArbiterIdle));
    assert_eq!(issued, vec![Access::ReadStatus0, Access::ReadInterrupts]);
}

#[test]
fn each_error_flag_is_reported_and_cleared() {
    let mut flex_spi = FlexSpi::new(());
    let cases = [
        (Interrupts { seqtimeout: true, ..NONE }, WaitCommandError::ExecutionTimeout),
        (Interrupts { datalearnfail: true, ..NONE }, WaitCommandError::DataLearnFailed),
        (Interrupts { ipcmdge: true, ..NONE }, WaitCommandError::GrantTimeout),
        (
            Interrupts { seqtimeout: true, datalearnfail: true, ipcmdge: true, ..DONE },
            WaitCommandError::ExecutionTimeout,
        ),
        (
            Interrupts { datalearnfail: true, ipcmdge: true, ..DONE },
            WaitCommandError::DataLearnFailed,
        ),
    ];
    for (set, error) in cases {
        let errors = Interrupts { ipcmddone: false, ..set };
        let mut replies = vec![Reply::Status0(false), flags(set), Reply::Written];
        let mut expected =
            vec![Access::ReadStatus0, Access::ReadInterrupts, Access::ClearInterrupts(errors)];

        // A check for errors leaves alone the flag that says that the command is done.
        let (issued, result) = drive(flex_spi.check_and_clear_command_errors(), &replies[1..]);
        assert_eq!((issued, result), (expected[1..].to_vec(), Err(error)));

        // Waiting clears it afterwards.
        if set.ipcmddone {
            replies.push(Reply::Written);
            expected.push(Access::ClearInterrupts(DONE));
        }
        let (issued, result) = drive(flex_spi.wait_command_done(), &replies);
        assert_eq!((issued, result), (expected.clone(), Err(error)));
        let (issued, result) = drive(flex_spi.wait_rx_ready(), &replies);
        assert_eq!((issued, result), (expected.clone(), Err(error)));
        let (issued, result) = drive(flex_spi.wait_tx_ready(), &replies);
        assert_eq!((issued, result), (expected, Err(WaitTxReadyError::CommandError(error))));
    }
}

#[test]
fn a_failed_command_is_reported_with_its_code() {
    let mut flex_spi = FlexSpi::new(());
    let set = Interrupts { ipcmderr: true, seqtimeout: true, iprxwa: true, ..DONE };
    let (issued, result) = drive(
        flex_spi.wait_command_done(),
        &[
            Reply::Status0(true),
            flags(set),
            Reply::Status1(7, 0x0E),
            Reply::Written,
            Reply::Written,
        ],
    );
    assert_eq!(
        result,
        Err(WaitCommandError::CommandFailed(CommandFailed {
            sequence_index: 7,
            error_code: CommandErrorCode::SequenceTimeout,
        }))
    );
    assert_eq!(
        issued,
        vec![
            Access::ReadStatus0,
            Access::ReadInterrupts,
            Access::ReadStatus1,
            Access::ClearInterrupts(Interrupts { ipcmderr: true, seqtimeout: true, ..NONE }),
            Access::ClearInterrupts(DONE),
        ]
    );
}

#[test]
fn without_an_error_the_flags_come_back_and_nothing_is_cleared() {
    let mut flex_spi = FlexSpi::new(());
    let set = Interrupts { iprxwa: true, iptxwe: true, ..DONE };
    let (issued, result) = drive(flex_spi.check_and_clear_command_errors(), &[flags(set)]);
    assert_eq!(result, Ok(set));
    assert_eq!(issued, vec![Access::ReadInterrupts]);
}

#[test]
fn only_set_finished_flags_are_cleared() {
    let mut flex_spi = FlexSpi::new(());
    let all = Interrupts {
        ipcmddone: true,
        ipcmdge: true,
        ipcmderr: true,
        iprxwa: true,
        iptxwe: true,
        datalearnfail: true,
        seqtimeout: true,
    };
    let (issued, ()) = drive(flex_spi.clear_command_finished_bits(&all), &[Reply::Written]);
    assert_eq!(
        issued,
        vec![Access::ClearInterrupts(Interrupts { iprxwa: false, iptxwe: false, ..all })]
    );
    let (issued, ()) = drive(flex_spi.clear_command_finished_bits(&NONE), &[Reply::Written]);
    assert_eq!(issued, vec![Access::ClearInterrupts(NONE)]);
}

#[test]
fn every_error_code_is_told_apart() {
    let codes = [
        CommandErrorCode::NoError,
        CommandErrorCode::Unknown1,
        CommandErrorCode::IllegalJumpOnCs,
        CommandErrorCode::UnknownOpcode,
        CommandErrorCode::DummySdrInDdrSequence,
        CommandErrorCode::DummyDdrInSdrSequence,
        CommandErrorCode::StartAddressOutOfBounds,
        CommandErrorCode::Unknown7,
        CommandErrorCode::Unknown8,
        CommandErrorCode::Unknown9,
        CommandErrorCode::Unknown10,
        CommandErrorCode::Unknown11,
        CommandErrorCode::Unknown12,
        CommandErrorCode::Unknown13,
        CommandErrorCode::SequenceTimeout,
        CommandErrorCode::AccessCrossedFlashBoundary,
    ];
    for (number, code) in codes.iter().enumerate() {
        assert_eq!(CommandErrorCode::from_pac(number as u8), *code);
        assert_eq!(*code as usize, number);
        assert_eq!(CommandErrorCode::from_pac(number as u8 | 0xA0), *code);
    }
}

#[test]
fn errors_convert() {
    let failed =
        CommandFailed { sequence_index: 1, error_code: CommandErrorCode::UnknownOpcode };
    assert_eq!(WaitCommandError::from(failed), WaitCommandError::CommandFailed(failed));
    assert_eq!(
        WaitTxReadyError::from(WaitCommandError::GrantTimeout),
        WaitTxReadyError::CommandError(WaitCommandError::GrantTimeout)
    );
}

#[test]
fn waiting_for_data_clears_nothing() {
    let mut flex_spi = FlexSpi::new(());
    for set in [DONE, Interrupts { iprxwa: true, ..NONE }] {
        let (issued, result) = drive(
            flex_spi.wait_rx_ready(),
            &[Reply::Status0(false), flags(NONE), Reply::Status0(true), flags(set)],
        );
        assert_eq!(result, Ok(()));
        assert_eq!(
            issued,
            vec![
                Access::ReadStatus0,
                Access::ReadInterrupts,
                Access::ReadStatus0,
                Access::ReadInterrupts,
            ]
        );
    }
    let (_, result) = drive(
        flex_spi.wait_rx_ready(),
        &[Reply::Status0(true), flags(Interrupts { iptxwe: true, ..NONE })],
    );
    assert_eq!(result, Err(WaitCommandError::ArbiterIdle));
}

#[test]
fn waiting_for_room_ends_when_the_command_is_done() {
    let mut flex_spi = FlexSpi::new(());
    let (issued, result) = drive(
        flex_spi.wait_tx_ready(),
        &[Reply::Status0(true), flags(Interrupts { iptxwe: true, ..NONE })],
    );
    assert_eq!(result, Ok(()));
    assert_eq!(issued, vec![Access::ReadStatus0, Access::ReadInterrupts]);

    let (issued, result) = drive(
        flex_spi.wait_tx_ready(),
        &[
            Reply::Status0(false),
            flags(Interrupts { iptxwe: true, ..DONE }),
            Reply::Written,
        ],
    );
    assert_eq!(result, Err(WaitTxReadyError::CommandFinished));
    assert_eq!(issued[2], Access::ClearInterrupts(DONE));

    let (_, result) = drive(
        flex_spi.wait_tx_ready(),
        &[Reply::Status0(false), flags(NONE), Reply::Status0(true), flags(NONE)],
    );
    assert_eq!(result, Err(WaitTxReadyError::CommandError(WaitCommandError::ArbiterIdle)));
}

#[test]
fn the_tx_fifo_is_filled_up_to_the_watermark() {
    let mut flex_spi = FlexSpi::new(());
    let data: Vec<u8> = (1..=20).collect();
    let send = Access::ClearInterrupts(Interrupts { iptxwe: true, ..NONE });
    let (issued, count) = drive(
        flex_spi.fill_tx_fifo(&data),
        &[
            Reply::TxWatermark(1),
            Reply::Written,
            Reply::Written,
            Reply::Written,
            Reply::Written,
            Reply::Written,
        ],
    );
    assert_eq!(count, 16);
    assert_eq!(
        issued,
        vec![
            Access::ReadTxWatermark,
            Access::WriteTxData(0, 0x0403_0201),
            Access::WriteTxData(1, 0x0807_0605),
            Access::WriteTxData(2, 0x0C0B_0A09),
            Access::WriteTxData(3, 0x100F_0E0D),
            send,
        ]
    );

    let (issued, count) = drive(
        flex_spi.fill_tx_fifo(&data[..5]),
        &[Reply::TxWatermark(15), Reply::Written, Reply::Written, Reply::Written],
    );
    assert_eq!(count, 5);
    assert_eq!(
        issued,
        vec![
            Access::ReadTxWatermark,
            Access::WriteTxData(0, 0x0403_0201),
            Access::WriteTxData(1, 0x0000_0005),
            send,
        ]
    );

    let (issued, count) =
        drive(flex_spi.fill_tx_fifo(&[]), &[Reply::TxWatermark(15), Reply::Written]);
    assert_eq!((issued, count), (vec![Access::ReadTxWatermark, send], 0));
}

#[test]
fn the_rx_fifo_is_drained_up_to_what_it_holds() {
    let mut flex_spi = FlexSpi::new(());
    let pop = Access::ClearInterrupts(Interrupts { iprxwa: true, ..NONE });
    // Limited by the buffer.
    let (issued, (buffer, count)) = drive(
        flex_spi.drain_rx_fifo(vec![0xAA; 6]),
        &[
            Reply::RxWatermark(15),
            Reply::RxFill(4),
            Reply::RxData(0x0403_0201),
            Reply::RxData(0x0807_0605),
            Reply::Written,
        ],
    );
    assert_eq!((buffer, count), (vec![1, 2, 3, 4, 5, 6], 6));
    assert_eq!(
        issued,
        vec![
            Access::ReadRxWatermark,
            Access::ReadRxFill,
            Access::ReadRxData(0),
            Access::ReadRxData(1),
            pop,
        ]
    );
    // Limited by the fill level.
    let (_, (buffer, count)) = drive(
        flex_spi.drain_rx_fifo(vec![0xAA; 10]),
        &[
            Reply::RxWatermark(15),
            Reply::RxFill(1),
            Reply::RxData(0x0403_0201),
            Reply::RxData(0x0807_0605),
            Reply::Written,
        ],
    );
    assert_eq!((buffer, count), (vec![1, 2, 3, 4, 5, 6, 7, 8, 0xAA, 0xAA], 8));
    // Limited by the watermark.
    let (_, (buffer, count)) = drive(
        flex_spi.drain_rx_fifo(vec![0xAA; 10]),
        &[
            Reply::RxWatermark(0),
            Reply::RxFill(9),
            Reply::RxData(0x0403_0201),
            Reply::RxData(0x0807_0605),
            Reply::Written,
        ],
    );
    assert_eq!((buffer, count), (vec![1, 2, 3, 4, 5, 6, 7, 8, 0xAA, 0xAA], 8));
    // Nothing there: a watermark is popped all the same.
    let (issued, (buffer, count)) = drive(
        flex_spi.drain_rx_fifo(vec![0xAA; 2]),
        &[Reply::RxWatermark(0), Reply::RxFill(0), Reply::Written],
    );
    assert_eq!((buffer, count), (vec![0xAA, 0xAA], 0));
    assert_eq!(issued, vec![Access::ReadRxWatermark, Access::ReadRxFill, pop]);
}

#[test]
fn the_cache_is_invalidated_when_it_is_idle() {
    let mut flex_spi = FlexSpi::new(());
    let command = CacheCommand { invw0: true, pushw0: false, invw1: true, pushw1: false, go: true };
    let start = Access::StartCacheCommand(command);
    let (issued, ()) = drive(
        flex_spi.invalidate_cache(),
        &[
            Reply::CacheGo(true),
            Reply::CacheGo(false),
            Reply::CacheStarted(false),
            Reply::CacheGo(false),
            Reply::CacheStarted(true),
            Reply::CacheGo(true),
            Reply::CacheGo(false),
        ],
    );
    assert_eq!(
        issued,
        vec![
            Access::ReadCacheGo,
            Access::ReadCacheGo,
            start,
            Access::ReadCacheGo,
            start,
            Access::ReadCacheGo,
            Access::ReadCacheGo,
        ]
    );
    assert_eq!(command.unless_running(true), None);
    assert_eq!(command.unless_running(false), Some(command));
}

#[test]
fn replies_are_told_apart() {
    assert!(Access::ReadStatus0.is_answered_by(&Reply::Status0(true)));
    assert!(!Access::ReadStatus0.is_answered_by(&Reply::Written));
    assert!(Access::ReadTxWatermark.is_answered_by(&Reply::TxWatermark(127)));
    assert!(!Access::ReadTxWatermark.is_answered_by(&Reply::TxWatermark(128)));
    assert!(Access::ReadRxWatermark.is_answered_by(&Reply::RxWatermark(63)));
    assert!(!Access::ReadRxWatermark.is_answered_by(&Reply::RxWatermark(64)));
    assert!(Access::TriggerCommand.is_answered_by(&Reply::Written));
    assert!(!Access::TriggerCommand.is_answered_by(&Reply::CacheStarted(true)));
}
