use crossbeam_utils::sync::Parker;
use inqjet::clock::snap_timestamp;
use inqjet::logger::{
    after_claim, format_standard, hot_log_at, hot_log_submit, log_at, log_impl, next_record,
    LogRecord, LoggerState, Submission, SubmitStep, STANDARD_FORMATTER,
};
use inqjet::record::HEADER_SIZE;
use inqjet::ring::{record_ring, RecordConsumer, RecordProducer};
use inqjet::{BackpressureMode, ColorMode, Frontend, InqJetBuilder, LevelFilter};
use std::cell::Cell;
use std::sync::atomic::{AtomicBool, Ordering};
use std::sync::Arc;

fn state(parker: &Parker, backpressure: BackpressureMode) -> LoggerState {
    LoggerState {
        unparker: parker.unparker().clone(),
        backpressure,
        running: Arc::new(AtomicBool::new(true)),
        frontend: Frontend::Macros,
    }
}

/// Logs a message through a buffer that was used before.
fn log_message(
    producer: &mut RecordProducer<LogRecord>,
    logger: Option<&mut LoggerState>,
    level: u8,
    target: &str,
    line: u32,
    message: &str,
) -> Submission<()> {
    let mut buf = "used before".to_string();
    let s = log_impl(
        producer,
        logger,
        level,
        target,
        line,
        &mut buf,
        |text: &mut String| {
            assert_eq!(text, "");
            text.push_str(message);
        },
    );
    match s {
        Submission::Inactive | Submission::ClockBeforeEpoch => assert_eq!(buf, "used before"),
        _ => assert_eq!(buf, message),
    }
    s
}

/// The line number of the next record, if there is one.
fn next_line_number(consumer: &mut RecordConsumer<LogRecord>) -> Option<u32> {
    let mut record = Vec::new();
    next_record(consumer, &mut record)?;
    let line = record[HEADER_SIZE..HEADER_SIZE + 4].try_into().unwrap();
    Some(u32::from_le_bytes(line))
}

#[test]
fn message_travels_to_its_line() {
    let parker = Parker::new();
    let mut state = state(&parker, BackpressureMode::Backoff);
    let (mut producer, mut consumer) = record_ring::<LogRecord>(1024);
    let s = log_at(
        &mut producer,
        &mut state,
        true,
        Some(1_705_329_045_123_456_789),
        3,
        "my_app",
        42,
        "hello world",
    );
    assert!(matches!(s, Submission::Committed));

    let mut record = vec![9; 3];
    let header = next_record(&mut consumer, &mut record).unwrap();
    assert_eq!(header.formatter, STANDARD_FORMATTER);
    let mut out = Vec::new();
    assert!(format_standard(
        &header,
        &record[HEADER_SIZE..],
        &mut out,
        false
    ));
    assert_eq!(
        String::from_utf8(out).unwrap(),
        "2024-01-15T14:30:45.123456789Z [INFO] my_app:42 hello world\n"
    );
    let kept = record.clone();
    assert!(next_record(&mut consumer, &mut record).is_none());
    assert_eq!(record, kept);
}

#[test]
fn messages_come_out_in_order() {
    let parker = Parker::new();
    let mut state = state(&parker, BackpressureMode::Backoff);
    let (mut producer, mut consumer) = record_ring::<LogRecord>(4096);
    let mut other = producer.another();
    for i in 0..4u32 {
        let p = if i % 2 == 0 { &mut producer } else { &mut other };
        log_message(p, Some(&mut state), 1, "t", i, "m");
    }
    for i in 0..4u32 {
        assert_eq!(next_line_number(&mut consumer), Some(i));
    }
}

#[test]
fn nothing_is_logged_without_a_logger_or_after_shutdown() {
    let parker = Parker::new();
    let mut state = state(&parker, BackpressureMode::Backoff);
    let (mut producer, mut consumer) = record_ring::<LogRecord>(1024);
    let never = |_: &mut [u8]| panic!("encoder was run");
    assert!(matches!(
        log_message(&mut producer, None, 1, "t", 1, "m"),
        Submission::Inactive
    ));
    assert!(matches!(
        hot_log_submit(&mut producer, None, 1, 1, 99, never),
        Submission::Inactive
    ));
    let mut buf = String::new();
    let unasked = |_: &mut String| panic!("formatter was run");
    assert!(matches!(
        log_impl(&mut producer, None, 1, "t", 1, &mut buf, unasked),
        Submission::Inactive
    ));
    state.running.store(false, Ordering::Relaxed);
    assert!(matches!(
        log_message(&mut producer, Some(&mut state), 1, "t", 1, "m"),
        Submission::Inactive
    ));
    assert!(matches!(
        hot_log_submit(&mut producer, Some(&mut state), 1, 1, 99, never),
        Submission::Inactive
    ));
    assert_eq!(next_line_number(&mut consumer), None);
}

#[test]
fn committed_messages_wake_the_archiver_of_the_log_crate() {
    let parker = Parker::new();
    let mut state = state(&parker, BackpressureMode::Drop);
    let (mut producer, _consumer) = record_ring::<LogRecord>(64);
    let log = |producer: &mut _, state: &mut _| log_at(producer, state, true, Some(1), 1, "t", 1, "");

    state.frontend = Frontend::LogCrate;
    assert!(matches!(log(&mut producer, &mut state), Submission::Committed));
    // The archiver was woken: parking returns at once.
    parker.park();
    assert!(matches!(log(&mut producer, &mut state), Submission::Dropped));
}

#[test]
fn another_thread_has_the_same_logger() {
    let parker = Parker::new();
    let state = state(&parker, BackpressureMode::Backoff);
    let mut other = state.another();
    let (mut producer, mut consumer) = record_ring::<LogRecord>(16);
    assert!(matches!(
        log_message(&mut producer, Some(&mut other), 1, "t", 1, "m"),
        Submission::Pending(_, ())
    ));
    // The same archiver was woken: parking returns at once.
    parker.park();
    state.running.store(false, Ordering::Relaxed);
    assert!(matches!(
        log_message(&mut producer, Some(&mut other), 1, "t", 1, "m"),
        Submission::Inactive
    ));
    assert_eq!(next_line_number(&mut consumer), None);
}

#[test]
fn overlong_target_of_an_inactive_logger_is_ignored() {
    let parker = Parker::new();
    let mut state = state(&parker, BackpressureMode::Backoff);
    let (mut producer, _consumer) = record_ring::<LogRecord>(1024);
    let target = "t".repeat(70_000);
    assert!(matches!(
        log_message(&mut producer, None, 1, &target, 1, "m"),
        Submission::Inactive
    ));
    assert!(matches!(
        log_at(&mut producer, &mut state, false, Some(1), 1, &target, 1, "m"),
        Submission::Inactive
    ));
    assert!(matches!(
        log_at(&mut producer, &mut state, true, None, 1, &target, 1, "m"),
        Submission::ClockBeforeEpoch
    ));
}

#[test]
fn clock_before_the_epoch_is_reported() {
    let parker = Parker::new();
    let mut state = state(&parker, BackpressureMode::Drop);
    let (mut producer, mut consumer) = record_ring::<LogRecord>(1024);
    let never = |_: &mut [u8]| panic!("encoder was run");
    assert!(matches!(
        log_at(&mut producer, &mut state, true, None, 1, "t", 1, "m"),
        Submission::ClockBeforeEpoch
    ));
    assert!(matches!(
        hot_log_at(&mut producer, &mut state, true, None, 1, 1, 9, never),
        Submission::ClockBeforeEpoch
    ));
    assert!(matches!(
        hot_log_at(&mut producer, &mut state, false, None, 1, 1, 9, never),
        Submission::Inactive
    ));
    assert_eq!(next_line_number(&mut consumer), None);
}

#[test]
fn hot_record_carries_its_payload_and_formatter() {
    let parker = Parker::new();
    let mut state = state(&parker, BackpressureMode::Backoff);
    let (mut producer, mut consumer) = record_ring::<LogRecord>(1024);
    let before = snap_timestamp().unwrap();
    let s = hot_log_submit(
        &mut producer,
        Some(&mut state),
        4,
        3,
        0xdead_beef,
        |buf: &mut [u8]| {
            assert_eq!(buf, &[0, 0, 0]);
            buf[1] = 7;
        },
    );
    assert!(matches!(s, Submission::Committed));
    let after = snap_timestamp().unwrap();
    let mut record = Vec::new();
    let header = next_record(&mut consumer, &mut record).unwrap();
    assert!(before <= header.timestamp_ns && header.timestamp_ns <= after);
    assert_eq!((header.formatter, header.level), (0xdead_beef, 4));
    assert_eq!(&record[HEADER_SIZE..], &[0, 7, 0]);
    let mut out = b"x".to_vec();
    assert!(!format_standard(
        &header,
        &record[HEADER_SIZE..],
        &mut out,
        false
    ));
    assert_eq!(out, b"x");
}

#[test]
fn encoder_always_finds_zeros() {
    let parker = Parker::new();
    let mut state = state(&parker, BackpressureMode::Drop);
    let (mut producer, mut consumer) = record_ring::<LogRecord>(256);
    let mut record = Vec::new();
    for size in 0..60 {
        let s = hot_log_submit(&mut producer, Some(&mut state), 1, size, 5, |buf: &mut [u8]| {
            assert_eq!(buf.len(), size);
            assert!(buf.iter().all(|b| *b == 0));
            buf.fill(0xff);
        });
        assert!(matches!(s, Submission::Committed));
        assert!(next_record(&mut consumer, &mut record).is_some());
        assert_eq!(&record[HEADER_SIZE..], vec![0xff; size].as_slice());
    }
}

#[test]
fn encoder_of_a_dropped_message_is_not_run() {
    let parker = Parker::new();
    let mut state = state(&parker, BackpressureMode::Drop);
    let (mut producer, mut consumer) = record_ring::<LogRecord>(256);
    let runs = Cell::new(0);
    let mut committed = 0;
    for _ in 0..20 {
        let s = hot_log_submit(&mut producer, Some(&mut state), 1, 8, 5, |_: &mut [u8]| {
            runs.set(runs.get() + 1);
        });
        match s {
            Submission::Committed => committed += 1,
            Submission::Dropped => {}
            _ => panic!("neither committed nor dropped"),
        }
    }
    assert!(committed > 0 && committed < 20);
    assert_eq!(runs.get(), committed);
    let mut taken = 0;
    while next_line_number(&mut consumer).is_some() {
        taken += 1;
    }
    assert_eq!(taken, committed);
}

#[test]
fn encoder_of_a_pending_message_comes_back() {
    let parker = Parker::new();
    let mut state = state(&parker, BackpressureMode::Backoff);
    let (mut producer, mut consumer) = record_ring::<LogRecord>(64);
    assert!(matches!(
        log_at(&mut producer, &mut state, true, Some(1), 1, "t", 1, "m"),
        Submission::Committed
    ));
    let runs = Cell::new(0);
    let encode = |buf: &mut [u8]| {
        runs.set(runs.get() + 1);
        buf[0] = 77;
    };
    let s = hot_log_at(&mut producer, &mut state, true, Some(5), 1, 4, 9, encode);
    let Submission::Pending(ts, encode) = s else {
        panic!("not pending");
    };
    assert_eq!((ts, runs.get()), (5, 0));
    // The archiver was woken: parking returns at once.
    parker.park();
    assert_eq!(next_line_number(&mut consumer), Some(1));
    let s = hot_log_at(&mut producer, &mut state, true, Some(ts), 1, 4, 9, encode);
    assert!(matches!(s, Submission::Committed));
    assert_eq!(runs.get(), 1);
    let mut record = Vec::new();
    let header = next_record(&mut consumer, &mut record).unwrap();
    assert_eq!(header.timestamp_ns, 5);
    assert_eq!(&record[HEADER_SIZE..], &[77, 0, 0, 0]);
}

#[test]
fn backpressure_drop() {
    let launch = InqJetBuilder::default()
        .with_writer(Vec::<u8>::new())
        .with_log_level(LevelFilter::Info)
        .with_color_mode(ColorMode::Never)
        .with_buffer_size(512)
        .with_backpressure(BackpressureMode::Drop)
        .with_timeout(None)
        .build(false)
        .ok()
        .unwrap();
    let (mut producer, mut consumer) = (launch.producer, launch.consumer);
    let mut writer = launch.writer;
    let parker = Parker::new();
    let mut state = state(&parker, launch.backpressure);
    let mut record = Vec::new();

    // Tight loop: overwhelm the tiny buffer, which is drained now and then.
    for i in 0..10_000u32 {
        let s = log_message(&mut producer, Some(&mut state), 3, "app", 1, &format!("bp {}", i));
        assert!(matches!(s, Submission::Committed | Submission::Dropped));
        if i % 100 == 99 {
            while let Some(header) = next_record(&mut consumer, &mut record) {
                let payload = &record[HEADER_SIZE..];
                assert!(format_standard(&header, payload, &mut writer, false));
            }
        }
    }

    let output = String::from_utf8(writer).unwrap();
    let count = output.lines().count();

    assert!(count > 0, "consumer should have processed some messages");
    assert!(
        count < 10_000,
        "with 512-byte buffer and Drop mode, some messages should be dropped (got {count})"
    );
}

#[test]
fn full_ring_is_tried_again_in_backoff_mode() {
    let parker = Parker::new();
    let mut state = state(&parker, BackpressureMode::Backoff);
    let (mut producer, mut consumer) = record_ring::<LogRecord>(256);
    let mut pending = None;
    for i in 0..100u32 {
        match log_message(&mut producer, Some(&mut state), 3, "t", i, "bp") {
            Submission::Committed => {}
            Submission::Pending(ts, ()) => {
                pending = Some((i, ts));
                break;
            }
            _ => panic!("neither committed nor pending"),
        }
    }
    let (i, ts) = pending.unwrap();
    // The archiver was woken: parking returns at once.
    parker.park();
    let mut again = |producer: &mut _| log_at(producer, &mut state, true, Some(ts), 3, "t", i, "bp");
    assert!(matches!(again(&mut producer), Submission::Pending(t, ()) if t == ts));
    while next_line_number(&mut consumer).is_some() {}
    assert!(matches!(again(&mut producer), Submission::Committed));
    assert_eq!(next_line_number(&mut consumer), Some(i));
}

#[test]
fn oversized_messages_never_fit() {
    let parker = Parker::new();
    let mut state = state(&parker, BackpressureMode::Drop);
    let (mut producer, _consumer) = record_ring::<LogRecord>(16);
    assert!(matches!(
        log_message(&mut producer, Some(&mut state), 3, "t", 1, "message"),
        Submission::Dropped
    ));
    assert!(matches!(
        hot_log_submit(
            &mut producer,
            Some(&mut state),
            3,
            usize::MAX,
            9,
            |_: &mut [u8]| panic!("encoder was run")
        ),
        Submission::Dropped
    ));
}

#[test]
fn capacity_rounds_up_to_a_power_of_two() {
    let parker = Parker::new();
    let mut state = state(&parker, BackpressureMode::Drop);
    let message = "x".repeat(88);
    let (mut producer, _consumer) = record_ring::<LogRecord>(65);
    let s = log_message(&mut producer, Some(&mut state), 1, "t", 1, &message);
    assert!(matches!(s, Submission::Committed));
    let (mut producer, _consumer) = record_ring::<LogRecord>(64);
    let s = log_message(&mut producer, Some(&mut state), 1, "t", 1, &message);
    assert!(matches!(s, Submission::Dropped));
}

#[test]
fn outcomes_under_each_mode() {
    let drop = BackpressureMode::Drop;
    let backoff = BackpressureMode::Backoff;
    assert_eq!(after_claim(true, drop), SubmitStep::Committed);
    assert_eq!(after_claim(true, backoff), SubmitStep::Committed);
    assert_eq!(after_claim(false, drop), SubmitStep::Dropped);
    assert_eq!(after_claim(false, backoff), SubmitStep::Retry);
}

#[test]
fn message_record_bytes() {
    let parker = Parker::new();
    let mut state = state(&parker, BackpressureMode::Drop);
    let (mut producer, mut consumer) = record_ring::<LogRecord>(256);
    log_at(&mut producer, &mut state, true, Some(5), 2, "ab", 3, "c");
    let mut record = Vec::new();
    assert!(consumer.take(&mut record));
    assert_eq!(record.len(), HEADER_SIZE + 9);
    assert_eq!(&record[..8], &[5, 0, 0, 0, 0, 0, 0, 0]);
    assert_eq!(&record[8..24], &[0, 0, 0, 0, 0, 0, 0, 0, 2, 0, 0, 0, 0, 0, 0, 0]);
    assert_eq!(&record[24..], &[3, 0, 0, 0, 2, 0, b'a', b'b', b'c']);
}
