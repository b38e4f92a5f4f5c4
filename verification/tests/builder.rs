use inqjet::builder::{after_registration, is_color_enabled, Launch, DEFAULT_CAPACITY};
use inqjet::level::{level_to_u8, Level};
use inqjet::{
    log_enabled, set_level, BackpressureMode, ColorMode, Frontend, InqJetBuilder,
    InqJetBuilderError, LevelFilter,
};
use std::time::Duration;

#[test]
fn build_fails_without_writer() {
    let result = InqJetBuilder::<Vec<u8>>::default()
        .with_log_level(LevelFilter::Info)
        .build(false);
    assert!(matches!(
        result,
        Err(InqJetBuilderError::NoConfiguredWriter)
    ));
}

#[test]
fn build_fails_without_log_level() {
    let result = InqJetBuilder::default()
        .with_writer(std::io::sink())
        .build(false);
    assert!(matches!(
        result,
        Err(InqJetBuilderError::NoConfiguredLogLevel)
    ));
}

#[test]
fn build_fails_a_second_time() {
    let result = InqJetBuilder::<Vec<u8>>::default().build(true);
    assert!(matches!(
        result,
        Err(InqJetBuilderError::AlreadyInitialized)
    ));
}

#[test]
fn defaults() {
    let builder = InqJetBuilder::<Vec<u8>>::default();
    assert_eq!(builder.timeout, Some(Duration::from_millis(5)));
    assert_eq!(builder.color_mode, ColorMode::Auto);
    assert_eq!(builder.backpressure, BackpressureMode::Backoff);
    assert_eq!(builder.cap, None);
    assert_eq!(DEFAULT_CAPACITY, 65_536);
}

#[test]
fn build_hands_out_the_settings() {
    let Launch {
        producer: _,
        mut consumer,
        writer,
        level,
        timeout,
        color_mode,
        backpressure,
    } = InqJetBuilder::default()
        .with_writer(7u8)
        .with_log_level(LevelFilter::Warn)
        .with_buffer_size(1000)
        .with_timeout(None)
        .with_color_mode(ColorMode::Never)
        .with_backpressure(BackpressureMode::Drop)
        .build(false)
        .ok()
        .unwrap();
    assert_eq!(writer, 7);
    assert_eq!(level, LevelFilter::Warn);
    assert_eq!(timeout, None);
    assert_eq!(color_mode, ColorMode::Never);
    assert_eq!(backpressure, BackpressureMode::Drop);
    assert!(!consumer.take(&mut Vec::new()));
}

#[test]
fn error_messages() {
    assert_eq!(
        InqJetBuilderError::NoConfiguredWriter.message(),
        "no configured writer for appender"
    );
    assert_eq!(
        InqJetBuilderError::NoConfiguredLogLevel.message(),
        "no configured log level"
    );
    assert_eq!(
        InqJetBuilderError::AlreadyInitialized.message(),
        "logger already initialized (build() called more than once)"
    );
    let e: InqJetBuilderError = std::io::Error::new(std::io::ErrorKind::Other, "disk gone").into();
    assert_eq!(e.message(), "io error: disk gone");
    assert_eq!(e.message_with("x"), "io error: x");
}

struct Silent;

impl log::Log for Silent {
    fn enabled(&self, _: &log::Metadata<'_>) -> bool {
        false
    }
    fn log(&self, _: &log::Record<'_>) {}
    fn flush(&self) {}
}

#[test]
fn registration_has_to_succeed_for_the_log_crate_alone() {
    let first = log::set_boxed_logger(Box::new(Silent));
    assert!(after_registration(Frontend::LogCrate, first).is_ok());

    let again = log::set_boxed_logger(Box::new(Silent));
    assert!(after_registration(Frontend::Macros, again).is_ok());

    let again = log::set_boxed_logger(Box::new(Silent));
    let e = after_registration(Frontend::LogCrate, again).unwrap_err();
    assert!(matches!(e, InqJetBuilderError::SetLoggerError(_)));
    assert_eq!(
        e.message(),
        "attempted to set a logger after the logging system was already initialized"
    );
}

#[test]
fn colors_follow_the_mode() {
    assert!(is_color_enabled(ColorMode::Always, false, true, Some("dumb")));
    assert!(!is_color_enabled(ColorMode::Never, true, false, None));
}

#[test]
fn automatic_colors_follow_the_terminal() {
    assert!(is_color_enabled(ColorMode::Auto, true, false, None));
    assert!(is_color_enabled(ColorMode::Auto, true, false, Some("xterm")));
    assert!(!is_color_enabled(ColorMode::Auto, false, false, None));
    assert!(!is_color_enabled(ColorMode::Auto, true, true, None));
    assert!(!is_color_enabled(ColorMode::Auto, true, false, Some("dumb")));
}

#[test]
fn levels_pass_up_to_the_filter() {
    let filters = [
        LevelFilter::Off,
        LevelFilter::Error,
        LevelFilter::Warn,
        LevelFilter::Info,
        LevelFilter::Debug,
        LevelFilter::Trace,
    ];
    let levels = [
        Level::Error,
        Level::Warn,
        Level::Info,
        Level::Debug,
        Level::Trace,
    ];
    let mut max_level = 0u8;
    for (i, filter) in filters.iter().enumerate() {
        set_level(&mut max_level, *filter);
        assert_eq!(max_level, i as u8);
        assert_eq!(filter.as_u8(), i as u8);
        for (j, level) in levels.iter().enumerate() {
            assert_eq!(level_to_u8(*level), j as u8 + 1);
            assert_eq!(log_enabled(level_to_u8(*level), max_level), j < i);
        }
    }
}
