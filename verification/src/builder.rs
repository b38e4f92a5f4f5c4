//! Configuring a logger.

use crate::clock::duration_nanos;
use crate::level::LevelFilter;
use crate::logger::LogRecord;
use crate::ring::{
    max_ring_capacity, record_ring, rounded_capacity, RecordConsumer, RecordProducer,
};
use std::io;
use std::time::Duration;
use vstd::prelude::*;

verus! {

/// Default ring capacity in bytes (64KB).
pub const DEFAULT_CAPACITY: usize = 65_536;

/// Default parking timeout for the archiver thread, in milliseconds.
pub const DEFAULT_TIMEOUT_MILLIS: u64 = 5;

/// Controls ANSI color output.
#[derive(Clone, Copy, Debug, PartialEq, Eq, Hash, Structural)]
#[non_exhaustive]
pub enum ColorMode {
    /// Enable colors if stdout is a terminal, `NO_COLOR` is unset, and
    /// `TERM` is not `"dumb"`.
    Auto,
    /// Always emit ANSI color codes.
    Always,
    /// Never emit ANSI color codes.
    Never,
}

/// Controls producer behavior when the ring buffer is full.
#[derive(Clone, Copy, Debug, PartialEq, Eq, Structural)]
#[non_exhaustive]
pub enum BackpressureMode {
    /// Exponential backoff: the record is tried again until it is committed.
    ///
    /// Guarantees delivery at the cost of variable producer latency under
    /// pressure. This is the default.
    Backoff,
    /// Drop the message and return immediately.
    ///
    /// Lowest and most predictable producer latency. Use when bounded
    /// latency matters more than log completeness.
    Drop,
}

/// What messages come through.
#[derive(Clone, Copy, Debug, PartialEq, Eq, Structural)]
pub enum Frontend {
    /// Through the macros, which bypass the `log` facade, and through the `log`
    /// crate where no other logger is registered there.
    ///
    /// The archiver looks for records by itself, and is woken only to make room.
    Macros,
    /// Through the `log` crate alone, where the logger has to be registered.
    ///
    /// Each message wakes the archiver.
    LogCrate,
}

/// `log::SetLoggerError`, carried and never looked into.
#[verifier::external_type_specification]
#[verifier::external_body]
pub struct ExSetLoggerError(log::SetLoggerError);

/// Errors during logger initialization.
#[derive(Debug)]
#[non_exhaustive]
pub enum InqJetBuilderError {
    NoConfiguredWriter,
    NoConfiguredLogLevel,
    AlreadyInitialized,
    IoError(io::Error),
    SetLoggerError(log::SetLoggerError),
}

impl From<log::SetLoggerError> for InqJetBuilderError {
    fn from(e: log::SetLoggerError) -> (r: Self) {
        InqJetBuilderError::SetLoggerError(e)
    }
}

impl vstd::std_specs::convert::FromSpecImpl<log::SetLoggerError> for InqJetBuilderError {
    open spec fn obeys_from_spec() -> bool {
        true
    }

    open spec fn from_spec(e: log::SetLoggerError) -> Self {
        InqJetBuilderError::SetLoggerError(e)
    }
}

impl From<io::Error> for InqJetBuilderError {
    fn from(e: io::Error) -> (r: Self) {
        InqJetBuilderError::IoError(e)
    }
}

impl vstd::std_specs::convert::FromSpecImpl<io::Error> for InqJetBuilderError {
    open spec fn obeys_from_spec() -> bool {
        true
    }

    open spec fn from_spec(e: io::Error) -> Self {
        InqJetBuilderError::IoError(e)
    }
}

/// `std::io::Error` as text, by its `Display`. The text comes from the operating
/// system in part, and nothing is claimed of it.
#[verifier::external_body]
fn io_error_text(e: &io::Error) -> String {
    format!("{}", e)
}

/// `log::SetLoggerError` as text, by its `Display`, which is the same for all of
/// them.
#[verifier::external_body]
fn set_logger_error_text(e: &log::SetLoggerError) -> (s: String)
    ensures
        s@ == "attempted to set a logger after the logging system was already initialized"@,
{
    format!("{}", e)
}

/// The message of an error, with the text of the `io::Error` that it holds, if
/// it holds one.
pub open spec fn message_text(e: InqJetBuilderError, io_text: Seq<char>) -> Seq<char> {
    match e {
        InqJetBuilderError::NoConfiguredWriter => "no configured writer for appender"@,
        InqJetBuilderError::NoConfiguredLogLevel => "no configured log level"@,
        InqJetBuilderError::AlreadyInitialized =>
            "logger already initialized (build() called more than once)"@,
        InqJetBuilderError::IoError(_) => "io error: "@ + io_text,
        InqJetBuilderError::SetLoggerError(_) =>
            "attempted to set a logger after the logging system was already initialized"@,
    }
}

impl InqJetBuilderError {
    /// The message of the error, with the text of the `io::Error` that it
    /// holds, if it holds one.
    pub fn message_with(&self, io_text: &str) -> (s: String)
        ensures
            s@ == message_text(*self, io_text@),
    {
        match self {
            InqJetBuilderError::NoConfiguredWriter => "no configured writer for appender".to_owned(),
            InqJetBuilderError::NoConfiguredLogLevel => "no configured log level".to_owned(),
            InqJetBuilderError::AlreadyInitialized => {
                "logger already initialized (build() called more than once)".to_owned()
            },
            InqJetBuilderError::IoError(_) => {
                let mut s: String = "io error: ".to_owned();
                s.append(io_text);
                s
            },
            InqJetBuilderError::SetLoggerError(e) => set_logger_error_text(e),
        }
    }

    /// The message of the error.
    pub fn message(&self) -> (s: String)
        ensures
            exists|io_text: Seq<char>| s@ == #[trigger] message_text(*self, io_text),
    {
        match self {
            InqJetBuilderError::IoError(e) => {
                let text: String = io_error_text(e);
                self.message_with(text.as_str())
            },
            _ => self.message_with(""),
        }
    }
}

/// Builder for configuring and creating an InqJet logger.
///
/// # Buffer Size
///
/// `with_buffer_size` sets the ring buffer size in **bytes** (not messages).
/// The ring rounds up to the next power of two internally.
/// Default: 64KB (~300-600 typical log messages).
pub struct InqJetBuilder<W> {
    pub wr: Option<W>,
    pub level: Option<LevelFilter>,
    pub cap: Option<usize>,
    pub timeout: Option<Duration>,
    pub color_mode: ColorMode,
    pub backpressure: BackpressureMode,
}

impl<W> Default for InqJetBuilder<W> {
    fn default() -> (b: Self)
        ensures
            b.wr is None,
            b.level is None,
            b.cap is None,
            b.timeout matches Some(d) && duration_nanos(d) == DEFAULT_TIMEOUT_MILLIS * 1_000_000,
            b.color_mode == ColorMode::Auto,
            b.backpressure == BackpressureMode::Backoff,
    {
        InqJetBuilder {
            wr: None,
            level: None,
            cap: None,
            timeout: Some(Duration::from_millis(DEFAULT_TIMEOUT_MILLIS)),
            color_mode: ColorMode::Auto,
            backpressure: BackpressureMode::Backoff,
        }
    }
}

/// What is needed to run a logger: the two ends of its ring, and its settings.
pub struct Launch<W> {
    pub producer: RecordProducer<LogRecord>,
    pub consumer: RecordConsumer<LogRecord>,
    pub writer: W,
    pub level: LevelFilter,
    pub timeout: Option<Duration>,
    pub color_mode: ColorMode,
    pub backpressure: BackpressureMode,
}

impl<W> InqJetBuilder<W> {
    /// The capacity that the ring is asked for.
    pub open spec fn requested_capacity(self) -> usize {
        match self.cap {
            Some(c) => c,
            None => DEFAULT_CAPACITY,
        }
    }

    /// Sets the output writer for log messages.
    #[must_use]
    pub fn with_writer(self, wr: W) -> (b: Self)
        ensures
            b == (InqJetBuilder { wr: Some(wr), ..self }),
    {
        InqJetBuilder { wr: Some(wr), ..self }
    }

    /// Sets the ring buffer size in bytes.
    ///
    /// Rounded up to the next power of two.
    /// Default: 65536 (64KB).
    #[must_use]
    pub fn with_buffer_size(self, cap: usize) -> (b: Self)
        ensures
            b == (InqJetBuilder { cap: Some(cap), ..self }),
    {
        InqJetBuilder { cap: Some(cap), ..self }
    }

    /// Sets the maximum log level to process.
    #[must_use]
    pub fn with_log_level(self, level: LevelFilter) -> (b: Self)
        ensures
            b == (InqJetBuilder { level: Some(level), ..self }),
    {
        InqJetBuilder { level: Some(level), ..self }
    }

    /// Sets the archiver thread parking timeout.
    ///
    /// - `Some(duration)`: Park with timeout, periodic wakeups
    /// - `None`: Busy spin (highest CPU, lowest latency)
    #[must_use]
    pub fn with_timeout(self, timeout: Option<Duration>) -> (b: Self)
        ensures
            b == (InqJetBuilder { timeout, ..self }),
    {
        InqJetBuilder { timeout, ..self }
    }

    /// Sets the color mode for log output.
    #[must_use]
    pub fn with_color_mode(self, color_mode: ColorMode) -> (b: Self)
        ensures
            b == (InqJetBuilder { color_mode, ..self }),
    {
        InqJetBuilder { color_mode, ..self }
    }

    /// Sets the backpressure strategy when the ring buffer is full.
    ///
    /// Default: [`BackpressureMode::Backoff`].
    #[must_use]
    pub fn with_backpressure(self, mode: BackpressureMode) -> (b: Self)
        ensures
            b == (InqJetBuilder { backpressure: mode, ..self }),
    {
        InqJetBuilder { backpressure: mode, ..self }
    }

    /// The writer and the level, or what keeps the logger from being built.
    fn settings(wr: Option<W>, level: Option<LevelFilter>, initialized: bool) -> (r: Result<
        (W, LevelFilter),
        InqJetBuilderError,
    >)
        ensures
            r matches Ok(s) ==> !initialized && wr == Some(s.0) && level == Some(s.1),
            r matches Err(e) ==> failure(wr is Some, level is Some, initialized) == Some(e),
            r is Ok <==> failure(wr is Some, level is Some, initialized) is None,
    {
        if initialized {
            return Err(InqJetBuilderError::AlreadyInitialized);
        }
        match wr {
            None => Err(InqJetBuilderError::NoConfiguredWriter),
            Some(writer) => match level {
                None => Err(InqJetBuilderError::NoConfiguredLogLevel),
                Some(level) => Ok((writer, level)),
            },
        }
    }

    /// Builds the logger's ring and hands out everything that it takes to run
    /// it. `initialized` says whether the process has a logger already.
    pub fn build(self, initialized: bool) -> (r: Result<Launch<W>, InqJetBuilderError>)
        requires
            failure(self.wr is Some, self.level is Some, initialized) is None ==> 16
                <= self.requested_capacity() <= max_ring_capacity(),
        ensures
            r matches Err(e) ==> failure(self.wr is Some, self.level is Some, initialized) == Some(e),
            r is Ok <==> failure(self.wr is Some, self.level is Some, initialized) is None,
            r matches Ok(l) ==> {
                &&& self.wr == Some(l.writer)
                &&& self.level == Some(l.level)
                &&& l.timeout == self.timeout
                &&& l.color_mode == self.color_mode
                &&& l.backpressure == self.backpressure
                &&& l.producer.committed() == Seq::<Seq<u8>>::empty()
                &&& l.producer.asked() == Seq::<nat>::empty()
                &&& l.consumer.taken() == Seq::<Seq<u8>>::empty()
                &&& l.consumer.looks() == 0
                &&& rounded_capacity(self.requested_capacity(), l.producer.capacity())
                &&& l.producer.wf() && l.consumer.wf()
                &&& l.producer.stream() == l.consumer.stream()
            },
    {
        let capacity: usize = match self.cap {
            Some(c) => c,
            None => DEFAULT_CAPACITY,
        };
        match Self::settings(self.wr, self.level, initialized) {
            Err(e) => Err(e),
            Ok((writer, level)) => {
                let (producer, consumer) = record_ring::<LogRecord>(capacity);
                Ok(
                    Launch {
                        producer,
                        consumer,
                        writer,
                        level,
                        timeout: self.timeout,
                        color_mode: self.color_mode,
                        backpressure: self.backpressure,
                    },
                )
            },
        }
    }
}

/// What keeps a logger from being built: that there is one already, then that
/// no writer was set, then that no level was.
pub open spec fn failure(has_writer: bool, has_level: bool, initialized: bool) -> Option<
    InqJetBuilderError,
> {
    if initialized {
        Some(InqJetBuilderError::AlreadyInitialized)
    } else if !has_writer {
        Some(InqJetBuilderError::NoConfiguredWriter)
    } else if !has_level {
        Some(InqJetBuilderError::NoConfiguredLogLevel)
    } else {
        None
    }
}

/// What becomes of an attempt to register the logger with the `log` crate: it
/// matters only where messages come through that crate alone.
pub fn after_registration(frontend: Frontend, outcome: Result<(), log::SetLoggerError>) -> (r:
    Result<(), InqJetBuilderError>)
    ensures
        r == match (frontend, outcome) {
            (Frontend::LogCrate, Err(e)) => Err(InqJetBuilderError::SetLoggerError(e)),
            _ => Ok(()),
        },
{
    match frontend {
        Frontend::Macros => Ok(()),
        Frontend::LogCrate => match outcome {
            Ok(()) => Ok(()),
            Err(e) => Err(InqJetBuilderError::from(e)),
        },
    }
}

/// Whether output is colored: as the mode says, or, in `Auto` mode, where
/// stdout is a terminal, `NO_COLOR` is not set, and `TERM` is not `"dumb"`.
pub fn is_color_enabled(
    color_mode: ColorMode,
    is_terminal: bool,
    no_color_set: bool,
    term: Option<&str>,
) -> (on: bool)
    ensures
        on == match color_mode {
            ColorMode::Auto => is_terminal && !no_color_set && !(term matches Some(t) && t@
                == "dumb"@),
            ColorMode::Always => true,
            ColorMode::Never => false,
        },
{
    match color_mode {
        ColorMode::Auto => {
            if !is_terminal || no_color_set {
                return false;
            }
            match term {
                Some(t) => t.to_owned() != "dumb".to_owned(),
                None => true,
            }
        },
        ColorMode::Always => true,
        ColorMode::Never => false,
    }
}

/// What keeps a logger from being built, in the order in which it is looked at.
pub proof fn law_failures(has_writer: bool, has_level: bool, initialized: bool)
    ensures
        failure(has_writer, has_level, initialized) is None <==> has_writer && has_level
            && !initialized,
        failure(has_writer, has_level, true) == Some(InqJetBuilderError::AlreadyInitialized),
        failure(false, has_level, false) == Some(InqJetBuilderError::NoConfiguredWriter),
        failure(true, false, false) == Some(InqJetBuilderError::NoConfiguredLogLevel),
{
}

/// The messages of the errors.
pub proof fn law_messages(e: io::Error, f: log::SetLoggerError, io_text: Seq<char>)
    ensures
        message_text(InqJetBuilderError::NoConfiguredWriter, io_text)
            == "no configured writer for appender"@,
        message_text(InqJetBuilderError::NoConfiguredLogLevel, io_text)
            == "no configured log level"@,
        message_text(InqJetBuilderError::AlreadyInitialized, io_text)
            == "logger already initialized (build() called more than once)"@,
        message_text(InqJetBuilderError::IoError(e), io_text) == "io error: "@ + io_text,
        message_text(InqJetBuilderError::SetLoggerError(f), io_text)
            == "attempted to set a logger after the logging system was already initialized"@,
{
}

/// The ring is asked for the size that was set, and for 64KB where none was.
pub proof fn law_requested_capacity<W>(b: InqJetBuilder<W>)
    ensures
        b.cap matches Some(cap) ==> b.requested_capacity() == cap,
        b.cap is None ==> b.requested_capacity() == 65536,
{
}

/// The defaults: a ring of 64KB, and an archiver that looks for records at least
/// every 5 milliseconds.
pub proof fn law_defaults()
    ensures
        DEFAULT_CAPACITY == 64 * 1024,
        DEFAULT_TIMEOUT_MILLIS == 5,
{
}

/// An error that comes from elsewhere is carried as it is.
pub proof fn law_carried_errors(e: io::Error, f: log::SetLoggerError)
    ensures
        <InqJetBuilderError as vstd::std_specs::convert::FromSpec<io::Error>>::from_spec(e)
            == InqJetBuilderError::IoError(e),
        <InqJetBuilderError as vstd::std_specs::convert::FromSpec<log::SetLoggerError>>::from_spec(
            f,
        ) == InqJetBuilderError::SetLoggerError(f),
        <InqJetBuilderError as vstd::std_specs::convert::FromSpec<io::Error>>::obeys_from_spec(),
        <InqJetBuilderError as vstd::std_specs::convert::FromSpec<
            log::SetLoggerError,
        >>::obeys_from_spec(),
{
}

}
