//! Log levels.

use vstd::prelude::*;

verus! {

/// Log level filter for configuring maximum verbosity.
///
/// Controls which log messages are processed. Messages at or below the
/// configured level are logged; more verbose levels are filtered out.
#[derive(Clone, Copy, Debug, PartialEq, Eq, PartialOrd, Ord, Hash, Structural)]
#[non_exhaustive]
pub enum LevelFilter {
    /// No messages will be logged.
    Off,
    /// Only error messages.
    Error,
    /// Error and warning messages.
    Warn,
    /// Error, warning, and info messages.
    Info,
    /// Error, warning, info, and debug messages.
    Debug,
    /// All messages including trace.
    Trace,
}

/// The level of a message.
#[derive(Clone, Copy, Debug, PartialEq, Eq, Structural)]
pub enum Level {
    Error,
    Warn,
    Info,
    Debug,
    Trace,
}

/// The number of a filter.
pub open spec fn filter_number(filter: LevelFilter) -> u8 {
    match filter {
        LevelFilter::Off => 0,
        LevelFilter::Error => 1,
        LevelFilter::Warn => 2,
        LevelFilter::Info => 3,
        LevelFilter::Debug => 4,
        LevelFilter::Trace => 5,
    }
}

/// The number of a message's level.
pub open spec fn level_number(level: Level) -> u8 {
    match level {
        Level::Error => 1,
        Level::Warn => 2,
        Level::Info => 3,
        Level::Debug => 4,
        Level::Trace => 5,
    }
}

/// A message of this level passes where this is the most verbose level that does.
pub open spec fn enabled(level: u8, max_level: u8) -> bool {
    level <= max_level
}

impl LevelFilter {
    /// The number of the filter, 0 for `Off` up to 5 for `Trace`.
    pub fn as_u8(self) -> (n: u8)
        ensures
            n == filter_number(self),
    {
        match self {
            LevelFilter::Off => 0,
            LevelFilter::Error => 1,
            LevelFilter::Warn => 2,
            LevelFilter::Info => 3,
            LevelFilter::Debug => 4,
            LevelFilter::Trace => 5,
        }
    }
}

/// The number of a message's level, 1 for `Error` up to 5 for `Trace`.
pub fn level_to_u8(level: Level) -> (n: u8)
    ensures
        n == level_number(level),
{
    match level {
        Level::Error => 1,
        Level::Warn => 2,
        Level::Info => 3,
        Level::Debug => 4,
        Level::Trace => 5,
    }
}

/// Fast level test: whether a message of this level passes the level that is
/// set.
pub fn log_enabled(level: u8, max_level: u8) -> (on: bool)
    ensures
        on == enabled(level, max_level),
{
    level <= max_level
}

/// Updates the level that is set.
///
/// Takes effect for all subsequent log calls. Existing in-flight records are
/// not affected.
pub fn set_level(max_level: &mut u8, level: LevelFilter)
    ensures
        *final(max_level) == filter_number(level),
{
    *max_level = level.as_u8();
}

/// With `Off` nothing is logged, with `Trace` everything is.
pub proof fn law_outer_filters(level: Level)
    ensures
        !enabled(level_number(level), filter_number(LevelFilter::Off)),
        enabled(level_number(level), filter_number(LevelFilter::Trace)),
{
}

/// Where a level is logged, so is every less verbose one.
pub proof fn law_less_verbose_passes(filter: LevelFilter, level: Level, other: Level)
    requires
        enabled(level_number(level), filter_number(filter)),
        level_number(other) <= level_number(level),
    ensures
        enabled(level_number(other), filter_number(filter)),
{
}

/// A filter lets its own level through, and nothing more verbose.
pub proof fn law_own_level_passes(filter: LevelFilter, level: Level)
    ensures
        filter_number(filter) == level_number(level) ==> enabled(
            level_number(level),
            filter_number(filter),
        ),
        level_number(level) > filter_number(filter) ==> !enabled(
            level_number(level),
            filter_number(filter),
        ),
{
}

/// The numbers of filters and levels, from the least verbose on, and which of
/// them pass: those up to the filter's.
pub proof fn law_level_numbers(a: u8, b: u8)
    ensures
        filter_number(LevelFilter::Off) == 0,
        filter_number(LevelFilter::Error) == 1 && level_number(Level::Error) == 1,
        filter_number(LevelFilter::Warn) == 2 && level_number(Level::Warn) == 2,
        filter_number(LevelFilter::Info) == 3 && level_number(Level::Info) == 3,
        filter_number(LevelFilter::Debug) == 4 && level_number(Level::Debug) == 4,
        filter_number(LevelFilter::Trace) == 5 && level_number(Level::Trace) == 5,
        enabled(a, b) <==> a <= b,
{
}

}
