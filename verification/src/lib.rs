//! InqJet: logging for latency-critical Rust applications.
//!
//! All log data flows through a ring buffer as raw bytes. Formatting happens on
//! a background archiver thread, not on the producer.
//!
//! The producer side encodes a message and commits its record
//! ([`logger`], [`pod`], [`stash`], [`record`], [`ring`]). The archiver takes
//! records, formats their lines ([`format`], [`archive`]) and keeps to a
//! schedule ([`consumer`]). The macros' format strings are analysed in
//! [`placeholder`].

pub mod archive;
pub mod attempts;
pub mod builder;
pub mod bytes;
pub mod calendar;
pub mod channel;
pub mod clock;
pub mod consumer;
pub mod format;
pub mod level;
pub mod logger;
pub mod notifier;
pub mod order;
pub mod placeholder;
pub mod pod;
pub mod pool;
pub mod queue;
pub mod rb;
pub mod record;
pub mod ring;
pub mod stash;
pub mod text;
pub mod wake;
pub mod writer;

pub use archive::{ArchiveHandle, ArchiveTag};
pub use builder::{BackpressureMode, ColorMode, Frontend, InqJetBuilder, InqJetBuilderError};
pub use level::{log_enabled, set_level, LevelFilter};
pub use pod::Pod;
pub use stash::reserve_fallback_capacity;
