//! Producer-side logging.
//!
//! Each thread commits through a producer handle of its own. A record that
//! finds the ring full is dropped or tried again, as the backpressure mode
//! says.

use crate::builder::{BackpressureMode, Frontend};
use crate::bytes::{overwrite, zeros};
use crate::clock::{snap_timestamp, stamped};
use crate::format::{format_record, law_logged_line, line_bytes, record_line};
use crate::record::{
    header_array, is_standard_payload, law_header_layout, law_payload_layout,
    law_payload_round_trip, law_record_layout, law_record_round_trip, lemma_header_len,
    lemma_prefix_len, read_header, record_bytes, standard_payload, write_standard_payload,
    RecordHeader, HEADER_SIZE,
};
use crate::ring::{RecordConsumer, RecordKind, RecordProducer};
use crate::wake::{clone_unparker, wake, wakes};
use crossbeam_utils::sync::Unparker;
use std::sync::atomic::{AtomicBool, Ordering};
use std::sync::Arc;
use std::time::SystemTime;
use vstd::arithmetic::power::pow;
use vstd::prelude::*;
use vstd::utf8::encode_utf8;

verus! {

/// The formatter of records that hold a standard payload. No function has this
/// address.
pub const STANDARD_FORMATTER: u64 = 0;

/// The records of the log stream: a header, then a payload, which is a
/// standard one where the header says so.
pub struct LogRecord;

impl RecordKind for LogRecord {
    open spec fn valid(record: Seq<u8>) -> bool {
        exists|h: RecordHeader, payload: Seq<u8>|
            record == #[trigger] record_bytes(h, payload) && (h.formatter == STANDARD_FORMATTER
                ==> is_standard_payload(payload))
    }
}

/// What a producer needs to know of the logger. Each thread has one of its own.
pub struct LoggerState {
    /// Unparker for waking the archiver thread.
    pub unparker: Unparker,
    /// Backpressure strategy when the ring buffer is full.
    pub backpressure: BackpressureMode,
    /// Shutdown flag, shared with guard and archiver.
    pub running: Arc<AtomicBool>,
    /// What messages come through.
    pub frontend: Frontend,
}

/// The flag that a handle reaches.
pub uninterp spec fn flag_behind(handle: Arc<AtomicBool>) -> Arc<AtomicBool>;

/// Whether the flag was set when it was last read through a handle.
pub uninterp spec fn last_flag(handle: Arc<AtomicBool>) -> bool;

/// `AtomicBool::load` through a handle, with relaxed ordering: whether the flag
/// is set. The other threads may change it at any time, so that the answer is
/// left open.
#[verifier::external_body]
fn read_flag(handle: &mut Arc<AtomicBool>) -> (set: bool)
    ensures
        last_flag(*final(handle)) == set,
        flag_behind(*final(handle)) == flag_behind(*old(handle)),
{
    handle.load(Ordering::Relaxed)
}

/// `Arc::clone`: another handle to the same flag.
#[verifier::external_body]
fn share_flag(handle: &Arc<AtomicBool>) -> (other: Arc<AtomicBool>)
    ensures
        flag_behind(other) == flag_behind(*handle),
{
    handle.clone()
}

impl LoggerState {
    /// How often the archiver was woken through this.
    pub open spec fn wakes(self) -> nat {
        wakes(self.unparker)
    }

    /// The flag was set when it was last read through this.
    pub open spec fn was_running(self) -> bool {
        last_flag(self.running)
    }

    /// The logger is the same.
    pub open spec fn same_logger(self, other: Self) -> bool {
        &&& self.backpressure == other.backpressure
        &&& self.frontend == other.frontend
        &&& flag_behind(self.running) == flag_behind(other.running)
    }

    /// The logger is still the same, and the archiver was woken if `woken` says
    /// so.
    pub open spec fn follows(self, before: Self, woken: bool) -> bool {
        &&& self.same_logger(before)
        &&& self.wakes() == before.wakes() + (if woken {
            1nat
        } else {
            0
        })
    }

    /// The same for another thread.
    pub fn another(&self) -> (other: LoggerState)
        ensures
            other.same_logger(*self),
            other.wakes() == 0,
    {
        LoggerState {
            unparker: clone_unparker(&self.unparker),
            backpressure: self.backpressure,
            running: share_flag(&self.running),
            frontend: self.frontend,
        }
    }
}

/// What comes of one attempt to submit a record.
#[derive(Clone, Copy, Debug, PartialEq, Eq, Structural)]
pub enum SubmitStep {
    /// The record was committed.
    Committed,
    /// The ring was full, and the record is given up.
    Dropped,
    /// The ring was full: the archiver was woken, and the record is to be tried
    /// again.
    Retry,
}

/// What an attempt amounts to under a backpressure mode.
pub open spec fn step_after(committed: bool, mode: BackpressureMode) -> SubmitStep {
    if committed {
        SubmitStep::Committed
    } else if mode == BackpressureMode::Drop {
        SubmitStep::Dropped
    } else {
        SubmitStep::Retry
    }
}

/// What came of a message, and what it takes to try it again.
pub enum Submission<E> {
    /// There is no logger, or it was shut down.
    Inactive,
    /// The system clock stands before the Unix epoch.
    ClockBeforeEpoch,
    /// The message's record was committed.
    Committed,
    /// The ring was full, and the message was dropped.
    Dropped,
    /// The ring was full. The message is to be submitted again, with this
    /// timestamp and this encoder.
    Pending(u64, E),
}

/// The logger took the message, one way or the other.
pub open spec fn accepted<E>(s: Submission<E>) -> bool {
    s is Committed || s is Dropped || s is Pending
}

/// A message that was not committed: it may be dropped in drop mode only, and
/// is tried again in backoff mode only, with the timestamp that it has.
pub open spec fn held_back<E>(mode: BackpressureMode, timestamp_ns: u64, s: Submission<E>) -> bool {
    &&& s is Dropped ==> mode == BackpressureMode::Drop
    &&& s matches Submission::Pending(ts, _) ==> mode == BackpressureMode::Backoff && ts
        == timestamp_ns
}

/// What became of a record: the handle that it was committed through before and
/// after, the mode, and the report.
pub open spec fn reported<E>(
    before: RecordProducer<LogRecord>,
    after: RecordProducer<LogRecord>,
    record: Seq<u8>,
    mode: BackpressureMode,
    timestamp_ns: u64,
    s: Submission<E>,
) -> bool {
    &&& after.committed() == (if s is Committed {
        before.committed().push(record)
    } else {
        before.committed()
    })
    &&& after.asked() == (if accepted(s) && record.len() <= isize::MAX {
        before.asked().push(record.len())
    } else {
        before.asked()
    })
    &&& held_back(mode, timestamp_ns, s)
}

/// The archiver is woken by a message that is to be tried again, and, where
/// messages come through the `log` crate alone, by each one that was committed.
pub open spec fn wakes_archiver<E>(frontend: Frontend, s: Submission<E>) -> bool {
    s is Pending || (s is Committed && frontend == Frontend::LogCrate)
}

/// The header of a record.
pub open spec fn header_of(timestamp_ns: u64, formatter: u64, level: u8) -> RecordHeader {
    RecordHeader { timestamp_ns, formatter, level, _pad: [0u8, 0, 0, 0, 0, 0, 0] }
}

/// The record of a message in a standard payload.
pub open spec fn message_record(
    timestamp_ns: u64,
    level: u8,
    target: Seq<char>,
    line: u32,
    message: Seq<char>,
) -> Seq<u8> {
    record_bytes(
        header_of(timestamp_ns, STANDARD_FORMATTER, level),
        standard_payload(line, target, message),
    )
}

/// The record of a message whose arguments were encoded for a formatter of its
/// own.
pub open spec fn hot_record(timestamp_ns: u64, level: u8, fmt_fn: u64, payload: Seq<u8>) -> Seq<
    u8,
> {
    record_bytes(header_of(timestamp_ns, fmt_fn, level), payload)
}

/// In drop mode no producer is ever asked to try again, in backoff mode no
/// message is ever given up.
pub proof fn law_backpressure(committed: bool)
    ensures
        step_after(committed, BackpressureMode::Drop) != SubmitStep::Retry,
        step_after(committed, BackpressureMode::Backoff) != SubmitStep::Dropped,
{
}

/// The record of a message, taken from the ring, formats to the line that the
/// message asks for.
pub proof fn law_message_line(
    timestamp_ns: u64,
    level: u8,
    target: Seq<char>,
    line: u32,
    message: Seq<char>,
    colored: bool,
    h: RecordHeader,
    payload: Seq<u8>,
)
    requires
        encode_utf8(target).len() <= u16::MAX,
        message_record(timestamp_ns, level, target, line, message) == record_bytes(h, payload),
    ensures
        h.formatter == STANDARD_FORMATTER,
        is_standard_payload(payload),
        record_line(h.timestamp_ns, h.level, payload, colored) == line_bytes(
            timestamp_ns,
            level,
            target,
            line,
            message,
            colored,
        ),
{
    law_record_round_trip(
        header_of(timestamp_ns, STANDARD_FORMATTER, level),
        standard_payload(line, target, message),
        h,
        payload,
    );
    law_logged_line(timestamp_ns, level, line, target, message, colored);
}

/// What an attempt amounts to under a backpressure mode.
pub fn after_claim(committed: bool, mode: BackpressureMode) -> (step: SubmitStep)
    ensures
        step == step_after(committed, mode),
{
    if committed {
        return SubmitStep::Committed;
    }
    match mode {
        BackpressureMode::Drop => SubmitStep::Dropped,
        BackpressureMode::Backoff => SubmitStep::Retry,
    }
}

/// A message found no room: it is dropped, or it is to be tried again, with the
/// archiver woken.
fn without_room<E>(state: &mut LoggerState, timestamp_ns: u64, encode: E) -> (s: Submission<E>)
    ensures
        s is Dropped || s is Pending,
        held_back(old(state).backpressure, timestamp_ns, s),
        s matches Submission::Pending(_, e) ==> e == encode,
        final(state).follows(*old(state), wakes_archiver(old(state).frontend, s)),
        final(state).running == old(state).running,
{
    match after_claim(false, state.backpressure) {
        SubmitStep::Dropped => Submission::Dropped,
        _ => {
            wake(&mut state.unparker);
            Submission::Pending(timestamp_ns, encode)
        },
    }
}

/// Attempts once to commit a record with this header. `encode` writes the
/// payload in place once there is room for the record, and is not run before.
fn submit<F: FnOnce(&mut [u8])>(
    producer: &mut RecordProducer<LogRecord>,
    state: &mut LoggerState,
    timestamp_ns: u64,
    level: u8,
    formatter: u64,
    payload_size: usize,
    encode: F,
) -> (s: Submission<F>)
    requires
        forall|x: &mut [u8]| x@ == zeros(payload_size as nat) ==> call_requires(encode, (x,)),
        formatter == STANDARD_FORMATTER ==> forall|x: &mut [u8]|
            x@ == zeros(payload_size as nat) && #[trigger] call_ensures(encode, (x,), ())
                ==> is_standard_payload(final(x)@),
    ensures
        accepted(s),
        held_back(old(state).backpressure, timestamp_ns, s),
        s matches Submission::Pending(_, e) ==> e == encode,
        s !is Committed ==> final(producer).committed() == old(producer).committed(),
        s is Committed ==> exists|x: &mut [u8]|
            {
                &&& x@ == zeros(payload_size as nat)
                &&& #[trigger] call_ensures(encode, (x,), ())
                &&& final(x)@.len() == payload_size
                &&& final(producer).committed() == old(producer).committed().push(
                    hot_record(timestamp_ns, level, formatter, final(x)@),
                )
            },
        s is Committed ==> HEADER_SIZE + payload_size < old(producer).capacity(),
        final(producer).asked() == (if HEADER_SIZE + payload_size <= isize::MAX {
            old(producer).asked().push((HEADER_SIZE + payload_size) as nat)
        } else {
            old(producer).asked()
        }),
        final(state).follows(*old(state), wakes_archiver(old(state).frontend, s)),
        final(state).running == old(state).running,
        final(producer).same_ring(*old(producer)),
{
    let header: RecordHeader = RecordHeader {
        timestamp_ns,
        formatter,
        level,
        _pad: [0u8, 0, 0, 0, 0, 0, 0],
    };
    let front: [u8; HEADER_SIZE] = header_array(&header);
    proof {
        let h = header_of(timestamp_ns, formatter, level);
        assert(header._pad@ =~= h._pad@);
        lemma_header_len(h);
        assert forall|x: &mut [u8]|
            x@ == zeros(payload_size as nat) && #[trigger] call_ensures(
                encode,
                (x,),
                (),
            ) implies LogRecord::valid(front@ + final(x)@) by {
            assert(front@ + final(x)@ == record_bytes(h, final(x)@));
        }
    }
    match producer.commit_with(front.as_slice(), payload_size, encode) {
        Ok(()) => {
            match state.frontend {
                Frontend::LogCrate => wake(&mut state.unparker),
                Frontend::Macros => {},
            }
            Submission::Committed
        },
        Err(encode) => without_room(state, timestamp_ns, encode),
    }
}

/// The size of a standard payload, where it is a number.
fn payload_size(target: &str, message: &str) -> (n: Option<usize>)
    ensures
        n is None <==> 6 + encode_utf8(target@).len() + encode_utf8(message@).len() > usize::MAX,
        n matches Some(size) ==> size == 6 + encode_utf8(target@).len() + encode_utf8(
            message@,
        ).len(),
{
    match target.as_bytes().len().checked_add(6) {
        None => None,
        Some(n) => n.checked_add(message.as_bytes().len()),
    }
}

/// The `log` bridge path with the time and the shutdown flag as they were read.
///
/// The message is written in place once there is room for its record.
pub fn log_at(
    producer: &mut RecordProducer<LogRecord>,
    state: &mut LoggerState,
    running: bool,
    timestamp_ns: Option<u64>,
    level: u8,
    target: &str,
    line: u32,
    message: &str,
) -> (s: Submission<()>)
    requires
        running && timestamp_ns is Some ==> encode_utf8(target@).len() <= u16::MAX,
    ensures
        s is Inactive <==> !running,
        s is ClockBeforeEpoch <==> running && timestamp_ns is None,
        reported(
            *old(producer),
            *final(producer),
            message_record(timestamp_ns.unwrap(), level, target@, line, message@),
            old(state).backpressure,
            timestamp_ns.unwrap(),
            s,
        ),
        s is Committed ==> message_record(
            timestamp_ns.unwrap(),
            level,
            target@,
            line,
            message@,
        ).len() < old(producer).capacity(),
        final(state).follows(*old(state), wakes_archiver(old(state).frontend, s)),
        final(state).running == old(state).running,
        final(producer).same_ring(*old(producer)),
{
    if !running {
        return Submission::Inactive;
    }
    let ts: u64 = match timestamp_ns {
        None => return Submission::ClockBeforeEpoch,
        Some(ts) => ts,
    };
    let size: usize = match payload_size(target, message) {
        None => return without_room(state, ts, ()),
        Some(size) => size,
    };
    proof {
        lemma_prefix_len(line, target@);
        law_payload_round_trip(line, target@, message@);
        lemma_header_len(header_of(ts, STANDARD_FORMATTER, level));
    }
    let encode = |buf: &mut [u8]|
        requires
            buf@.len() == size,
        ensures
            final(buf)@ == standard_payload(line, target@, message@),
    {
        let ghost blank = buf@;
        write_standard_payload(buf, line, target, message);
        proof {
            lemma_prefix_len(line, target@);
            assert(overwrite(blank, 0, standard_payload(line, target@, message@))
                =~= standard_payload(line, target@, message@));
        }
    };
    match submit(producer, state, ts, level, STANDARD_FORMATTER, size, encode) {
        Submission::Committed => Submission::Committed,
        Submission::Dropped => Submission::Dropped,
        _ => Submission::Pending(ts, ()),
    }
}

/// Core log path for the `log` crate bridge.
///
/// Level gating is the caller's responsibility. The time is read first. Then
/// `fmt` writes the message to `buf`, which it finds empty: it is not run where
/// the logger is inactive. A message that is to be tried again stands in `buf`.
pub fn log_impl<F: FnOnce(&mut String)>(
    producer: &mut RecordProducer<LogRecord>,
    logger: Option<&mut LoggerState>,
    level: u8,
    target: &str,
    line: u32,
    buf: &mut String,
    fmt: F,
) -> (s: Submission<()>)
    requires
        logger is Some ==> encode_utf8(target@).len() <= u16::MAX,
        forall|x: &mut String| x@ == Seq::<char>::empty() ==> call_requires(fmt, (x,)),
    ensures
        s is Inactive <==> (logger matches Some(state) ==> !final(state).was_running()),
        !accepted(s) ==> final(producer).committed() == old(producer).committed() && final(buf)@
            == old(buf)@,
        !accepted(s) ==> final(producer).asked() == old(producer).asked(),
        s is ClockBeforeEpoch ==> exists|t: SystemTime| #[trigger] stamped(t, None),
        accepted(s) ==> exists|x: &mut String|
            x@ == Seq::<char>::empty() && #[trigger] call_ensures(fmt, (x,), ()) && final(x)@
                == final(buf)@,
        accepted(s) ==> exists|timestamp_ns: u64, t: SystemTime|
            #[trigger] stamped(t, Some(timestamp_ns)) && reported(
                *old(producer),
                *final(producer),
                message_record(timestamp_ns, level, target@, line, final(buf)@),
                logger.unwrap().backpressure,
                timestamp_ns,
                s,
            ),
        logger matches Some(state) ==> final(state).follows(
            *state,
            wakes_archiver(state.frontend, s),
        ),
        final(producer).same_ring(*old(producer)),
{
    match logger {
        None => Submission::Inactive,
        Some(state) => {
            let running: bool = read_flag(&mut state.running);
            if !running {
                return Submission::Inactive;
            }
            let timestamp_ns: Option<u64> = snap_timestamp();
            if timestamp_ns.is_none() {
                return Submission::ClockBeforeEpoch;
            }
            buf.clear();
            fmt(&mut *buf);
            log_at(producer, state, running, timestamp_ns, level, target, line, buf.as_str())
        },
    }
}

/// The hot path with the time and the shutdown flag as they were read.
///
/// `encode` is run once there is room for the record, on a payload of
/// `payload_size` zero bytes. Otherwise it is not run.
pub fn hot_log_at<F: FnOnce(&mut [u8])>(
    producer: &mut RecordProducer<LogRecord>,
    state: &mut LoggerState,
    running: bool,
    timestamp_ns: Option<u64>,
    level: u8,
    payload_size: usize,
    fmt_fn: u64,
    encode: F,
) -> (s: Submission<F>)
    requires
        fmt_fn != STANDARD_FORMATTER,
        forall|x: &mut [u8]| x@ == zeros(payload_size as nat) ==> call_requires(encode, (x,)),
    ensures
        s is Inactive <==> !running,
        s is ClockBeforeEpoch <==> running && timestamp_ns is None,
        held_back(old(state).backpressure, timestamp_ns.unwrap(), s),
        s matches Submission::Pending(_, e) ==> e == encode,
        s !is Committed ==> final(producer).committed() == old(producer).committed(),
        s is Committed ==> exists|x: &mut [u8]|
            {
                &&& x@ == zeros(payload_size as nat)
                &&& #[trigger] call_ensures(encode, (x,), ())
                &&& final(x)@.len() == payload_size
                &&& final(producer).committed() == old(producer).committed().push(
                    hot_record(timestamp_ns.unwrap(), level, fmt_fn, final(x)@),
                )
            },
        s is Committed ==> HEADER_SIZE + payload_size < old(producer).capacity(),
        accepted(s) ==> final(producer).asked() == (if HEADER_SIZE + payload_size <= isize::MAX {
            old(producer).asked().push((HEADER_SIZE + payload_size) as nat)
        } else {
            old(producer).asked()
        }),
        !accepted(s) ==> final(producer).asked() == old(producer).asked(),
        final(state).follows(*old(state), wakes_archiver(old(state).frontend, s)),
        final(state).running == old(state).running,
        final(producer).same_ring(*old(producer)),
{
    if !running {
        return Submission::Inactive;
    }
    match timestamp_ns {
        None => Submission::ClockBeforeEpoch,
        Some(ts) => submit(producer, state, ts, level, fmt_fn, payload_size, encode),
    }
}

/// Hot-path submit: writes a raw encoded payload to the ring.
///
/// Unlike [`log_impl`] this receives an encoder of argument bytes and the
/// address of the function that formats them on the consumer side. The encoder
/// writes argument bytes directly into the claimed region, once. Where nothing
/// was claimed it is not run: it is given up with a message that is dropped,
/// and handed back with one that is to be tried again.
pub fn hot_log_submit<F: FnOnce(&mut [u8])>(
    producer: &mut RecordProducer<LogRecord>,
    logger: Option<&mut LoggerState>,
    level: u8,
    payload_size: usize,
    fmt_fn: u64,
    encode: F,
) -> (s: Submission<F>)
    requires
        fmt_fn != STANDARD_FORMATTER,
        forall|x: &mut [u8]| x@ == zeros(payload_size as nat) ==> call_requires(encode, (x,)),
    ensures
        s is Inactive <==> (logger matches Some(state) ==> !final(state).was_running()),
        s is ClockBeforeEpoch ==> exists|t: SystemTime| #[trigger] stamped(t, None),
        s !is Committed ==> final(producer).committed() == old(producer).committed(),
        s matches Submission::Pending(_, e) ==> e == encode,
        s is Dropped || s is Pending ==> exists|timestamp_ns: u64, t: SystemTime|
            #[trigger] stamped(t, Some(timestamp_ns)) && held_back(
                logger.unwrap().backpressure,
                timestamp_ns,
                s,
            ),
        s is Committed ==> exists|timestamp_ns: u64, t: SystemTime, x: &mut [u8]|
            {
                &&& #[trigger] stamped(t, Some(timestamp_ns))
                &&& x@ == zeros(payload_size as nat)
                &&& #[trigger] call_ensures(encode, (x,), ())
                &&& final(x)@.len() == payload_size
                &&& final(producer).committed() == old(producer).committed().push(
                    hot_record(timestamp_ns, level, fmt_fn, final(x)@),
                )
            },
        s is Committed ==> HEADER_SIZE + payload_size < old(producer).capacity(),
        accepted(s) ==> final(producer).asked() == (if HEADER_SIZE + payload_size <= isize::MAX {
            old(producer).asked().push((HEADER_SIZE + payload_size) as nat)
        } else {
            old(producer).asked()
        }),
        !accepted(s) ==> final(producer).asked() == old(producer).asked(),
        logger matches Some(state) ==> final(state).follows(
            *state,
            wakes_archiver(state.frontend, s),
        ),
        final(producer).same_ring(*old(producer)),
{
    match logger {
        None => Submission::Inactive,
        Some(state) => {
            let running: bool = read_flag(&mut state.running);
            if !running {
                return Submission::Inactive;
            }
            let timestamp_ns: Option<u64> = snap_timestamp();
            hot_log_at(producer, state, running, timestamp_ns, level, payload_size, fmt_fn, encode)
        },
    }
}

/// Takes the next record of the log stream, if there is one, into `record`, and
/// reads its header. The payload stands behind the header.
pub fn next_record(consumer: &mut RecordConsumer<LogRecord>, record: &mut Vec<u8>) -> (header:
    Option<RecordHeader>)
    ensures
        header is None ==> final(record)@ == old(record)@ && final(consumer).taken() == old(
            consumer,
        ).taken(),
        header matches Some(h) ==> {
            let payload = final(record)@.skip(HEADER_SIZE as int);
            &&& final(record)@ == record_bytes(h, payload)
            &&& final(consumer).taken() == old(consumer).taken().push(final(record)@)
            &&& h.formatter == STANDARD_FORMATTER ==> is_standard_payload(payload)
        },
        final(consumer).looks() == old(consumer).looks() + 1,
        final(consumer).same_ring(*old(consumer)),
{
    if !consumer.take(record) {
        return None;
    }
    let ghost (h, p) = choose|h: RecordHeader, payload: Seq<u8>|
        record@ == #[trigger] record_bytes(h, payload) && (h.formatter == STANDARD_FORMATTER
            ==> is_standard_payload(payload));
    proof {
        lemma_header_len(h);
    }
    let header: RecordHeader = read_header(record.as_slice());
    proof {
        let rest = record@.skip(HEADER_SIZE as int);
        assert(record@ =~= record@.take(HEADER_SIZE as int) + rest);
        law_record_round_trip(h, p, header, rest);
    }
    Some(header)
}

/// Formats a record of the log stream that holds a standard payload. Any other
/// is left to the formatter that its header names.
///
/// Returns whether the record was formatted.
pub fn format_standard(header: &RecordHeader, payload: &[u8], out: &mut Vec<u8>, colored: bool) -> (done:
    bool)
    requires
        header.formatter == STANDARD_FORMATTER ==> is_standard_payload(payload@),
    ensures
        done == (header.formatter == STANDARD_FORMATTER),
        final(out)@ == (if done {
            old(out)@ + record_line(header.timestamp_ns, header.level, payload@, colored)
        } else {
            old(out)@
        }),
{
    if header.formatter == STANDARD_FORMATTER {
        format_record(header.timestamp_ns, header.level, payload, out, colored);
        true
    } else {
        false
    }
}

/// What a report says of a message, with the handle that its record was to be
/// committed through before and after.
///
/// A committed record is the last one committed. A record that was not
/// committed left nothing behind. A message is dropped in drop mode alone and
/// tried again in backoff mode alone. And it is neither, nor is it committed,
/// before the ring was asked, once, for as many bytes as its record has, unless
/// no allocation is that large.
pub proof fn law_reports<E>(
    before: RecordProducer<LogRecord>,
    after: RecordProducer<LogRecord>,
    record: Seq<u8>,
    mode: BackpressureMode,
    timestamp_ns: u64,
    s: Submission<E>,
)
    requires
        reported(before, after, record, mode, timestamp_ns, s),
    ensures
        s is Committed ==> after.committed() == before.committed().push(record),
        s !is Committed ==> after.committed() == before.committed(),
        s is Dropped ==> mode == BackpressureMode::Drop,
        s is Pending ==> mode == BackpressureMode::Backoff,
        s matches Submission::Pending(ts, _) ==> ts == timestamp_ns,
        (s is Committed || s is Dropped || s is Pending) && record.len() <= isize::MAX
            ==> after.asked() == before.asked().push(record.len()),
        s is Inactive || s is ClockBeforeEpoch ==> after.asked() == before.asked(),
{
}

/// What a report may say of a message that was not committed, and of one that
/// the logger took.
pub proof fn law_outcomes<E>(mode: BackpressureMode, timestamp_ns: u64, s: Submission<E>)
    ensures
        accepted(s) <==> s !is Inactive && s !is ClockBeforeEpoch,
        held_back(mode, timestamp_ns, s) <==> {
            &&& !(s is Dropped && mode == BackpressureMode::Backoff)
            &&& !(s is Pending && mode == BackpressureMode::Drop)
            &&& s matches Submission::Pending(ts, _) ==> ts == timestamp_ns
        },
{
}

/// An attempt that found room is over. One that did not is given up in drop
/// mode and made again in backoff mode.
pub proof fn law_attempts(mode: BackpressureMode)
    ensures
        step_after(true, mode) == SubmitStep::Committed,
        step_after(false, BackpressureMode::Drop) == SubmitStep::Dropped,
        step_after(false, BackpressureMode::Backoff) == SubmitStep::Retry,
{
}

/// A message that is to be tried again wakes the archiver. A committed one does
/// where no macro is there to poll it, and no other message does.
pub proof fn law_wakes<E>(frontend: Frontend, s: Submission<E>)
    ensures
        s is Pending ==> wakes_archiver(frontend, s),
        s is Committed ==> (wakes_archiver(frontend, s) <==> frontend == Frontend::LogCrate),
        s is Dropped || s is Inactive || s is ClockBeforeEpoch ==> !wakes_archiver(frontend, s),
{
}

/// The logger stays what it is, and the archiver is woken once or not at all.
pub proof fn law_follows(after: LoggerState, before: LoggerState, woken: bool)
    ensures
        after.follows(before, woken) <==> {
            &&& after.backpressure == before.backpressure
            &&& after.frontend == before.frontend
            &&& flag_behind(after.running) == flag_behind(before.running)
            &&& woken ==> wakes(after.unparker) == wakes(before.unparker) + 1
            &&& !woken ==> wakes(after.unparker) == wakes(before.unparker)
        },
        after.same_logger(before) <==> {
            &&& after.backpressure == before.backpressure
            &&& after.frontend == before.frontend
            &&& flag_behind(after.running) == flag_behind(before.running)
        },
        after.was_running() == last_flag(after.running),
        after.wakes() == wakes(after.unparker),
{
}

/// The bytes of a message's record, each at its place: the time, no formatter,
/// the level, zeros, the line, the length of the target, and then the target and
/// the message, both whole.
pub proof fn law_message_layout(
    timestamp_ns: u64,
    level: u8,
    target: Seq<char>,
    line: u32,
    message: Seq<char>,
    k: nat,
)
    ensures
        ({
            let s = message_record(timestamp_ns, level, target, line, message);
            let t = encode_utf8(target);
            let m = encode_utf8(message);
            &&& s.len() == 30 + t.len() + m.len()
            &&& k < 8 ==> s[k as int] as int == timestamp_ns as int / pow(256, k) % 256
            &&& k < 8 ==> s[8 + k as int] == 0
            &&& s[16] == level
            &&& k < 7 ==> s[17 + k as int] == 0
            &&& k < 4 ==> s[24 + k as int] as int == line as int / pow(256, k) % 256
            &&& k < 2 ==> s[28 + k as int] as int == t.len() as int / pow(256, k) % 256
            &&& s.subrange(30, 30 + t.len() as int) == t
            &&& s.subrange(30 + t.len() as int, s.len() as int) == m
        }),
{
    let s = message_record(timestamp_ns, level, target, line, message);
    let p = standard_payload(line, target, message);
    let t = encode_utf8(target);
    law_hot_layout(timestamp_ns, level, STANDARD_FORMATTER, p, k);
    law_payload_layout(line, target, message, k);
    if k < 8 {
        vstd::arithmetic::power::lemma_pow_positive(256, k);
        vstd::arithmetic::div_mod::lemma_basic_div(0, pow(256, k));
    }
    assert(s.skip(24) == p);
    assert(k < 4 ==> s[24 + k as int] == s.skip(24)[k as int]);
    assert(k < 2 ==> s[28 + k as int] == s.skip(24)[4 + k as int]);
    assert(s.subrange(30, 30 + t.len() as int) =~= p.subrange(6, 6 + t.len() as int));
    assert(s.subrange(30 + t.len() as int, s.len() as int) =~= p.subrange(
        6 + t.len() as int,
        p.len() as int,
    ));
}

/// The bytes of a record with a formatter of its own, each at its place: the
/// time, the formatter, the level, zeros, and the whole payload.
pub proof fn law_hot_layout(timestamp_ns: u64, level: u8, fmt_fn: u64, payload: Seq<u8>, k: nat)
    ensures
        ({
            let s = hot_record(timestamp_ns, level, fmt_fn, payload);
            &&& s.len() == 24 + payload.len()
            &&& k < 8 ==> s[k as int] as int == timestamp_ns as int / pow(256, k) % 256
            &&& k < 8 ==> s[8 + k as int] as int == fmt_fn as int / pow(256, k) % 256
            &&& s[16] == level
            &&& k < 7 ==> s[17 + k as int] == 0
            &&& s.skip(24) == payload
        }),
{
    let h = header_of(timestamp_ns, fmt_fn, level);
    law_header_layout(h, k);
    law_record_layout(h, payload);
}

}
