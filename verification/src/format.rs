//! Consumer-side formatting: timestamp, colors, standard format function.
//!
//! All formatting runs on the archiver thread, never on the producer. Output
//! goes to a byte buffer that the archiver hands to its writer, one record at
//! a time.

use crate::bytes::push_bytes;
use crate::calendar::{
    civil_date, civil_from_days, date_to_days, is_date, law_civil_date_round_trip,
    lemma_date_exists, lemma_timestamp_years,
};
use crate::record::{
    is_standard_payload, law_payload_round_trip, payload_line, payload_message, payload_target,
    read_standard_payload, standard_payload,
};
use crate::text::{
    decimal, digits, digits_range, law_digits_places, law_digits_unique, lemma_digits_ascii,
    lemma_encode_concat, push_decimal, push_digits, push_text,
};
use vstd::arithmetic::power::pow;
use vstd::prelude::*;
use vstd::utf8::encode_utf8;

verus! {

/// The bytes of an ANSI color sequence with a two-digit code.
pub open spec fn sgr(tens: u8, ones: u8) -> Seq<u8> {
    seq![0x1bu8, 0x5b, tens, ones, 0x6d]
}

/// Gray, `ESC [90m`.
pub open spec fn gray() -> Seq<u8> {
    sgr(0x39, 0x30)
}

/// The sequence that ends a colored stretch, `ESC [0m`.
pub open spec fn reset() -> Seq<u8> {
    seq![0x1bu8, 0x5b, 0x30, 0x6d]
}

/// The color of a level.
pub open spec fn color_of(level: u8) -> Seq<u8> {
    if level == 1 {
        sgr(0x33, 0x31)
    } else if level == 2 {
        sgr(0x33, 0x33)
    } else if level == 3 {
        sgr(0x33, 0x32)
    } else if level == 4 {
        sgr(0x33, 0x36)
    } else {
        gray()
    }
}

/// The name of a level.
pub open spec fn name_of(level: u8) -> Seq<char> {
    if level == 1 {
        "ERROR"@
    } else if level == 2 {
        "WARN"@
    } else if level == 3 {
        "INFO"@
    } else if level == 4 {
        "DEBUG"@
    } else if level == 5 {
        "TRACE"@
    } else {
        "?????"@
    }
}

/// A stretch of output in a color, or bare where colors are off.
pub open spec fn painted(colored: bool, color: Seq<u8>, s: Seq<u8>) -> Seq<u8> {
    if colored {
        color + s + reset()
    } else {
        s
    }
}

/// ISO 8601 UTC text of a date, a second of the day and nanoseconds:
/// `2024-01-15T14:30:45.123456789Z`.
pub open spec fn stamp_text(date: (int, int, int), second: nat, nanos: nat) -> Seq<char> {
    digits(date.0 as nat, 4) + "-"@ + digits(date.1 as nat, 2) + "-"@ + digits(date.2 as nat, 2)
        + "T"@ + digits(second / 3600, 2) + ":"@ + digits(second % 3600 / 60, 2) + ":"@ + digits(
        second % 60,
        2,
    ) + "."@ + digits(nanos, 9) + "Z"@
}

/// ISO 8601 UTC text of a count of nanoseconds since the Unix epoch.
pub open spec fn timestamp_text(nanos: nat) -> Seq<char> {
    let secs = nanos / 1_000_000_000;
    stamp_text(civil_date((secs / 86400) as int), secs % 86400, nanos % 1_000_000_000)
}

/// Where the parts of a timestamp's text stand.
proof fn lemma_stamp_parts(date: (int, int, int), second: nat, nanos: nat)
    ensures
        ({
            let t = stamp_text(date, second, nanos);
            &&& t.len() == 30
            &&& t.subrange(0, 4) == digits(date.0 as nat, 4)
            &&& t.subrange(5, 7) == digits(date.1 as nat, 2)
            &&& t.subrange(8, 10) == digits(date.2 as nat, 2)
            &&& t.subrange(11, 13) == digits(second / 3600, 2)
            &&& t.subrange(14, 16) == digits(second % 3600 / 60, 2)
            &&& t.subrange(17, 19) == digits(second % 60, 2)
            &&& t.subrange(20, 29) == digits(nanos, 9)
        }),
{
    reveal_strlit("-");
    reveal_strlit("T");
    reveal_strlit(":");
    reveal_strlit(".");
    reveal_strlit("Z");
    law_digits_unique(date.0 as nat, 0, 4);
    law_digits_unique(date.1 as nat, 0, 2);
    law_digits_unique(date.2 as nat, 0, 2);
    law_digits_unique(second / 3600, 0, 2);
    law_digits_unique(second % 3600 / 60, 0, 2);
    law_digits_unique(second % 60, 0, 2);
    law_digits_unique(nanos, 0, 9);
    let t = stamp_text(date, second, nanos);
    assert(t.subrange(0, 4) =~= digits(date.0 as nat, 4));
    assert(t.subrange(5, 7) =~= digits(date.1 as nat, 2));
    assert(t.subrange(8, 10) =~= digits(date.2 as nat, 2));
    assert(t.subrange(11, 13) =~= digits(second / 3600, 2));
    assert(t.subrange(14, 16) =~= digits(second % 3600 / 60, 2));
    assert(t.subrange(17, 19) =~= digits(second % 60, 2));
    assert(t.subrange(20, 29) =~= digits(nanos, 9));
}

/// A day that a 64-bit timestamp can fall on has a date with a four-digit
/// year.
proof fn lemma_stamp_date(days: int)
    requires
        0 <= days <= 213503,
    ensures
        ({
            let t = civil_date(days);
            &&& is_date(t.0, t.1, t.2)
            &&& date_to_days(t.0, t.1, t.2) == days
            &&& 1970 <= t.0 <= 2554
        }),
{
    let t = lemma_date_exists(days);
    law_civil_date_round_trip(t.0, t.1, t.2);
    lemma_timestamp_years(t.0, t.1, t.2);
}

/// Every text of a timestamp is 30 characters long, and no two timestamps
/// have the same text.
pub proof fn law_timestamp_unique(a: u64, b: u64)
    ensures
        timestamp_text(a as nat).len() == 30,
        timestamp_text(a as nat) == timestamp_text(b as nat) ==> a == b,
{
    let (sa, sb) = (a as nat / 1_000_000_000, b as nat / 1_000_000_000);
    let (na, nb) = (a as nat % 1_000_000_000, b as nat % 1_000_000_000);
    let (da, db) = (civil_date((sa / 86400) as int), civil_date((sb / 86400) as int));
    let (ra, rb) = (sa % 86400, sb % 86400);
    lemma_stamp_parts(da, ra, na);
    lemma_stamp_parts(db, rb, nb);
    lemma_stamp_date((sa / 86400) as int);
    lemma_stamp_date((sb / 86400) as int);
    if timestamp_text(a as nat) == timestamp_text(b as nat) {
        reveal_with_fuel(digits_range, 10);
        law_digits_unique(da.0 as nat, db.0 as nat, 4);
        law_digits_unique(da.1 as nat, db.1 as nat, 2);
        law_digits_unique(da.2 as nat, db.2 as nat, 2);
        law_digits_unique(ra / 3600, rb / 3600, 2);
        law_digits_unique(ra % 3600 / 60, rb % 3600 / 60, 2);
        law_digits_unique(ra % 60, rb % 60, 2);
        law_digits_unique(na, nb, 9);
        assert(sa / 86400 == sb / 86400);
        assert(ra == rb) by {
            assert(ra == 3600 * (ra / 3600) + 60 * (ra % 3600 / 60) + ra % 60);
            assert(rb == 3600 * (rb / 3600) + 60 * (rb % 3600 / 60) + rb % 60);
        }
        assert(sa == sb);
    }
}

/// Where a line was logged: `target:line`, or the target alone where the line
/// is not known.
pub open spec fn place_text(target: Seq<char>, line: u32) -> Seq<char> {
    if line > 0 {
        target + ":"@ + decimal(line as nat)
    } else {
        target
    }
}

/// What precedes the message of a log line: `timestamp [LEVEL] target:line `.
pub open spec fn prefix_bytes(
    timestamp_ns: u64,
    level: u8,
    target: Seq<char>,
    line: u32,
    colored: bool,
) -> Seq<u8> {
    painted(colored, gray(), encode_utf8(timestamp_text(timestamp_ns as nat))) + encode_utf8(" "@)
        + painted(colored, color_of(level), encode_utf8("["@ + name_of(level) + "]"@))
        + encode_utf8(" "@) + painted(colored, gray(), encode_utf8(place_text(target, line)))
        + encode_utf8(" "@)
}

/// A whole log line.
pub open spec fn line_bytes(
    timestamp_ns: u64,
    level: u8,
    target: Seq<char>,
    line: u32,
    message: Seq<char>,
    colored: bool,
) -> Seq<u8> {
    prefix_bytes(timestamp_ns, level, target, line, colored) + encode_utf8(message) + encode_utf8(
        "\n"@,
    )
}

/// The log line for a standard payload.
pub open spec fn record_line(timestamp_ns: u64, level: u8, payload: Seq<u8>, colored: bool) -> Seq<
    u8,
> {
    line_bytes(
        timestamp_ns,
        level,
        payload_target(payload),
        payload_line(payload) as u32,
        payload_message(payload),
        colored,
    )
}

/// What a producer writes into a standard payload is what the log line shows.
pub proof fn law_logged_line(
    timestamp_ns: u64,
    level: u8,
    line: u32,
    target: Seq<char>,
    message: Seq<char>,
    colored: bool,
)
    requires
        encode_utf8(target).len() <= u16::MAX,
    ensures
        is_standard_payload(standard_payload(line, target, message)),
        record_line(timestamp_ns, level, standard_payload(line, target, message), colored)
            == line_bytes(timestamp_ns, level, target, line, message, colored),
{
    law_payload_round_trip(line, target, message);
}

/// The ANSI sequence that starts a level's color.
pub fn level_color(level: u8) -> (color: &'static [u8])
    ensures
        color@ == color_of(level),
{
    match level {
        1 => &[0x1bu8, 0x5b, 0x33, 0x31, 0x6d],  // Red: Error
        2 => &[0x1bu8, 0x5b, 0x33, 0x33, 0x6d],  // Yellow: Warn
        3 => &[0x1bu8, 0x5b, 0x33, 0x32, 0x6d],  // Green: Info
        4 => &[0x1bu8, 0x5b, 0x33, 0x36, 0x6d],  // Cyan: Debug
        _ => &[0x1bu8, 0x5b, 0x39, 0x30, 0x6d],  // Gray: Trace
    }
}

/// The name of a level in a log line.
pub fn level_str(level: u8) -> (name: &'static str)
    ensures
        name@ == name_of(level),
{
    match level {
        1 => "ERROR",
        2 => "WARN",
        3 => "INFO",
        4 => "DEBUG",
        5 => "TRACE",
        _ => "?????",
    }
}

/// Appends text to output whose text so far is known.
fn put_text(out: &mut Vec<u8>, s: &str, Ghost(before): Ghost<Seq<u8>>, Ghost(so_far): Ghost<Seq<char>>)
    requires
        old(out)@ == before + encode_utf8(so_far),
    ensures
        final(out)@ == before + encode_utf8(so_far + s@),
{
    push_text(out, s);
    proof {
        lemma_encode_concat(so_far, s@);
    }
    assert(out@ =~= before + encode_utf8(so_far + s@));
}

/// Appends a number of fixed width to output whose text so far is known.
fn put_digits(
    out: &mut Vec<u8>,
    n: u64,
    width: usize,
    Ghost(before): Ghost<Seq<u8>>,
    Ghost(so_far): Ghost<Seq<char>>,
)
    requires
        old(out)@ == before + encode_utf8(so_far),
    ensures
        final(out)@ == before + encode_utf8(so_far + digits(n as nat, width as nat)),
{
    push_digits(out, n, width);
    proof {
        lemma_encode_concat(so_far, digits(n as nat, width as nat));
    }
    assert(out@ =~= before + encode_utf8(so_far + digits(n as nat, width as nat)));
}

/// Writes a date, a second of the day and nanoseconds.
fn write_stamp(out: &mut Vec<u8>, date: (u64, u64, u64), second: u64, nanos: u64)
    ensures
        final(out)@ == old(out)@ + encode_utf8(
            stamp_text((date.0 as int, date.1 as int, date.2 as int), second as nat, nanos as nat),
        ),
{
    let ghost o = out@;
    let ghost t0 = Seq::<char>::empty();
    proof {
        assert(encode_utf8(t0) =~= Seq::<u8>::empty());
        assert(out@ =~= o + encode_utf8(t0));
    }
    put_digits(out, date.0, 4, Ghost(o), Ghost(t0));
    let ghost t = digits(date.0 as nat, 4);
    assert(t0 + t =~= t);
    put_text(out, "-", Ghost(o), Ghost(t));
    let ghost t = t + "-"@;
    put_digits(out, date.1, 2, Ghost(o), Ghost(t));
    let ghost t = t + digits(date.1 as nat, 2);
    put_text(out, "-", Ghost(o), Ghost(t));
    let ghost t = t + "-"@;
    put_digits(out, date.2, 2, Ghost(o), Ghost(t));
    let ghost t = t + digits(date.2 as nat, 2);
    put_text(out, "T", Ghost(o), Ghost(t));
    let ghost t = t + "T"@;
    put_digits(out, second / 3600, 2, Ghost(o), Ghost(t));
    let ghost t = t + digits(second as nat / 3600, 2);
    put_text(out, ":", Ghost(o), Ghost(t));
    let ghost t = t + ":"@;
    put_digits(out, second % 3600 / 60, 2, Ghost(o), Ghost(t));
    let ghost t = t + digits(second as nat % 3600 / 60, 2);
    put_text(out, ":", Ghost(o), Ghost(t));
    let ghost t = t + ":"@;
    put_digits(out, second % 60, 2, Ghost(o), Ghost(t));
    let ghost t = t + digits(second as nat % 60, 2);
    put_text(out, ".", Ghost(o), Ghost(t));
    let ghost t = t + "."@;
    put_digits(out, nanos, 9, Ghost(o), Ghost(t));
    let ghost t = t + digits(nanos as nat, 9);
    put_text(out, "Z", Ghost(o), Ghost(t));
}

/// Formats u64 nanos as ISO 8601 UTC: `2024-01-15T14:30:45.123456789Z`
pub fn format_timestamp(nanos: u64, out: &mut Vec<u8>)
    ensures
        final(out)@ == old(out)@ + encode_utf8(timestamp_text(nanos as nat)),
{
    let total_secs: u64 = nanos / 1_000_000_000;
    let subsec_nanos: u64 = nanos % 1_000_000_000;

    let days: i32 = (total_secs / 86400) as i32;
    let secs: u64 = total_secs % 86400;

    let (year, month, day) = civil_from_days(days);
    proof {
        lemma_timestamp_years(year as int, month as int, day as int);
        law_civil_date_round_trip(year as int, month as int, day as int);
    }
    write_stamp(out, (year as u64, month as u64, day as u64), secs, subsec_nanos);
}

/// Starts a colored stretch, where colors are on.
fn start_color(out: &mut Vec<u8>, colored: bool, color: &[u8])
    ensures
        final(out)@ == (if colored {
            old(out)@ + color@
        } else {
            old(out)@
        }),
{
    if colored {
        push_bytes(out, color);
    }
}

/// Ends a colored stretch, where colors are on.
fn end_color(
    out: &mut Vec<u8>,
    colored: bool,
    Ghost(before): Ghost<Seq<u8>>,
    Ghost(color): Ghost<Seq<u8>>,
    Ghost(s): Ghost<Seq<u8>>,
)
    requires
        old(out)@ == (if colored {
            before + color
        } else {
            before
        }) + s,
    ensures
        final(out)@ == before + painted(colored, color, s),
{
    if colored {
        push_bytes(out, &[0x1bu8, 0x5b, 0x30, 0x6d]);
    }
    assert(out@ =~= before + painted(colored, color, s));
}

/// Writes `[LEVEL]` in the level's color.
fn write_level(out: &mut Vec<u8>, level: u8, colored: bool)
    ensures
        final(out)@ == old(out)@ + painted(
            colored,
            color_of(level),
            encode_utf8("["@ + name_of(level) + "]"@),
        ),
{
    let ghost o = out@;
    start_color(out, colored, level_color(level));
    let ghost o1 = out@;
    push_text(out, "[");
    put_text(out, level_str(level), Ghost(o1), Ghost("["@));
    put_text(out, "]", Ghost(o1), Ghost("["@ + name_of(level)));
    let ghost tag = encode_utf8("["@ + name_of(level) + "]"@);
    end_color(out, colored, Ghost(o), Ghost(color_of(level)), Ghost(tag));
}

/// Writes `target:line` in gray, or the target alone where the line is 0.
fn write_place(out: &mut Vec<u8>, target: &str, line: u32, colored: bool)
    ensures
        final(out)@ == old(out)@ + painted(colored, gray(), encode_utf8(place_text(target@, line))),
{
    let ghost o = out@;
    start_color(out, colored, level_color(0));
    let ghost o1 = out@;
    push_text(out, target);
    if line > 0 {
        put_text(out, ":", Ghost(o1), Ghost(target@));
        push_decimal(out, line as u64);
        proof {
            lemma_encode_concat(target@ + ":"@, decimal(line as nat));
            assert(out@ =~= o1 + encode_utf8(place_text(target@, line)));
        }
    }
    end_color(out, colored, Ghost(o), Ghost(gray()), Ghost(encode_utf8(place_text(target@, line))));
}

/// Writes the log line prefix: `timestamp [LEVEL] target:line `.
///
/// Includes a trailing space. The caller appends the message and newline.
/// Used by both the standard format path and hot-path generated format functions.
pub fn write_log_prefix(
    timestamp_ns: u64,
    level: u8,
    target: &str,
    line: u32,
    out: &mut Vec<u8>,
    colored: bool,
)
    ensures
        final(out)@ == old(out)@ + prefix_bytes(timestamp_ns, level, target@, line, colored),
{
    let ghost o = out@;
    start_color(out, colored, level_color(0));
    format_timestamp(timestamp_ns, out);
    let ghost stamp = encode_utf8(timestamp_text(timestamp_ns as nat));
    end_color(out, colored, Ghost(o), Ghost(gray()), Ghost(stamp));
    push_text(out, " ");
    write_level(out, level, colored);
    push_text(out, " ");
    write_place(out, target, line, colored);
    push_text(out, " ");
    proof {
        let a = painted(colored, gray(), stamp);
        let b = painted(colored, color_of(level), encode_utf8("["@ + name_of(level) + "]"@));
        let c = painted(colored, gray(), encode_utf8(place_text(target@, line)));
        lemma_append_six(o, a, encode_utf8(" "@), b, encode_utf8(" "@), c, encode_utf8(" "@));
    }
}

/// Appending six pieces one by one appends their concatenation.
proof fn lemma_append_six(
    o: Seq<u8>,
    a: Seq<u8>,
    b: Seq<u8>,
    c: Seq<u8>,
    d: Seq<u8>,
    e: Seq<u8>,
    f: Seq<u8>,
)
    ensures
        o + a + b + c + d + e + f == o + (a + b + c + d + e + f),
{
    assert(o + a + b + c + d + e + f =~= o + (a + b + c + d + e + f));
}

/// Writes the whole line of a standard record, taking an explicit color flag.
///
/// Output (no color):
/// ```text
/// 2024-01-15T14:30:45.123456789Z [INFO] my_app::module:42 message text
/// ```
pub fn format_record(timestamp_ns: u64, level: u8, payload: &[u8], out: &mut Vec<u8>, colored: bool)
    requires
        is_standard_payload(payload@),
    ensures
        final(out)@ == old(out)@ + record_line(timestamp_ns, level, payload@, colored),
{
    let ghost o = out@;
    let (line, target, message) = read_standard_payload(payload);
    write_log_prefix(timestamp_ns, level, target, line, out, colored);
    push_text(out, message);
    push_text(out, "\n");
    assert(out@ =~= o + record_line(timestamp_ns, level, payload@, colored));
}

/// The marks in a timestamp's text.
proof fn lemma_stamp_marks(date: (int, int, int), second: nat, nanos: nat)
    ensures
        ({
            let t = stamp_text(date, second, nanos);
            t[4] == '-' && t[7] == '-' && t[10] == 'T' && t[13] == ':' && t[16] == ':' && t[19]
                == '.' && t[29] == 'Z'
        }),
{
    reveal_strlit("-");
    reveal_strlit("T");
    reveal_strlit(":");
    reveal_strlit(".");
    reveal_strlit("Z");
    law_digits_unique(date.0 as nat, 0, 4);
    law_digits_unique(date.1 as nat, 0, 2);
    law_digits_unique(date.2 as nat, 0, 2);
    law_digits_unique(second / 3600, 0, 2);
    law_digits_unique(second % 3600 / 60, 0, 2);
    law_digits_unique(second % 60, 0, 2);
    law_digits_unique(nanos, 0, 9);
}

/// Hour, minute and second of a count of nanoseconds.
proof fn lemma_clock_parts(n: int)
    requires
        0 <= n,
    ensures
        n / 1_000_000_000 % 86400 / 3600 == n / 3_600_000_000_000 % 24,
        n / 1_000_000_000 % 86400 % 3600 / 60 == n / 60_000_000_000 % 60,
        n / 1_000_000_000 % 86400 % 60 == n / 1_000_000_000 % 60,
{
    let s = n / 1_000_000_000;
    vstd::arithmetic::div_mod::lemma_div_denominator(n, 1_000_000_000, 3600);
    vstd::arithmetic::div_mod::lemma_div_denominator(n, 1_000_000_000, 60);
    assert(s % 86400 / 3600 == s / 3600 % 24);
    assert(s % 86400 % 3600 / 60 == s / 60 % 60);
    assert(s % 86400 % 60 == s % 60);
}

/// A field of a text that holds a number.
proof fn lemma_field(t: Seq<char>, from: int, width: nat, v: nat, k: nat)
    requires
        0 <= from,
        from + width <= t.len(),
        t.subrange(from, from + width) == digits(v, width),
    ensures
        k < width ==> t[from + width - 1 - k] as int == 48 + v as int / pow(10, k) % 10,
{
    law_digits_places(v, width, k);
    if k < width {
        assert(t[from + width - 1 - k] == t.subrange(from, from + width)[width - 1 - k]);
    }
}

/// What the text of a timestamp is made of.
proof fn lemma_timestamp_fields(n: u64) -> (date: (int, int, int))
    ensures
        date == civil_date(n as int / 86_400_000_000_000),
        ({
            let t = timestamp_text(n as nat);
            &&& t.len() == 30
            &&& t[4] == '-' && t[7] == '-' && t[10] == 'T' && t[13] == ':' && t[16] == ':' && t[19]
                == '.' && t[29] == 'Z'
            &&& t.subrange(0, 4) == digits(date.0 as nat, 4)
            &&& t.subrange(5, 7) == digits(date.1 as nat, 2)
            &&& t.subrange(8, 10) == digits(date.2 as nat, 2)
            &&& t.subrange(11, 13) == digits((n as int / 3_600_000_000_000 % 24) as nat, 2)
            &&& t.subrange(14, 16) == digits((n as int / 60_000_000_000 % 60) as nat, 2)
            &&& t.subrange(17, 19) == digits((n as int / 1_000_000_000 % 60) as nat, 2)
            &&& t.subrange(20, 29) == digits((n as int % 1_000_000_000) as nat, 9)
        }),
{
    let secs = n as nat / 1_000_000_000;
    let date = civil_date((secs / 86400) as int);
    lemma_stamp_parts(date, secs % 86400, n as nat % 1_000_000_000);
    lemma_stamp_marks(date, secs % 86400, n as nat % 1_000_000_000);
    lemma_clock_parts(n as int);
    vstd::arithmetic::div_mod::lemma_div_denominator(n as int, 1_000_000_000, 86400);
    date
}

/// The time of day in a timestamp's text: hours, minutes, seconds and
/// nanoseconds, each digit at its place, between the marks of ISO 8601.
pub proof fn law_timestamp_time(n: u64, k: nat)
    ensures
        ({
            let t = timestamp_text(n as nat);
            &&& t.len() == 30
            &&& t[4] == '-' && t[7] == '-' && t[10] == 'T' && t[13] == ':' && t[16] == ':' && t[19]
                == '.' && t[29] == 'Z'
            &&& k < 2 ==> t[12 - k] as int == 48 + (n as int / 3_600_000_000_000 % 24) / pow(10, k)
                % 10
            &&& k < 2 ==> t[15 - k] as int == 48 + (n as int / 60_000_000_000 % 60) / pow(10, k)
                % 10
            &&& k < 2 ==> t[18 - k] as int == 48 + (n as int / 1_000_000_000 % 60) / pow(10, k) % 10
            &&& k < 9 ==> t[28 - k] as int == 48 + (n as int % 1_000_000_000) / pow(10, k) % 10
        }),
{
    lemma_timestamp_fields(n);
    let t = timestamp_text(n as nat);
    lemma_field(t, 11, 2, (n as int / 3_600_000_000_000 % 24) as nat, k);
    lemma_field(t, 14, 2, (n as int / 60_000_000_000 % 60) as nat, k);
    lemma_field(t, 17, 2, (n as int / 1_000_000_000 % 60) as nat, k);
    lemma_field(t, 20, 9, (n as int % 1_000_000_000) as nat, k);
}

/// The date in a timestamp's text: year, month and day, each digit at its place,
/// of the day on which the moment falls.
pub proof fn law_timestamp_date(n: u64, k: nat)
    ensures
        ({
            let t = timestamp_text(n as nat);
            let (y, m, d) = civil_date(n as int / 86_400_000_000_000);
            &&& 1970 <= y <= 2554
            &&& k < 4 ==> t[3 - k] as int == 48 + y / pow(10, k) % 10
            &&& k < 2 ==> t[6 - k] as int == 48 + m / pow(10, k) % 10
            &&& k < 2 ==> t[9 - k] as int == 48 + d / pow(10, k) % 10
        }),
{
    let (y, m, d) = lemma_timestamp_fields(n);
    lemma_stamp_date(n as int / 86_400_000_000_000);
    let t = timestamp_text(n as nat);
    lemma_field(t, 0, 4, y as nat, k);
    lemma_field(t, 5, 2, m as nat, k);
    lemma_field(t, 8, 2, d as nat, k);
}

/// A text in the form of a timestamp is ASCII where its fields are.
proof fn lemma_fields_ascii(t: Seq<char>)
    requires
        t.len() == 30,
        t[4] == '-' && t[7] == '-' && t[10] == 'T' && t[13] == ':' && t[16] == ':' && t[19] == '.'
            && t[29] == 'Z',
        vstd::utf8::is_ascii_chars(t.subrange(0, 4)),
        vstd::utf8::is_ascii_chars(t.subrange(5, 7)),
        vstd::utf8::is_ascii_chars(t.subrange(8, 10)),
        vstd::utf8::is_ascii_chars(t.subrange(11, 13)),
        vstd::utf8::is_ascii_chars(t.subrange(14, 16)),
        vstd::utf8::is_ascii_chars(t.subrange(17, 19)),
        vstd::utf8::is_ascii_chars(t.subrange(20, 29)),
    ensures
        vstd::utf8::is_ascii_chars(t),
{
    assert forall|i: int| 0 <= i < t.len() implies '\0' <= #[trigger] t[i] <= '\u{7f}' by {
        if i < 4 {
            assert(t[i] == t.subrange(0, 4)[i]);
        } else if 5 <= i < 7 {
            assert(t[i] == t.subrange(5, 7)[i - 5]);
        } else if 8 <= i < 10 {
            assert(t[i] == t.subrange(8, 10)[i - 8]);
        } else if 11 <= i < 13 {
            assert(t[i] == t.subrange(11, 13)[i - 11]);
        } else if 14 <= i < 16 {
            assert(t[i] == t.subrange(14, 16)[i - 14]);
        } else if 17 <= i < 19 {
            assert(t[i] == t.subrange(17, 19)[i - 17]);
        } else if 20 <= i < 29 {
            assert(t[i] == t.subrange(20, 29)[i - 20]);
        }
    }
}

/// The bytes of a text that is ASCII are its characters.
proof fn lemma_ascii_bytes(t: Seq<char>)
    requires
        vstd::utf8::is_ascii_chars(t),
    ensures
        encode_utf8(t).len() == t.len(),
        forall|i: int| 0 <= i < t.len() ==> #[trigger] encode_utf8(t)[i] as int == t[i] as int,
{
    vstd::utf8::is_ascii_chars_encode_utf8(t);
    assert forall|i: int| 0 <= i < t.len() implies #[trigger] encode_utf8(t)[i] as int
        == t[i] as int by {
        assert('\0' <= t[i] <= '\u{7f}');
    }
}

/// A timestamp's text is ASCII, so that it takes up 30 bytes.
pub proof fn law_timestamp_bytes(n: u64)
    ensures
        encode_utf8(timestamp_text(n as nat)).len() == 30,
        forall|i: int|
            0 <= i < 30 ==> #[trigger] encode_utf8(timestamp_text(n as nat))[i] as int
                == timestamp_text(n as nat)[i] as int,
{
    let (y, m, d) = lemma_timestamp_fields(n);
    lemma_digits_ascii(y as nat, 4);
    lemma_digits_ascii(m as nat, 2);
    lemma_digits_ascii(d as nat, 2);
    lemma_digits_ascii((n as int / 3_600_000_000_000 % 24) as nat, 2);
    lemma_digits_ascii((n as int / 60_000_000_000 % 60) as nat, 2);
    lemma_digits_ascii((n as int / 1_000_000_000 % 60) as nat, 2);
    lemma_digits_ascii((n as int % 1_000_000_000) as nat, 9);
    lemma_fields_ascii(timestamp_text(n as nat));
    lemma_ascii_bytes(timestamp_text(n as nat));
}

/// The names of the levels in log lines.
pub proof fn law_level_names(level: u8)
    ensures
        level == 1 ==> name_of(level) == "ERROR"@,
        level == 2 ==> name_of(level) == "WARN"@,
        level == 3 ==> name_of(level) == "INFO"@,
        level == 4 ==> name_of(level) == "DEBUG"@,
        level == 5 ==> name_of(level) == "TRACE"@,
        level == 0 || level > 5 ==> name_of(level) == "?????"@,
{
}

/// The colors of the levels: red, yellow, green, cyan, and gray for the rest.
pub proof fn law_level_colors(level: u8)
    ensures
        color_of(level).len() == 5,
        color_of(level)[0] == 0x1b && color_of(level)[1] == 0x5b && color_of(level)[4] == 0x6d,
        level == 1 ==> color_of(level)[2] == 0x33 && color_of(level)[3] == 0x31,
        level == 2 ==> color_of(level)[2] == 0x33 && color_of(level)[3] == 0x33,
        level == 3 ==> color_of(level)[2] == 0x33 && color_of(level)[3] == 0x32,
        level == 4 ==> color_of(level)[2] == 0x33 && color_of(level)[3] == 0x36,
        level == 0 || level > 4 ==> color_of(level)[2] == 0x39 && color_of(level)[3] == 0x30,
{
}

/// A line without colors reads `timestamp [LEVEL] target:line message`, or
/// `timestamp [LEVEL] target message` where no line is known, and ends with one
/// newline.
pub proof fn law_plain_line(
    timestamp_ns: u64,
    level: u8,
    target: Seq<char>,
    line: u32,
    message: Seq<char>,
)
    ensures
        line > 0 ==> line_bytes(timestamp_ns, level, target, line, message, false) == encode_utf8(
            timestamp_text(timestamp_ns as nat) + " ["@ + name_of(level) + "] "@ + target + ":"@
                + decimal(line as nat) + " "@ + message + "\n"@,
        ),
        line == 0 ==> line_bytes(timestamp_ns, level, target, line, message, false) == encode_utf8(
            timestamp_text(timestamp_ns as nat) + " ["@ + name_of(level) + "] "@ + target + " "@
                + message + "\n"@,
        ),
{
    reveal_strlit(" ");
    reveal_strlit("[");
    reveal_strlit("]");
    reveal_strlit(" [");
    reveal_strlit("] ");
    let t = timestamp_text(timestamp_ns as nat);
    let tag = "["@ + name_of(level) + "]"@;
    let place = place_text(target, line);
    lemma_encode_concat(t, " "@);
    lemma_encode_concat(t + " "@, tag);
    lemma_encode_concat(t + " "@ + tag, " "@);
    lemma_encode_concat(t + " "@ + tag + " "@, place);
    lemma_encode_concat(t + " "@ + tag + " "@ + place, " "@);
    lemma_encode_concat(t + " "@ + tag + " "@ + place + " "@, message);
    lemma_encode_concat(t + " "@ + tag + " "@ + place + " "@ + message, "\n"@);
    let whole = t + " "@ + tag + " "@ + place + " "@ + message + "\n"@;
    assert(line_bytes(timestamp_ns, level, target, line, message, false) == encode_utf8(whole));
    if line > 0 {
        assert(whole =~= t + " ["@ + name_of(level) + "] "@ + target + ":"@ + decimal(line as nat)
            + " "@ + message + "\n"@);
    } else {
        assert(whole =~= t + " ["@ + name_of(level) + "] "@ + target + " "@ + message + "\n"@);
    }
}

/// A line with colors shows the same pieces as one without, with the timestamp
/// and the place in gray, the level in its color, and each color ended right
/// behind its piece. The message is not colored.
pub proof fn law_colored_line(
    timestamp_ns: u64,
    level: u8,
    target: Seq<char>,
    line: u32,
    message: Seq<char>,
)
    ensures
        ({
            let dim = seq![0x1bu8, 0x5b, 0x39, 0x30, 0x6d];
            let end = seq![0x1bu8, 0x5b, 0x30, 0x6d];
            let place = if line > 0 {
                target + ":"@ + decimal(line as nat)
            } else {
                target
            };
            line_bytes(timestamp_ns, level, target, line, message, true) == dim + encode_utf8(
                timestamp_text(timestamp_ns as nat),
            ) + end + encode_utf8(" "@) + color_of(level) + encode_utf8(
                "["@ + name_of(level) + "]"@,
            ) + end + encode_utf8(" "@) + dim + encode_utf8(place) + end + encode_utf8(" "@)
                + encode_utf8(message) + encode_utf8("\n"@)
        }),
{
    let dim = seq![0x1bu8, 0x5b, 0x39, 0x30, 0x6d];
    let end = seq![0x1bu8, 0x5b, 0x30, 0x6d];
    let place = if line > 0 {
        target + ":"@ + decimal(line as nat)
    } else {
        target
    };
    assert(gray() =~= dim);
    assert(line_bytes(timestamp_ns, level, target, line, message, true) =~= dim + encode_utf8(
        timestamp_text(timestamp_ns as nat),
    ) + end + encode_utf8(" "@) + color_of(level) + encode_utf8("["@ + name_of(level) + "]"@) + end
        + encode_utf8(" "@) + dim + encode_utf8(place) + end + encode_utf8(" "@) + encode_utf8(
        message,
    ) + encode_utf8("\n"@));
}

/// The line of a standard payload shows the line number, the target and the
/// message that were written to it.
pub proof fn law_logged_text(
    timestamp_ns: u64,
    level: u8,
    line: u32,
    target: Seq<char>,
    message: Seq<char>,
)
    requires
        encode_utf8(target).len() <= u16::MAX,
        line > 0,
    ensures
        record_line(timestamp_ns, level, standard_payload(line, target, message), false)
            == encode_utf8(
            timestamp_text(timestamp_ns as nat) + " ["@ + name_of(level) + "] "@ + target + ":"@
                + decimal(line as nat) + " "@ + message + "\n"@,
        ),
{
    law_logged_line(timestamp_ns, level, line, target, message, false);
    law_plain_line(timestamp_ns, level, target, line, message);
}

}
