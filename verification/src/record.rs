//! Record format for log entries in the ring buffer.
//!
//! Every record starts with a fixed 24-byte [`RecordHeader`] followed by
//! variable-length payload bytes. The header carries the address of the
//! function that the consumer calls to format the payload.

use crate::bytes::{
    copy_at, get_le, law_le_places, law_le_round_trip, law_le_small, law_le_value_round_trip,
    le_bytes, le_value, lemma_le_len, lemma_le_ranges, lemma_le_value_bound, overwrite, put_le,
};
use crate::text::{str_from_utf8, text_of};
use vstd::arithmetic::power::pow;
use vstd::prelude::*;
use vstd::slice::slice_subrange;
use vstd::utf8::{decode_utf8, encode_utf8, valid_utf8};

verus! {

/// Size of an encoded [`RecordHeader`].
pub const HEADER_SIZE: usize = 24;

/// Fixed 24-byte header prepended to every record in the ring buffer.
///
/// # Layout
/// ```text
/// bytes  0..8   timestamp_ns (u64 LE)
/// bytes  8..16  formatter    (u64 LE)
/// byte  16      level
/// bytes 17..24  padding
/// ```
pub struct RecordHeader {
    pub timestamp_ns: u64,
    /// Address of the formatting function. Nothing here looks behind it.
    pub formatter: u64,
    pub level: u8,
    pub _pad: [u8; 7],
}

/// The 24 bytes of a header. Its numbers have the lowest byte first, on every
/// machine.
pub open spec fn header_bytes(h: RecordHeader) -> Seq<u8> {
    le_bytes(h.timestamp_ns as nat, 8) + le_bytes(h.formatter as nat, 8) + seq![h.level] + h._pad@
}

pub proof fn lemma_header_len(h: RecordHeader)
    ensures
        header_bytes(h).len() == HEADER_SIZE,
{
    lemma_le_len(h.timestamp_ns as nat, 8);
    lemma_le_len(h.formatter as nat, 8);
}

/// The header stands at the front of these bytes.
pub open spec fn starts_with_header(s: Seq<u8>, h: RecordHeader) -> bool {
    s.len() >= HEADER_SIZE && s.take(HEADER_SIZE as int) == header_bytes(h)
}

/// Bytes determine the header that they start with: a header that was written
/// is the only one that can be read back.
pub proof fn law_header_unique(s: Seq<u8>, a: RecordHeader, b: RecordHeader)
    requires
        starts_with_header(s, a),
        starts_with_header(s, b),
    ensures
        a.timestamp_ns == b.timestamp_ns,
        a.formatter == b.formatter,
        a.level == b.level,
        a._pad@ == b._pad@,
{
    lemma_le_len(a.timestamp_ns as nat, 8);
    lemma_le_len(a.formatter as nat, 8);
    lemma_le_len(b.timestamp_ns as nat, 8);
    lemma_le_len(b.formatter as nat, 8);
    lemma_le_ranges();
    law_le_round_trip(a.timestamp_ns as nat, 8);
    law_le_round_trip(b.timestamp_ns as nat, 8);
    law_le_round_trip(a.formatter as nat, 8);
    law_le_round_trip(b.formatter as nat, 8);
    let x = header_bytes(a);
    let y = header_bytes(b);
    assert(x.subrange(0, 8) =~= le_bytes(a.timestamp_ns as nat, 8));
    assert(y.subrange(0, 8) =~= le_bytes(b.timestamp_ns as nat, 8));
    assert(x.subrange(8, 16) =~= le_bytes(a.formatter as nat, 8));
    assert(y.subrange(8, 16) =~= le_bytes(b.formatter as nat, 8));
    assert(x[16] == a.level && y[16] == b.level);
    assert(x.subrange(17, 24) =~= a._pad@);
    assert(y.subrange(17, 24) =~= b._pad@);
}

/// The eight bytes of a 64-bit integer.
fn le_array(n: u64) -> (a: [u8; 8])
    ensures
        a@ == le_bytes(n as nat, 8),
{
    let n1: u64 = n / 256;
    let n2: u64 = n1 / 256;
    let n3: u64 = n2 / 256;
    let n4: u64 = n3 / 256;
    let n5: u64 = n4 / 256;
    let n6: u64 = n5 / 256;
    let n7: u64 = n6 / 256;
    let a: [u8; 8] = [
        (n % 256) as u8,
        (n1 % 256) as u8,
        (n2 % 256) as u8,
        (n3 % 256) as u8,
        (n4 % 256) as u8,
        (n5 % 256) as u8,
        (n6 % 256) as u8,
        (n7 % 256) as u8,
    ];
    proof {
        reveal_with_fuel(le_bytes, 9);
        assert(a@ =~= le_bytes(n as nat, 8));
    }
    a
}

/// The bytes of a header, by themselves.
pub fn header_array(header: &RecordHeader) -> (a: [u8; HEADER_SIZE])
    ensures
        a@ == header_bytes(*header),
{
    let t: [u8; 8] = le_array(header.timestamp_ns);
    let f: [u8; 8] = le_array(header.formatter);
    let p: [u8; 7] = header._pad;
    let a: [u8; HEADER_SIZE] = [
        t[0], t[1], t[2], t[3], t[4], t[5], t[6], t[7],
        f[0], f[1], f[2], f[3], f[4], f[5], f[6], f[7],
        header.level,
        p[0], p[1], p[2], p[3], p[4], p[5], p[6],
    ];
    assert(a@ =~= header_bytes(*header));
    a
}

/// Writes a RecordHeader into the first [`HEADER_SIZE`] bytes of `buf`.
pub fn write_header(buf: &mut [u8], header: &RecordHeader)
    requires
        old(buf)@.len() >= HEADER_SIZE,
    ensures
        final(buf)@ == overwrite(old(buf)@, 0, header_bytes(*header)),
        starts_with_header(final(buf)@, *header),
        final(buf)@.len() == old(buf)@.len(),
{
    let ghost before = buf@;
    proof {
        lemma_le_len(header.timestamp_ns as nat, 8);
        lemma_le_len(header.formatter as nat, 8);
    }
    put_le(buf, 0, header.timestamp_ns as u128, 8);
    put_le(buf, 8, header.formatter as u128, 8);
    buf[16] = header.level;
    copy_at(buf, 17, header._pad.as_slice());
    assert(buf@ =~= overwrite(before, 0, header_bytes(*header)));
    assert(buf@.take(HEADER_SIZE as int) =~= header_bytes(*header));
}

/// Reads a RecordHeader from the first [`HEADER_SIZE`] bytes of `buf`.
pub fn read_header(buf: &[u8]) -> (h: RecordHeader)
    requires
        buf@.len() >= HEADER_SIZE,
    ensures
        starts_with_header(buf@, h),
{
    proof {
        lemma_le_ranges();
        lemma_le_value_bound(buf@.subrange(0, 8));
        lemma_le_value_bound(buf@.subrange(8, 16));
        law_le_value_round_trip(buf@.subrange(0, 8));
        law_le_value_round_trip(buf@.subrange(8, 16));
    }
    let h: RecordHeader = RecordHeader {
        timestamp_ns: get_le(buf, 0, 8) as u64,
        formatter: get_le(buf, 8, 8) as u64,
        level: buf[16],
        _pad: [buf[17], buf[18], buf[19], buf[20], buf[21], buf[22], buf[23]],
    };
    assert(buf@.take(HEADER_SIZE as int) =~= header_bytes(h));
    h
}

// Standard payload layout:
//
// bytes 0..4:             line number (u32 LE, 0 = not available)
// bytes 4..6:             target length (u16 LE)
// bytes 6..6+target_len:  target string (UTF-8)
// bytes 6+target_len..:   message string (UTF-8)

/// Line, target length and target. Of the length the lower 16 bits are
/// stored.
pub open spec fn payload_prefix(line: u32, target: Seq<char>) -> Seq<u8> {
    le_bytes(line as nat, 4) + le_bytes(encode_utf8(target).len(), 2) + encode_utf8(target)
}

/// The standard payload.
pub open spec fn standard_payload(line: u32, target: Seq<char>, message: Seq<char>) -> Seq<u8> {
    payload_prefix(line, target) + encode_utf8(message)
}

/// The line number stored in a payload.
pub open spec fn payload_line(s: Seq<u8>) -> nat {
    le_value(s.subrange(0, 4))
}

/// The target length stored in a payload.
pub open spec fn payload_target_len(s: Seq<u8>) -> nat {
    le_value(s.subrange(4, 6))
}

/// The target stored in a payload.
pub open spec fn payload_target(s: Seq<u8>) -> Seq<char> {
    decode_utf8(s.subrange(6, 6 + payload_target_len(s) as int))
}

/// The message stored in a standard payload.
pub open spec fn payload_message(s: Seq<u8>) -> Seq<char> {
    decode_utf8(s.skip(6 + payload_target_len(s) as int))
}

/// The bytes begin with a line, a target length, and a target of that length
/// in valid UTF-8.
pub open spec fn has_payload_prefix(s: Seq<u8>) -> bool {
    &&& s.len() >= 6
    &&& 6 + payload_target_len(s) <= s.len()
    &&& valid_utf8(s.subrange(6, 6 + payload_target_len(s) as int))
}

/// The bytes are a payload prefix followed by valid UTF-8.
pub open spec fn is_standard_payload(s: Seq<u8>) -> bool {
    has_payload_prefix(s) && valid_utf8(s.skip(6 + payload_target_len(s) as int))
}

/// What follows a payload prefix does not change how the prefix reads: line
/// and target come back as they were written, for every target whose length
/// fits its 16-bit field.
pub proof fn law_payload_prefix_round_trip(line: u32, target: Seq<char>, rest: Seq<u8>)
    requires
        encode_utf8(target).len() <= u16::MAX,
    ensures
        ({
            let s = payload_prefix(line, target) + rest;
            &&& has_payload_prefix(s)
            &&& payload_line(s) == line
            &&& payload_target(s) == target
            &&& payload_target_len(s) == encode_utf8(target).len()
            &&& s.skip(6 + payload_target_len(s) as int) == rest
        }),
{
    let t = encode_utf8(target);
    let s = payload_prefix(line, target) + rest;
    lemma_le_ranges();
    law_le_round_trip(line as nat, 4);
    law_le_round_trip(t.len(), 2);
    assert(s.subrange(0, 4) =~= le_bytes(line as nat, 4));
    assert(s.subrange(4, 6) =~= le_bytes(t.len(), 2));
    assert(s.subrange(6, 6 + t.len() as int) =~= t);
    assert(s.skip(6 + t.len() as int) =~= rest);
    vstd::utf8::encode_utf8_valid_utf8(target);
    vstd::utf8::encode_utf8_decode_utf8(target);
}

/// Line, target and message of a standard payload come back as they were
/// written.
pub proof fn law_payload_round_trip(line: u32, target: Seq<char>, message: Seq<char>)
    requires
        encode_utf8(target).len() <= u16::MAX,
    ensures
        is_standard_payload(standard_payload(line, target, message)),
        payload_line(standard_payload(line, target, message)) == line,
        payload_target(standard_payload(line, target, message)) == target,
        payload_message(standard_payload(line, target, message)) == message,
{
    law_payload_prefix_round_trip(line, target, encode_utf8(message));
    vstd::utf8::encode_utf8_valid_utf8(message);
    vstd::utf8::encode_utf8_decode_utf8(message);
}

pub proof fn lemma_prefix_len(line: u32, target: Seq<char>)
    ensures
        payload_prefix(line, target).len() == 6 + encode_utf8(target).len(),
{
    lemma_le_len(line as nat, 4);
    lemma_le_len(encode_utf8(target).len(), 2);
}

/// Calculates total record size for a standard payload.
pub fn standard_record_size(target_len: usize, message_len: usize) -> (n: usize)
    requires
        HEADER_SIZE + 4 + 2 + target_len + message_len <= usize::MAX,
    ensures
        n == HEADER_SIZE + 4 + 2 + target_len + message_len,
{
    HEADER_SIZE + 4 + 2 + target_len + message_len
}

/// Writes line, target length and target into `buf`. Returns bytes written.
pub fn write_payload_prefix(buf: &mut [u8], line: u32, target: &str) -> (n: usize)
    requires
        6 + encode_utf8(target@).len() <= old(buf)@.len(),
    ensures
        n == payload_prefix(line, target@).len(),
        final(buf)@ == overwrite(old(buf)@, 0, payload_prefix(line, target@)),
{
    let ghost before = buf@;
    let size: usize = buf.len();
    let tb: &[u8] = target.as_bytes();
    proof {
        lemma_le_len(line as nat, 4);
        lemma_le_len(tb@.len(), 2);
        lemma_prefix_len(line, target@);
    }
    put_le(buf, 0, line as u128, 4);
    put_le(buf, 4, tb.len() as u128, 2);
    copy_at(buf, 6, tb);
    assert(buf@ =~= overwrite(before, 0, payload_prefix(line, target@)));
    6 + tb.len()
}

/// Writes the standard payload into `buf`. Returns bytes written.
pub fn write_standard_payload(buf: &mut [u8], line: u32, target: &str, message: &str) -> (n: usize)
    requires
        encode_utf8(target@).len() <= u16::MAX,
        6 + encode_utf8(target@).len() + encode_utf8(message@).len() <= old(buf)@.len(),
    ensures
        n == standard_payload(line, target@, message@).len(),
        final(buf)@ == overwrite(old(buf)@, 0, standard_payload(line, target@, message@)),
{
    let ghost before = buf@;
    let size: usize = buf.len();
    let mb: &[u8] = message.as_bytes();
    proof {
        lemma_prefix_len(line, target@);
    }
    let msg_start: usize = write_payload_prefix(buf, line, target);
    copy_at(buf, msg_start, mb);
    assert(buf@ =~= overwrite(before, 0, standard_payload(line, target@, message@)));
    msg_start + mb.len()
}

/// Whether the bytes begin with a readable payload prefix.
pub fn check_payload_prefix(payload: &[u8]) -> (ok: bool)
    ensures
        ok == has_payload_prefix(payload@),
{
    if payload.len() < 6 {
        return false;
    }
    proof {
        lemma_le_ranges();
        lemma_le_value_bound(payload@.subrange(4, 6));
    }
    let tl: usize = get_le(payload, 4, 2) as usize;
    if payload.len() - 6 < tl {
        return false;
    }
    match str_from_utf8(slice_subrange(payload, 6, 6 + tl)) {
        Some(_) => true,
        None => false,
    }
}

/// Whether the bytes are a readable standard payload.
pub fn check_standard_payload(payload: &[u8]) -> (ok: bool)
    ensures
        ok == is_standard_payload(payload@),
{
    if !check_payload_prefix(payload) {
        return false;
    }
    proof {
        lemma_le_ranges();
        lemma_le_value_bound(payload@.subrange(4, 6));
    }
    let tl: usize = get_le(payload, 4, 2) as usize;
    let rest: &[u8] = slice_subrange(payload, 6 + tl, payload.len());
    assert(rest@ =~= payload@.skip(6 + tl as int));
    match str_from_utf8(rest) {
        Some(_) => true,
        None => false,
    }
}

/// Reads a payload prefix. Returns (line, target, length of the prefix).
pub fn read_payload_prefix(payload: &[u8]) -> (r: (u32, &str, usize))
    requires
        has_payload_prefix(payload@),
    ensures
        r.0 == payload_line(payload@),
        r.1@ == payload_target(payload@),
        r.2 == 6 + payload_target_len(payload@),
{
    proof {
        lemma_le_ranges();
        lemma_le_value_bound(payload@.subrange(0, 4));
        lemma_le_value_bound(payload@.subrange(4, 6));
    }
    let size: usize = payload.len();
    let line: u32 = get_le(payload, 0, 4) as u32;
    let tl: usize = get_le(payload, 4, 2) as usize;
    let target: &str = text_of(slice_subrange(payload, 6, 6 + tl));
    (line, target, 6 + tl)
}

/// Reads the standard payload. Returns (line, target, message).
pub fn read_standard_payload(payload: &[u8]) -> (r: (u32, &str, &str))
    requires
        is_standard_payload(payload@),
    ensures
        r.0 == payload_line(payload@),
        r.1@ == payload_target(payload@),
        r.2@ == payload_message(payload@),
{
    let (line, target, start) = read_payload_prefix(payload);
    let rest: &[u8] = slice_subrange(payload, start, payload.len());
    assert(rest@ =~= payload@.skip(start as int));
    (line, target, text_of(rest))
}

/// A whole record: header, then payload.
pub open spec fn record_bytes(h: RecordHeader, payload: Seq<u8>) -> Seq<u8> {
    header_bytes(h) + payload
}

/// A record comes apart into the header and the payload that it was built
/// from.
pub proof fn law_record_round_trip(h: RecordHeader, payload: Seq<u8>, g: RecordHeader, rest: Seq<u8>)
    requires
        record_bytes(h, payload) == record_bytes(g, rest),
    ensures
        h.timestamp_ns == g.timestamp_ns,
        h.formatter == g.formatter,
        h.level == g.level,
        h._pad@ == g._pad@,
        payload == rest,
{
    lemma_header_len(h);
    lemma_header_len(g);
    let s = record_bytes(h, payload);
    assert(s.take(HEADER_SIZE as int) =~= header_bytes(h));
    assert(s.take(HEADER_SIZE as int) =~= header_bytes(g));
    law_header_unique(s, h, g);
    assert(s.skip(HEADER_SIZE as int) =~= payload);
    assert(s.skip(HEADER_SIZE as int) =~= rest);
}

/// The bytes of a header, each at its place: the timestamp, the formatter, the
/// level and the padding, the numbers lowest byte first.
pub proof fn law_header_layout(h: RecordHeader, k: nat)
    ensures
        header_bytes(h).len() == 24,
        k < 8 ==> header_bytes(h)[k as int] as int == h.timestamp_ns as int / pow(256, k) % 256,
        k < 8 ==> header_bytes(h)[8 + k as int] as int == h.formatter as int / pow(256, k) % 256,
        header_bytes(h)[16] == h.level,
        k < 7 ==> header_bytes(h)[17 + k as int] == h._pad@[k as int],
{
    law_le_places(h.timestamp_ns as nat, 8, k);
    law_le_places(h.formatter as nat, 8, k);
}

/// A record is its header and, right behind it, its whole payload.
pub proof fn law_record_layout(h: RecordHeader, payload: Seq<u8>)
    ensures
        record_bytes(h, payload).len() == 24 + payload.len(),
        record_bytes(h, payload).take(24) == header_bytes(h),
        record_bytes(h, payload).skip(24) == payload,
{
    lemma_header_len(h);
    assert(record_bytes(h, payload).take(24) =~= header_bytes(h));
    assert(record_bytes(h, payload).skip(24) =~= payload);
}

/// Bytes start with a header exactly where its bytes are the first of them.
pub proof fn law_starts_with_header(s: Seq<u8>, h: RecordHeader)
    ensures
        starts_with_header(s, h) <==> s.len() >= 24 && (forall|i: int|
            0 <= i < 24 ==> #[trigger] s[i] == header_bytes(h)[i]),
{
    lemma_header_len(h);
    if s.len() >= 24 && (forall|i: int| 0 <= i < 24 ==> #[trigger] s[i] == header_bytes(h)[i]) {
        assert(s.take(24) =~= header_bytes(h));
    }
    if starts_with_header(s, h) {
        assert forall|i: int| 0 <= i < 24 implies #[trigger] s[i] == header_bytes(h)[i] by {
            assert(s.take(24)[i] == s[i]);
        }
    }
}

/// The bytes of a standard payload, each at its place: the line, the length of
/// the target, the target and the message, both whole.
pub proof fn law_payload_layout(line: u32, target: Seq<char>, message: Seq<char>, k: nat)
    ensures
        ({
            let s = standard_payload(line, target, message);
            let t = encode_utf8(target);
            let m = encode_utf8(message);
            &&& s.len() == 6 + t.len() + m.len()
            &&& k < 4 ==> s[k as int] as int == line as int / pow(256, k) % 256
            &&& k < 2 ==> s[4 + k as int] as int == t.len() as int / pow(256, k) % 256
            &&& s.subrange(6, 6 + t.len() as int) == t
            &&& s.subrange(6 + t.len() as int, s.len() as int) == m
            &&& payload_prefix(line, target) == s.take(6 + t.len() as int)
        }),
{
    let s = standard_payload(line, target, message);
    let t = encode_utf8(target);
    law_le_places(line as nat, 4, k);
    law_le_places(t.len(), 2, k);
    assert(s.subrange(6, 6 + t.len() as int) =~= t);
    assert(s.subrange(6 + t.len() as int, s.len() as int) =~= encode_utf8(message));
    assert(payload_prefix(line, target) =~= s.take(6 + t.len() as int));
}

/// A payload reads as its bytes say: a line, the length of the target, that many
/// bytes of target, and all the rest as the message.
pub proof fn law_payload_reads(s: Seq<u8>)
    requires
        s.len() >= 6,
    ensures
        ({
            let n = s[4] + 256 * s[5];
            &&& payload_line(s) == s[0] + 256 * s[1] + 65536 * s[2] + 16777216 * s[3]
            &&& payload_target_len(s) == n
            &&& has_payload_prefix(s) <==> 6 + n <= s.len() && valid_utf8(s.subrange(6, 6 + n))
            &&& has_payload_prefix(s) ==> payload_target(s) == decode_utf8(s.subrange(6, 6 + n))
            &&& is_standard_payload(s) <==> has_payload_prefix(s) && valid_utf8(
                s.subrange(6 + n, s.len() as int),
            )
            &&& is_standard_payload(s) ==> payload_message(s) == decode_utf8(
                s.subrange(6 + n, s.len() as int),
            )
        }),
{
    law_le_small(s.subrange(0, 4));
    law_le_small(s.subrange(4, 6));
    let n = s[4] + 256 * s[5];
    if 6 + n <= s.len() {
        assert(s.skip(6 + n) =~= s.subrange(6 + n, s.len() as int));
    }
}

}
