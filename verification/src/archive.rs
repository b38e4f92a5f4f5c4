//! Archive streams for structured event logging.
//!
//! Each archive stream has its own ring buffer, separate from the main
//! log stream. Records carry a user-defined tag, as raw bytes, and an opaque
//! payload. Formatting happens on the archiver thread.

use crate::bytes::{
    copy_at, get_le, law_le_places, law_le_round_trip, law_le_small, law_le_value_round_trip,
    le_bytes, le_value, lemma_le_len, lemma_le_ranges, lemma_le_value_bound, overwrite,
    push_bytes, put_le, zeros,
};
use crate::clock::{snap_timestamp, stamped};
use crate::format::{format_timestamp, law_timestamp_bytes, timestamp_text};
use crate::pod::{has_image, law_pod_round_trip, pod_from_bytes, pod_lawful, starts_with, Pod};
use crate::ring::{RecordConsumer, RecordKind, RecordProducer};
use crate::text::push_text;
use std::marker::PhantomData;
use std::time::SystemTime;
use vstd::arithmetic::power::pow;
use vstd::prelude::*;
use vstd::slice::slice_subrange;
use vstd::utf8::encode_utf8;

verus! {

/// Archive record tags.
///
/// Tags identify the type of archive record. The tag travels through the ring
/// buffer as its image and is reconstructed on the consumer side, where
/// `write_label` formats a human-readable label.
pub trait ArchiveTag: Pod + Copy {
    /// The label of a tag. It is left open for a type that does not say.
    open spec fn label(self) -> Seq<u8> {
        arbitrary()
    }

    /// Write a human-readable label for this tag.
    ///
    /// Called on the archiver thread, not on the hot path. Allocations and
    /// formatting are acceptable here.
    fn write_label(&self, out: &mut Vec<u8>)
        ensures
            final(out)@ == old(out)@ + self.label(),
    ;
}

// Record layout, for tags of L bytes:
//
// bytes 0..8:       timestamp (u64 LE)
// bytes 8..8+L:     tag
// bytes 8+L..12+L:  payload length (u32 LE)
// bytes 12+L..:     payload

/// An archive record. Of the payload's length the lower 32 bits are stored.
pub open spec fn archive_record<T: Pod>(timestamp_ns: u64, tag: T, payload: Seq<u8>) -> Seq<u8> {
    le_bytes(timestamp_ns as nat, 8) + tag.image() + le_bytes(payload.len(), 4) + payload
}

/// The timestamp of an archive record.
pub open spec fn archived_time(s: Seq<u8>) -> nat {
    le_value(s.subrange(0, 8))
}

/// The payload length stored in an archive record.
pub open spec fn archived_len<T: Pod>(s: Seq<u8>) -> nat {
    le_value(s.subrange(8 + T::image_len() as int, 12 + T::image_len() as int))
}

/// The payload of an archive record.
pub open spec fn archived_payload<T: Pod>(s: Seq<u8>) -> Seq<u8> {
    s.subrange(
        12 + T::image_len() as int,
        12 + T::image_len() as int + archived_len::<T>(s) as int,
    )
}

/// The tag of an archive record.
pub open spec fn archived_tag<T: Pod>(s: Seq<u8>, tag: T) -> bool {
    starts_with(s.skip(8), tag.image())
}

/// The bytes hold a timestamp, a tag, and a payload of the length that stands
/// in front of it.
pub open spec fn is_archive_record<T: Pod>(s: Seq<u8>) -> bool {
    &&& s.len() >= 12 + T::image_len()
    &&& has_image::<T>(s.skip(8))
    &&& 12 + T::image_len() + archived_len::<T>(s) <= s.len()
}

/// The line of an archive record:
/// `2024-01-15T14:30:45.123456789Z [BINANCE INBOUND] payload bytes here`.
pub open spec fn archive_line<T: ArchiveTag>(timestamp_ns: nat, tag: T, payload: Seq<u8>) -> Seq<
    u8,
> {
    encode_utf8(timestamp_text(timestamp_ns)) + encode_utf8(" ["@) + tag.label() + encode_utf8(
        "] "@,
    ) + payload + encode_utf8("\n"@)
}

/// Timestamp, tag and payload of an archive record come back as they were
/// written, for every payload whose length fits its 32-bit field.
pub proof fn law_archive_round_trip<T: Pod>(timestamp_ns: u64, tag: T, payload: Seq<u8>, other: T)
    requires
        pod_lawful::<T>(),
        payload.len() <= u32::MAX,
    ensures
        ({
            let s = archive_record(timestamp_ns, tag, payload);
            &&& is_archive_record::<T>(s)
            &&& archived_time(s) == timestamp_ns
            &&& archived_payload::<T>(s) == payload
            &&& archived_tag(s, tag)
            &&& archived_tag(s, other) ==> other == tag
        }),
{
    lemma_archive_record(timestamp_ns, tag, payload);
    let s = archive_record(timestamp_ns, tag, payload);
    let l = T::image_len() as int;
    assert(tag.image().len() == T::image_len());
    lemma_le_ranges();
    law_le_round_trip(timestamp_ns as nat, 8);
    law_le_round_trip(payload.len(), 4);
    assert(s.subrange(0, 8) =~= le_bytes(timestamp_ns as nat, 8));
    assert(s.subrange(8 + l, 12 + l) =~= le_bytes(payload.len(), 4));
    assert(archived_payload::<T>(s) =~= payload);
    let rest = le_bytes(payload.len(), 4) + payload;
    assert(s.skip(8) =~= tag.image() + rest);
    law_pod_round_trip(tag, rest, other);
    law_pod_round_trip(tag, rest, tag);
    assert((tag.image() + rest).take(l) =~= tag.image());
}

/// The line of an archive record shows what was written to it.
pub proof fn law_archived_line<T: ArchiveTag>(
    timestamp_ns: u64,
    tag: T,
    payload: Seq<u8>,
    found: T,
)
    requires
        pod_lawful::<T>(),
        payload.len() <= u32::MAX,
        archived_tag(archive_record(timestamp_ns, tag, payload), found),
    ensures
        ({
            let s = archive_record(timestamp_ns, tag, payload);
            archive_line(archived_time(s), found, archived_payload::<T>(s)) == archive_line(
                timestamp_ns as nat,
                tag,
                payload,
            )
        }),
{
    law_archive_round_trip(timestamp_ns, tag, payload, found);
}

/// Whatever the payload's length, an archive record can be taken apart.
proof fn lemma_archive_record<T: Pod>(timestamp_ns: u64, tag: T, payload: Seq<u8>)
    requires
        pod_lawful::<T>(),
    ensures
        is_archive_record::<T>(archive_record(timestamp_ns, tag, payload)),
        archive_record(timestamp_ns, tag, payload).len() == 12 + T::image_len() + payload.len(),
{
    let s = archive_record(timestamp_ns, tag, payload);
    let l = T::image_len() as int;
    assert(tag.image().len() == T::image_len());
    lemma_le_len(timestamp_ns as nat, 8);
    lemma_le_len(payload.len(), 4);
    assert(s.subrange(8 + l, 12 + l) =~= le_bytes(payload.len(), 4));
    lemma_le_truncates(payload.len(), 4);
    let rest = le_bytes(payload.len(), 4) + payload;
    assert(s.skip(8) =~= tag.image() + rest);
    law_pod_round_trip(tag, rest, tag);
}

/// The stored bytes of a number never stand for more than the number.
proof fn lemma_le_truncates(n: nat, width: nat)
    ensures
        le_value(le_bytes(n, width)) <= n,
    decreases width,
{
    lemma_le_len(n, width);
    if width > 0 {
        lemma_le_truncates(n / 256, (width - 1) as nat);
        assert(le_bytes(n, width).drop_first() =~= le_bytes(n / 256, (width - 1) as nat));
    }
}

/// The records of an archive stream with tags of one type.
pub struct ArchiveRecord<T> {
    _tag: PhantomData<T>,
}

impl<T: ArchiveTag> RecordKind for ArchiveRecord<T> {
    open spec fn valid(record: Seq<u8>) -> bool {
        is_archive_record::<T>(record)
    }
}

/// The system clock stands before the Unix epoch.
#[derive(Clone, Copy, Debug, PartialEq, Eq, Structural)]
pub struct ClockBeforeEpoch;

/// Handle for writing archive records to a dedicated ring buffer.
///
/// Each handle is backed by its own ring buffer, separate from the main
/// log stream. Clone the handle for use across multiple threads: each
/// clone gets its own producer endpoint.
pub struct ArchiveHandle<T: ArchiveTag> {
    producer: RecordProducer<ArchiveRecord<T>>,
}

impl<T: ArchiveTag> Clone for ArchiveHandle<T> {
    fn clone(&self) -> (other: Self)
        ensures
            other.producer().committed() == Seq::<Seq<u8>>::empty(),
            other.producer().asked() == Seq::<nat>::empty(),
            other.producer().capacity() == self.producer().capacity(),
            other.producer().stream() == self.producer().stream(),
            other.producer().wf(),
    {
        ArchiveHandle { producer: self.producer.another() }
    }
}

impl<T: ArchiveTag> ArchiveHandle<T> {
    /// The producer handle behind this one.
    pub closed spec fn producer(self) -> RecordProducer<ArchiveRecord<T>> {
        self.producer
    }

    /// A handle that commits through `producer`.
    pub fn new(producer: RecordProducer<ArchiveRecord<T>>) -> (handle: Self)
        ensures
            handle.producer() == producer,
    {
        ArchiveHandle { producer }
    }

    /// Write an archive record with the time as it was read. Returns whether
    /// there was room for it.
    pub fn write_at(&mut self, timestamp_ns: u64, tag: T, payload: &[u8]) -> (written: bool)
        ensures
            final(self).producer().committed() == (if written {
                old(self).producer().committed().push(archive_record(timestamp_ns, tag, payload@))
            } else {
                old(self).producer().committed()
            }),
            written ==> 12 + T::image_len() + payload@.len() < old(self).producer().capacity(),
            final(self).producer().asked() == (if 12 + T::image_len() + payload@.len()
                <= isize::MAX {
                old(self).producer().asked().push(12 + T::image_len() + payload@.len())
            } else {
                old(self).producer().asked()
            }),
            final(self).producer().same_ring(old(self).producer()),
    {
        let tag_size: usize = T::pod_size();
        let size: usize = match tag_size.checked_add(12) {
            None => return false,
            Some(n) => match n.checked_add(payload.len()) {
                None => return false,
                Some(size) => size,
            },
        };
        proof {
            lemma_archive_record(timestamp_ns, tag, payload@);
        }
        let ghost record = archive_record(timestamp_ns, tag, payload@);
        let fill = |buf: &mut [u8]|
            requires
                buf@.len() == size,
            ensures
                final(buf)@ == record,
        {
            let ghost blank = buf@;
            write_archive_record(buf, timestamp_ns, tag, payload);
            assert(overwrite(blank, 0, record) =~= record);
        };
        proof {
            assert forall|x: &mut [u8]|
                x@ == zeros(size as nat) && #[trigger] call_ensures(fill, (x,), ()) implies <ArchiveRecord<
                T,
            > as RecordKind>::valid(Seq::<u8>::empty() + final(x)@) by {
                assert(Seq::<u8>::empty() + final(x)@ =~= record);
            }
            assert(Seq::<u8>::empty() + record =~= record);
        }
        let front: [u8; 0] = [];
        assert(front@ =~= Seq::<u8>::empty());
        match self.producer.commit_with(front.as_slice(), size, fill) {
            Ok(()) => true,
            Err(_) => false,
        }
    }

    /// Write an archive record.
    ///
    /// The tag is written as raw bytes into the ring buffer; payload
    /// is copied verbatim. If the ring buffer is full, the record is
    /// silently dropped. Fails where the system clock stands before the Unix
    /// epoch.
    pub fn write(&mut self, tag: T, payload: &[u8]) -> (r: Result<(), ClockBeforeEpoch>)
        ensures
            r is Err ==> exists|t: SystemTime| #[trigger] stamped(t, None),
            r is Err ==> final(self).producer().committed() == old(self).producer().committed(),
            r is Err ==> final(self).producer().asked() == old(self).producer().asked(),
            r is Ok ==> final(self).producer().asked() == (if 12 + T::image_len() + payload@.len()
                <= isize::MAX {
                old(self).producer().asked().push(12 + T::image_len() + payload@.len())
            } else {
                old(self).producer().asked()
            }),
            r is Ok ==> exists|timestamp_ns: u64, t: SystemTime|
                #[trigger] stamped(t, Some(timestamp_ns)) && (final(self).producer().committed()
                    == old(self).producer().committed() || final(self).producer().committed()
                    == old(self).producer().committed().push(
                    archive_record(timestamp_ns, tag, payload@),
                )),
            final(self).producer().same_ring(old(self).producer()),
    {
        match snap_timestamp() {
            Some(ts) => {
                self.write_at(ts, tag, payload);
                Ok(())
            },
            None => Err(ClockBeforeEpoch),
        }
    }
}

/// Writes an archive record to the front of `buf`. Returns bytes written.
pub fn write_archive_record<T: Pod>(buf: &mut [u8], timestamp_ns: u64, tag: T, payload: &[u8]) -> (n:
    usize)
    requires
        12 + T::image_len() + payload@.len() <= old(buf)@.len(),
    ensures
        n == 12 + T::image_len() + payload@.len(),
        final(buf)@ == overwrite(old(buf)@, 0, archive_record(timestamp_ns, tag, payload@)),
{
    let ghost before = buf@;
    let size: usize = buf.len();
    let tag_size: usize = T::pod_size();
    proof {
        assert(tag.image().len() == T::image_len());
        lemma_le_len(timestamp_ns as nat, 8);
        lemma_le_len(payload@.len(), 4);
    }
    put_le(buf, 0, timestamp_ns as u128, 8);
    put_tag(buf, 8, tag);
    put_le(buf, 8 + tag_size, payload.len() as u128, 4);
    copy_at(buf, 12 + tag_size, payload);
    assert(buf@ =~= overwrite(before, 0, archive_record(timestamp_ns, tag, payload@)));
    12 + tag_size + payload.len()
}

/// Writes the image of a tag at an offset.
fn put_tag<T: Pod>(buf: &mut [u8], at: usize, tag: T)
    requires
        at + T::image_len() <= old(buf)@.len(),
    ensures
        final(buf)@ == overwrite(old(buf)@, at as int, tag.image()),
{
    let ghost before = buf@;
    let tag_size: usize = T::pod_size();
    proof {
        assert(tag.image().len() == T::image_len());
    }
    let (head, tail) = buf.split_at_mut(at);
    tag.put_image(tail);
    proof {
        assert(tail@ =~= overwrite(before.skip(at as int), 0, tag.image()));
    }
    assert(buf@ =~= overwrite(before, at as int, tag.image()));
}

/// Format function for the records of a specific [`ArchiveTag`] type.
///
/// Reads timestamp + tag + payload from the record bytes, formats the tag
/// label, and writes a line to the output.
///
/// Output format:
/// ```text
/// 2024-01-15T14:30:45.123456789Z [BINANCE INBOUND] payload bytes here
/// ```
pub fn archive_format_fn<T: ArchiveTag>(record: &[u8], out: &mut Vec<u8>)
    requires
        is_archive_record::<T>(record@),
    ensures
        exists|tag: T| #[trigger]
            archived_tag(record@, tag) && final(out)@ == old(out)@ + archive_line(
                archived_time(record@),
                tag,
                archived_payload::<T>(record@),
            ),
{
    let ghost before = out@;
    let size: usize = record.len();
    let tag_size: usize = T::pod_size();
    proof {
        lemma_le_ranges();
        lemma_le_value_bound(record@.subrange(0, 8));
        lemma_le_value_bound(record@.subrange(8 + tag_size, 12 + tag_size));
    }
    let ts: u64 = get_le(record, 0, 8) as u64;
    let behind_time: &[u8] = slice_subrange(record, 8, size);
    assert(behind_time@ =~= record@.skip(8));
    let tag: T = pod_from_bytes::<T>(behind_time);
    let plen: usize = get_le(record, 8 + tag_size, 4) as usize;
    let payload: &[u8] = slice_subrange(record, 12 + tag_size, 12 + tag_size + plen);

    format_timestamp(ts, out);
    push_text(out, " [");
    tag.write_label(out);
    push_text(out, "] ");
    push_bytes(out, payload);
    push_text(out, "\n");
    proof {
        assert(archived_tag(record@, tag));
        assert(out@ =~= before + archive_line(
            archived_time(record@),
            tag,
            archived_payload::<T>(record@),
        ));
    }
}

/// Takes the next record of an archive stream, if there is one, into `record`,
/// and formats it. Returns whether there was one.
pub fn next_archive_line<T: ArchiveTag>(
    consumer: &mut RecordConsumer<ArchiveRecord<T>>,
    record: &mut Vec<u8>,
    out: &mut Vec<u8>,
) -> (found: bool)
    ensures
        final(consumer).looks() == old(consumer).looks() + 1,
        final(consumer).same_ring(*old(consumer)),
        !found ==> {
            &&& final(consumer).taken() == old(consumer).taken()
            &&& final(record)@ == old(record)@
            &&& final(out)@ == old(out)@
        },
        found ==> final(consumer).taken() == old(consumer).taken().push(final(record)@),
        found ==> exists|tag: T| #[trigger]
            archived_tag(final(record)@, tag) && final(out)@ == old(out)@ + archive_line(
                archived_time(final(record)@),
                tag,
                archived_payload::<T>(final(record)@),
            ),
{
    if !consumer.take(record) {
        return false;
    }
    archive_format_fn::<T>(record.as_slice(), out);
    true
}

/// The line of an archive record: the timestamp's 30 bytes, the label between
/// brackets, the whole payload, byte for byte, and one newline.
pub proof fn law_archive_line_parts<T: ArchiveTag>(timestamp_ns: u64, tag: T, payload: Seq<u8>)
    ensures
        ({
            let s = archive_line(timestamp_ns as nat, tag, payload);
            let l = tag.label().len() as int;
            let n = payload.len() as int;
            &&& s.len() == 30 + 2 + l + 2 + n + 1
            &&& s.subrange(0, 30) == encode_utf8(timestamp_text(timestamp_ns as nat))
            &&& s[30] == 0x20 && s[31] == 0x5b
            &&& s.subrange(32, 32 + l) == tag.label()
            &&& s[32 + l] == 0x5d && s[33 + l] == 0x20
            &&& s.subrange(34 + l, 34 + l + n) == payload
            &&& s[34 + l + n] == 0x0a
        }),
{
    reveal_strlit(" [");
    reveal_strlit("] ");
    reveal_strlit("\n");
    law_timestamp_bytes(timestamp_ns);
    vstd::utf8::is_ascii_chars_encode_utf8(" ["@);
    vstd::utf8::is_ascii_chars_encode_utf8("] "@);
    vstd::utf8::is_ascii_chars_encode_utf8("\n"@);
    let s = archive_line(timestamp_ns as nat, tag, payload);
    let l = tag.label().len() as int;
    let n = payload.len() as int;
    assert(s.subrange(0, 30) =~= encode_utf8(timestamp_text(timestamp_ns as nat)));
    assert(s.subrange(32, 32 + l) =~= tag.label());
    assert(s.subrange(34 + l, 34 + l + n) =~= payload);
}

/// The bytes of an archive record: timestamp, tag, payload length and payload,
/// each at its place, the numbers lowest byte first.
pub proof fn law_archive_layout<T: Pod>(timestamp_ns: u64, tag: T, payload: Seq<u8>, k: nat)
    requires
        pod_lawful::<T>(),
    ensures
        ({
            let s = archive_record(timestamp_ns, tag, payload);
            let l = T::image_len() as int;
            &&& s.len() == 12 + l + payload.len()
            &&& k < 8 ==> s[k as int] as int == timestamp_ns as int / pow(256, k) % 256
            &&& s.subrange(8, 8 + l) == tag.image()
            &&& k < 4 ==> s[8 + l + k] as int == payload.len() as int / pow(256, k) % 256
            &&& s.subrange(12 + l, s.len() as int) == payload
        }),
{
    let s = archive_record(timestamp_ns, tag, payload);
    let l = T::image_len() as int;
    assert(tag.image().len() == T::image_len());
    law_le_places(timestamp_ns as nat, 8, k);
    law_le_places(payload.len(), 4, k);
    assert(s.subrange(8, 8 + l) =~= tag.image());
    assert(s.subrange(12 + l, s.len() as int) =~= payload);
}

/// An archive record reads back as the numbers that its bytes stand for.
pub proof fn law_archive_reads<T: Pod>(s: Seq<u8>)
    requires
        s.len() >= 12 + T::image_len(),
    ensures
        ({
            let l = T::image_len() as int;
            let n = s[8 + l] + 256 * s[9 + l] + 65536 * s[10 + l] + 16777216 * s[11 + l];
            &&& le_bytes(archived_time(s), 8) == s.subrange(0, 8)
            &&& archived_len::<T>(s) == n
            &&& is_archive_record::<T>(s) ==> archived_payload::<T>(s) == s.subrange(
                12 + l,
                12 + l + n,
            )
            &&& is_archive_record::<T>(s) <==> 12 + l + n <= s.len() && (exists|w: T|
                #[trigger] w.image() == s.subrange(8, 8 + w.image().len() as int) && 8
                    + w.image().len() <= s.len())
        }),
{
    let l = T::image_len() as int;
    law_le_value_round_trip(s.subrange(0, 8));
    law_le_small(s.subrange(8 + l, 12 + l));
    assert forall|w: T| 8 + w.image().len() <= s.len() implies s.skip(8).take(
        w.image().len() as int,
    ) == #[trigger] s.subrange(8, 8 + w.image().len() as int) by {
        assert(s.skip(8).take(w.image().len() as int) =~= s.subrange(
            8,
            8 + w.image().len() as int,
        ));
    }
    if is_archive_record::<T>(s) {
        let w = choose|w: T| starts_with(s.skip(8), #[trigger] w.image());
        assert(w.image() == s.subrange(8, 8 + w.image().len() as int));
    }
    if exists|w: T|
        #[trigger] w.image() == s.subrange(8, 8 + w.image().len() as int) && 8 + w.image().len()
            <= s.len() {
        let w = choose|w: T|
            #[trigger] w.image() == s.subrange(8, 8 + w.image().len() as int) && 8
                + w.image().len() <= s.len();
        assert(starts_with(s.skip(8), w.image()));
    }
}

}
