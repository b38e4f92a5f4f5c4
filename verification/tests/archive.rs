use inqjet::archive::{
    archive_format_fn, next_archive_line, write_archive_record, ArchiveHandle, ArchiveRecord,
    ArchiveTag,
};
use inqjet::clock::snap_timestamp;
use inqjet::ring::record_ring;
use inqjet::Pod;

const NAMES: [&str; 3] = ["HEARTBEAT", "BINANCE", "KRAKEN"];

fn put_name(name: &'static str, buf: &mut [u8]) {
    buf[0] = NAMES.iter().position(|n| *n == name).unwrap() as u8;
}

fn take_name(bytes: &[u8]) -> Option<&'static str> {
    NAMES.get(*bytes.first()? as usize).copied()
}

#[derive(Clone, Copy)]
struct SimpleTag(&'static str);

impl Pod for SimpleTag {
    fn pod_size() -> usize {
        1
    }
    fn put_image(&self, buf: &mut [u8]) {
        put_name(self.0, buf)
    }
    fn take_image(bytes: &[u8]) -> Option<Self> {
        take_name(bytes).map(SimpleTag)
    }
}

impl ArchiveTag for SimpleTag {
    fn write_label(&self, out: &mut Vec<u8>) {
        out.extend_from_slice(self.0.as_bytes());
    }
}

#[derive(Clone, Copy)]
enum Direction {
    Inbound,
    Outbound,
}

impl Direction {
    fn as_str(self) -> &'static str {
        match self {
            Direction::Inbound => "INBOUND",
            Direction::Outbound => "OUTBOUND",
        }
    }
}

#[derive(Clone, Copy)]
struct VenueEvent {
    venue: &'static str,
    direction: Direction,
}

impl Pod for VenueEvent {
    fn pod_size() -> usize {
        2
    }
    fn put_image(&self, buf: &mut [u8]) {
        put_name(self.venue, buf);
        buf[1] = match self.direction {
            Direction::Inbound => 0,
            Direction::Outbound => 1,
        };
    }
    fn take_image(bytes: &[u8]) -> Option<Self> {
        let venue = take_name(bytes)?;
        let direction = match bytes.get(1)? {
            0 => Direction::Inbound,
            1 => Direction::Outbound,
            _ => return None,
        };
        Some(VenueEvent { venue, direction })
    }
}

impl ArchiveTag for VenueEvent {
    fn write_label(&self, out: &mut Vec<u8>) {
        out.extend_from_slice(format!("{} {}", self.venue, self.direction.as_str()).as_bytes());
    }
}

/// A tag without a value.
#[derive(Clone, Copy)]
struct Unit;

impl Pod for Unit {
    fn pod_size() -> usize {
        0
    }
    fn put_image(&self, _buf: &mut [u8]) {}
    fn take_image(_bytes: &[u8]) -> Option<Self> {
        Some(Unit)
    }
}

impl ArchiveTag for Unit {
    fn write_label(&self, _out: &mut Vec<u8>) {}
}

fn archive_record<T: Pod>(timestamp_ns: u64, tag: T, payload: &[u8]) -> Vec<u8> {
    let mut record = vec![0u8; 12 + T::pod_size() + payload.len()];
    let n = write_archive_record(&mut record, timestamp_ns, tag, payload);
    assert_eq!(n, record.len());
    record
}

#[test]
fn archive_format_simple_tag() {
    let tag = SimpleTag("HEARTBEAT");
    let payload = b"ping";

    // Build a record manually
    let tag_size = SimpleTag::pod_size();
    let record_size = 8 + tag_size + 4 + payload.len();
    let mut record = vec![0u8; record_size];

    let ts: u64 = 1_705_329_045_123_456_789;
    let mut off = 0;
    record[off..off + 8].copy_from_slice(&ts.to_le_bytes());
    off += 8;
    tag.put_image(&mut record[off..]);
    off += tag_size;
    record[off..off + 4].copy_from_slice(&(payload.len() as u32).to_le_bytes());
    off += 4;
    record[off..off + payload.len()].copy_from_slice(payload);

    let mut out = Vec::new();
    archive_format_fn::<SimpleTag>(&record, &mut out);
    let s = String::from_utf8(out).unwrap();

    assert!(s.contains("2024-01-15T14:30:45.123456789Z"));
    assert!(s.contains("[HEARTBEAT]"));
    assert!(s.contains("ping"));
    assert!(s.ends_with('\n'));
}

#[test]
fn archive_format_composite_tag() {
    let tag = VenueEvent {
        venue: "BINANCE",
        direction: Direction::Inbound,
    };
    let payload = b"8=FIX.4.4|35=D";

    let tag_size = VenueEvent::pod_size();
    let record_size = 8 + tag_size + 4 + payload.len();
    let mut record = vec![0u8; record_size];

    let ts: u64 = 1_705_329_045_123_456_789;
    let mut off = 0;
    record[off..off + 8].copy_from_slice(&ts.to_le_bytes());
    off += 8;
    tag.put_image(&mut record[off..]);
    off += tag_size;
    record[off..off + 4].copy_from_slice(&(payload.len() as u32).to_le_bytes());
    off += 4;
    record[off..off + payload.len()].copy_from_slice(payload);

    let mut out = Vec::new();
    archive_format_fn::<VenueEvent>(&record, &mut out);
    let s = String::from_utf8(out).unwrap();

    assert!(s.contains("[BINANCE INBOUND]"));
    assert!(s.contains("8=FIX.4.4|35=D"));
}

#[test]
fn archive_line_exact() {
    let tag = VenueEvent {
        venue: "KRAKEN",
        direction: Direction::Outbound,
    };
    let record = archive_record(1_705_329_045_123_456_789, tag, b"\xffraw");
    assert_eq!(&record[8..14], &[2, 1, 4, 0, 0, 0]);
    let mut out = b"before|".to_vec();
    archive_format_fn::<VenueEvent>(&record, &mut out);
    assert_eq!(
        out,
        b"before|2024-01-15T14:30:45.123456789Z [KRAKEN OUTBOUND] \xffraw\n"
    );
}

#[test]
fn archive_tag_without_bytes() {
    let record = archive_record(0, Unit, b"");
    assert_eq!(record.len(), 12);
    let mut out = Vec::new();
    archive_format_fn::<Unit>(&record, &mut out);
    assert_eq!(out, b"1970-01-01T00:00:00.000000000Z [] \n");
}

#[test]
fn archive_records_travel_in_order() {
    let (producer, mut consumer) = record_ring::<ArchiveRecord<SimpleTag>>(1024);
    let mut handle = ArchiveHandle::new(producer);
    assert!(handle.write_at(1, SimpleTag("BINANCE"), b"one"));
    let mut other = handle.clone();
    assert!(other.write_at(2, SimpleTag("KRAKEN"), b"two"));

    let mut record = Vec::new();
    let mut out = Vec::new();
    assert!(next_archive_line(&mut consumer, &mut record, &mut out));
    assert!(next_archive_line(&mut consumer, &mut record, &mut out));
    assert!(!next_archive_line(&mut consumer, &mut record, &mut out));
    assert_eq!(
        String::from_utf8(out).unwrap(),
        "1970-01-01T00:00:00.000000001Z [BINANCE] one\n1970-01-01T00:00:00.000000002Z [KRAKEN] two\n"
    );
}

#[test]
fn archive_write_reads_the_clock() {
    let (producer, mut consumer) = record_ring::<ArchiveRecord<SimpleTag>>(1024);
    let mut handle = ArchiveHandle::new(producer);
    let before = snap_timestamp().unwrap();
    handle.write(SimpleTag("HEARTBEAT"), b"ping").unwrap();
    let after = snap_timestamp().unwrap();
    let mut record = vec![7; 40];
    assert!(consumer.take(&mut record));
    let ts = u64::from_le_bytes(record[..8].try_into().unwrap());
    assert!(before <= ts && ts <= after);
    assert_eq!(&record[8..], &[0, 4, 0, 0, 0, b'p', b'i', b'n', b'g']);
}

#[test]
fn archive_records_without_room_are_dropped() {
    let (producer, mut consumer) = record_ring::<ArchiveRecord<SimpleTag>>(64);
    let mut handle = ArchiveHandle::new(producer);
    assert!(!handle.write_at(1, SimpleTag("BINANCE"), &[0; 64]));
    assert_eq!(handle.write(SimpleTag("BINANCE"), &[0; 64]), Ok(()));
    let mut record = vec![7];
    assert!(!consumer.take(&mut record));
    assert_eq!(record, [7]);
}
