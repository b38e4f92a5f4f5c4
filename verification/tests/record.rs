use inqjet::bytes::{copy_at, get_le, push_le, put_le};
use inqjet::record::{
    check_payload_prefix, check_standard_payload, header_array, read_header, read_payload_prefix,
    read_standard_payload, standard_record_size, write_header, write_payload_prefix,
    write_standard_payload, RecordHeader, HEADER_SIZE,
};

#[test]
fn header_size_is_24() {
    assert_eq!(HEADER_SIZE, 24);
}

#[test]
fn header_round_trip() {
    let header = RecordHeader {
        timestamp_ns: 1_700_000_000_000_000_000,
        formatter: header_round_trip as fn() as usize as u64,
        level: 3,
        _pad: [0; 7],
    };
    let mut buf = [0u8; HEADER_SIZE];
    write_header(&mut buf, &header);
    let got = read_header(&buf);

    assert_eq!(got.timestamp_ns, header.timestamp_ns);
    assert_eq!(got.level, header.level);
    assert_eq!(got.formatter as usize, header.formatter as usize);
}

#[test]
fn payload_round_trip() {
    let mut buf = [0u8; 128];
    let n = write_standard_payload(&mut buf, 42, "my_app::db", "connection opened");
    let (line, target, message) = read_standard_payload(&buf[..n]);

    assert_eq!(line, 42);
    assert_eq!(target, "my_app::db");
    assert_eq!(message, "connection opened");
}

#[test]
fn payload_zero_line() {
    let mut buf = [0u8; 128];
    let n = write_standard_payload(&mut buf, 0, "app", "msg");
    let (line, target, message) = read_standard_payload(&buf[..n]);

    assert_eq!(line, 0);
    assert_eq!(target, "app");
    assert_eq!(message, "msg");
}

#[test]
fn standard_record_size_correct() {
    let target = "my_app::handler";
    let message = "request processed";
    let size = standard_record_size(target.len(), message.len());
    assert_eq!(size, HEADER_SIZE + 4 + 2 + target.len() + message.len());
}

#[test]
fn header_bytes_exact() {
    let header = RecordHeader {
        timestamp_ns: 0x0102_0304_0506_0708,
        formatter: 0x1112_1314_1516_1718,
        level: 5,
        _pad: [1, 2, 3, 4, 5, 6, 7],
    };
    let mut buf = [0xffu8; 26];
    write_header(&mut buf, &header);
    assert_eq!(
        buf,
        [
            8, 7, 6, 5, 4, 3, 2, 1, 0x18, 0x17, 0x16, 0x15, 0x14, 0x13, 0x12, 0x11, 5, 1, 2, 3, 4,
            5, 6, 7, 0xff, 0xff
        ]
    );
    assert_eq!(read_header(&buf)._pad, [1, 2, 3, 4, 5, 6, 7]);
    assert_eq!(header_array(&header), buf[..HEADER_SIZE]);
}

#[test]
fn payload_bytes_exact() {
    let mut buf = [9u8; 12];
    let n = write_standard_payload(&mut buf, 258, "t", "mä");
    assert_eq!(&buf[..n], &[2, 1, 0, 0, 1, 0, b't', b'm', 0xc3, 0xa4]);
    assert_eq!(&buf[n..], &[9, 9]);
}

#[test]
fn prefix_reads_back_before_other_bytes() {
    let mut buf = [0xffu8; 16];
    let n = write_payload_prefix(&mut buf, 7, "app");
    assert_eq!(n, 9);
    assert!(check_payload_prefix(&buf));
    assert_eq!(read_payload_prefix(&buf), (7, "app", 9));
}

#[test]
fn malformed_payloads_are_told_apart() {
    assert!(!check_payload_prefix(&[0, 0, 0, 0, 1]));
    assert!(!check_payload_prefix(&[0, 0, 0, 0, 2, 0, b'a']));
    assert!(!check_payload_prefix(&[0, 0, 0, 0, 1, 0, 0xff]));
    assert!(check_payload_prefix(&[0, 0, 0, 0, 1, 0, b'a', 0xff]));
    assert!(!check_standard_payload(&[0, 0, 0, 0, 1, 0, b'a', 0xff]));
    assert!(check_standard_payload(&[0, 0, 0, 0, 0, 0]));
}

#[test]
fn little_endian_round_trip() {
    let mut buf = [0u8; 10];
    put_le(&mut buf, 1, 0x0807_0605_0403_0201, 8);
    assert_eq!(buf, [0, 1, 2, 3, 4, 5, 6, 7, 8, 0]);
    assert_eq!(get_le(&buf, 1, 8), 0x0807_0605_0403_0201);
    put_le(&mut buf, 0, 0x1_ffff, 2);
    assert_eq!(get_le(&buf, 0, 2), 0xffff);
    let mut out = vec![9];
    push_le(&mut out, 513, 4);
    assert_eq!(out, [9, 1, 2, 0, 0]);
    copy_at(&mut buf, 8, b"zz");
    assert_eq!(&buf[8..], b"zz");
}
