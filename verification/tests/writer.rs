use inqjet::writer::LogWriter;

#[test]
fn test_basic_write() {
    let mut buf = [0u8; 8];
    let mut writer = LogWriter::new(&mut buf);

    writer.write(b"Hi");
    let len = writer.finish();

    // First 2 bytes = length (2)
    assert_eq!(buf[0], 2);
    assert_eq!(buf[1], 0);
    // Next 2 bytes = "Hi"
    assert_eq!(&buf[2..4], b"Hi");
    assert_eq!(len, 4); // 2 + 2
}

#[test]
fn test_exact_fit() {
    let mut buf = [0u8; 8];
    let mut writer = LogWriter::new(&mut buf);

    // 6 bytes of data fits exactly (8 - 2 for length)
    writer.write("123456".as_bytes());
    let len = writer.finish();

    assert_eq!(buf[0], 6);
    assert_eq!(buf[1], 0);
    assert_eq!(&buf[2..8], b"123456");
    assert_eq!(len, 8);
}

#[test]
fn test_truncation() {
    let mut buf = [0u8; 8];
    let mut writer = LogWriter::new(&mut buf);

    // Try to write 10 bytes - should truncate to 6
    writer.write("1234567890".as_bytes());
    let len = writer.finish();

    assert_eq!(buf[0], 6);
    assert_eq!(buf[1], 0);
    assert_eq!(&buf[2..8], b"123456");
    assert_eq!(len, 8);
}

#[test]
fn test_truncation_with_marker() {
    let mut buf = [0u8; 8];
    let mut writer = LogWriter::new(&mut buf);

    writer.write("1234567890".as_bytes());
    let len = writer.finish_with_truncation_marker();

    // Should truncate and add "..."
    assert_eq!(buf[0], 6);
    assert_eq!(buf[1], 0);
    assert_eq!(&buf[2..5], b"123");
    assert_eq!(&buf[5..8], b"...");
    assert_eq!(len, 8);
}

#[test]
fn test_multiple_writes() {
    let mut buf = [0u8; 8];
    let mut writer = LogWriter::new(&mut buf);

    writer.write(b"AB");
    writer.write(b"CD");
    writer.write(b"EF");
    let len = writer.finish();

    assert_eq!(buf[0], 6);
    assert_eq!(buf[1], 0);
    assert_eq!(&buf[2..8], b"ABCDEF");
    assert_eq!(len, 8);
}

#[test]
fn test_empty_write() {
    let mut buf = [0u8; 8];
    let writer = LogWriter::new(&mut buf);

    let len = writer.finish();

    assert_eq!(buf[0], 0);
    assert_eq!(buf[1], 0);
    assert_eq!(len, 2);
}

#[test]
fn test_tiny_buffer() {
    let mut buf = [0u8; 4];
    let mut writer = LogWriter::new(&mut buf);

    writer.write("Hello".as_bytes());
    let len = writer.finish();

    // Can only fit 2 bytes after length prefix
    assert_eq!(buf[0], 2);
    assert_eq!(buf[1], 0);
    assert_eq!(&buf[2..4], b"He");
    assert_eq!(len, 4);
}

#[test]
fn test_format_args() {
    let mut buf = [0u8; 8];
    let mut writer = LogWriter::new(&mut buf);

    let x = 42;
    writer.write(format!("x={}", x).as_bytes());
    let len = writer.finish();

    assert_eq!(buf[0], 4);
    assert_eq!(buf[1], 0);
    assert_eq!(&buf[2..6], b"x=42");
    assert_eq!(len, 6);
}

#[test]
fn write_reports_the_whole_length() {
    let mut buf = [0u8; 4];
    let mut writer = LogWriter::new(&mut buf);
    assert_eq!(writer.write(b"longer"), 6);
    assert_eq!(writer.write(b"more"), 4);
    assert_eq!(writer.pos, 4);
}

#[test]
fn pieces_leave_what_the_whole_leaves() {
    let mut one = [0u8; 7];
    let mut two = [0u8; 7];
    let mut writer = LogWriter::new(&mut one);
    writer.write(b"abcdefg");
    writer.finish();
    let mut writer = LogWriter::new(&mut two);
    writer.write(b"abc");
    writer.write(b"defg");
    writer.finish();
    assert_eq!(one, two);
}

#[test]
fn no_marker_where_the_message_fits_or_has_no_room() {
    let mut buf = [0u8; 8];
    let mut writer = LogWriter::new(&mut buf);
    writer.write(b"12345");
    assert_eq!(writer.finish_with_truncation_marker(), 7);
    assert_eq!(&buf[2..7], b"12345");
    let mut tiny = [0u8; 4];
    let mut writer = LogWriter::new(&mut tiny);
    writer.write(b"123");
    assert_eq!(writer.finish_with_truncation_marker(), 4);
    assert_eq!(tiny, [2, 0, b'1', b'2']);
}

#[test]
fn long_messages_store_the_lower_half_of_their_length() {
    let mut buf = vec![0u8; 65_536 + 10];
    let data = vec![b'x'; 65_540];
    let mut writer = LogWriter::new(&mut buf);
    writer.write(&data);
    assert_eq!(writer.finish(), 65_542);
    assert_eq!(&buf[..2], &[4, 0]);
}
