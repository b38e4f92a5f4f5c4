use inqjet::placeholder::FormatTrait;
use inqjet::pod::{
    hot_payload_size, pod_from_bytes, ArgCursor, HotArg, HotDecode, HotEncode, Pod, PreFormatted,
    PreFormattedValue,
};
use inqjet::record::{read_payload_prefix, write_payload_prefix};
use inqjet::stash::{
    bytes_from_buf, check_text, fallback_stash_clear, fallback_stash_encode,
    reserve_fallback_capacity, FallbackStash,
};
use std::cell::Cell;
use std::fmt::Write;

/// A float as plain data, by its bits.
#[derive(Clone, Copy, Debug, PartialEq)]
struct Float64(f64);

impl Pod for Float64 {
    fn pod_size() -> usize {
        u64::pod_size()
    }
    fn put_image(&self, buf: &mut [u8]) {
        self.0.to_bits().put_image(buf)
    }
    fn take_image(bytes: &[u8]) -> Option<Self> {
        u64::take_image(bytes).map(|b| Float64(f64::from_bits(b)))
    }
}

/// A float as plain data, by its bits.
#[derive(Clone, Copy, Debug, PartialEq)]
struct Float32(f32);

impl Pod for Float32 {
    fn pod_size() -> usize {
        u32::pod_size()
    }
    fn put_image(&self, buf: &mut [u8]) {
        self.0.to_bits().put_image(buf)
    }
    fn take_image(bytes: &[u8]) -> Option<Self> {
        u32::take_image(bytes).map(|b| Float32(f32::from_bits(b)))
    }
}

#[derive(Clone, Debug, PartialEq)]
struct OrderInfo {
    id: u64,
    price: f64,
    qty: i64,
}

impl Pod for OrderInfo {
    fn pod_size() -> usize {
        24
    }
    fn put_image(&self, buf: &mut [u8]) {
        self.id.put_image(&mut buf[0..8]);
        Float64(self.price).put_image(&mut buf[8..16]);
        self.qty.put_image(&mut buf[16..24]);
    }
    fn take_image(bytes: &[u8]) -> Option<Self> {
        if bytes.len() < 24 {
            return None;
        }
        Some(OrderInfo {
            id: u64::take_image(&bytes[0..8])?,
            price: Float64::take_image(&bytes[8..16])?.0,
            qty: i64::take_image(&bytes[16..24])?,
        })
    }
}

// -- POD dispatch ------------------------------------------------------------

#[test]
fn pod_u64() {
    let mut stash = FallbackStash::new();
    let val: u64 = 42;
    let size = HotArg(&val).hot_size();
    assert_eq!(size, 8);

    let mut buf = [0u8; 8];
    HotArg(&val).hot_encode(&mut stash, &mut buf);
    assert_eq!(u64::from_ne_bytes(buf), 42);
}

#[test]
fn pod_f64() {
    let mut stash = FallbackStash::new();
    let val = Float64(3.14);
    let size = HotArg(&val).hot_size();
    assert_eq!(size, 8);

    let mut buf = [0u8; 8];
    HotArg(&val).hot_encode(&mut stash, &mut buf);
    let decoded = f64::from_ne_bytes(buf);
    assert!((decoded - 3.14).abs() < f64::EPSILON);
}

#[test]
fn pod_bool() {
    let mut stash = FallbackStash::new();
    let val = true;
    assert_eq!(HotArg(&val).hot_size(), 1);

    let mut buf = [0u8; 1];
    HotArg(&val).hot_encode(&mut stash, &mut buf);
    assert_eq!(buf[0], 1);
}

#[test]
fn pod_user_struct() {
    let mut stash = FallbackStash::new();
    let order = OrderInfo {
        id: 12345,
        price: 99.95,
        qty: -100,
    };
    let size = HotArg(&order).hot_size();
    assert_eq!(size, std::mem::size_of::<OrderInfo>());

    let mut buf = vec![0u8; size];
    HotArg(&order).hot_encode(&mut stash, &mut buf);

    let decoded: OrderInfo = pod_from_bytes(&buf);
    assert_eq!(decoded, order);
}

fn test_primitive<T: Pod + PartialEq + std::fmt::Debug>(val: T) {
    let mut stash = FallbackStash::new();
    let size = HotArg(&val).hot_size();
    assert_eq!(size, std::mem::size_of::<T>());

    let mut buf = vec![0u8; size];
    HotArg(&val).hot_encode(&mut stash, &mut buf);

    let decoded: T = pod_from_bytes(&buf);
    assert_eq!(decoded, val);
}

#[test]
fn pod_round_trip_all_primitives() {
    test_primitive::<u8>(255);
    test_primitive::<u16>(65535);
    test_primitive::<u32>(42);
    test_primitive::<u64>(u64::MAX);
    test_primitive::<u128>(u128::MAX);
    test_primitive::<i8>(-1);
    test_primitive::<i16>(-100);
    test_primitive::<i32>(i32::MIN);
    test_primitive::<i64>(-999);
    test_primitive::<i128>(i128::MIN);
    test_primitive::<Float32>(Float32(1.5));
    test_primitive::<Float64>(Float64(std::f64::consts::PI));
    test_primitive::<bool>(false);
}

#[test]
fn pod_images_are_those_of_memory() {
    let mut buf = [0u8; 16];
    (-2i16).put_image(&mut buf);
    assert_eq!(&buf[..2], &(-2i16).to_le_bytes());
    i64::MIN.put_image(&mut buf);
    assert_eq!(&buf[..8], &i64::MIN.to_le_bytes());
    (-12345678901234567890i128).put_image(&mut buf);
    assert_eq!(buf, (-12345678901234567890i128).to_le_bytes());
    i8::MAX.put_image(&mut buf);
    assert_eq!(buf[0], 127);
    assert_eq!(i8::take_image(&[0x80]), Some(-128));
    assert_eq!(i32::take_image(&[0xff, 0xff, 0xff, 0x7f]), Some(i32::MAX));
}

#[test]
fn images_that_are_none() {
    assert_eq!(u32::take_image(&[1, 2, 3]), None);
    assert_eq!(bool::take_image(&[2]), None);
    assert_eq!(bool::take_image(&[]), None);
    assert_eq!(bool::take_image(&[1]), Some(true));
    assert!(!<i128 as HotDecode>::hot_check(&[0; 15]));
}

// -- Stash-based dispatch (String, &str, everything else) ----------------------

#[test]
fn stash_string() {
    let mut stash = FallbackStash::new();
    fallback_stash_clear(&mut stash);
    let val = String::from("hello world");
    let size = (&HotArg(&val)).hot_size_with(&mut stash, |stash: &mut String| {
        stash.push_str(&format!("{}", val));
    });
    assert_eq!(size, 4 + 11);

    let mut buf = vec![0u8; size];
    (&HotArg(&val)).hot_encode(&mut stash, &mut buf);

    let (content, consumed) = bytes_from_buf(&buf);
    assert_eq!(content, "hello world");
    assert_eq!(consumed, 15);
}

#[test]
fn stash_str_ref() {
    let mut stash = FallbackStash::new();
    fallback_stash_clear(&mut stash);
    let val: &str = "hello";
    let size = (&HotArg(&val)).hot_size_with(&mut stash, |stash: &mut String| {
        stash.push_str(&format!("{}", val));
    });
    assert_eq!(size, 4 + 5);

    let mut buf = vec![0u8; size];
    (&HotArg(&val)).hot_encode(&mut stash, &mut buf);

    let (content, consumed) = bytes_from_buf(&buf);
    assert_eq!(content, "hello");
    assert_eq!(consumed, 9);
}

#[test]
fn stash_empty_string() {
    let mut stash = FallbackStash::new();
    fallback_stash_clear(&mut stash);
    let val = String::new();
    let size = (&HotArg(&val)).hot_size_with(&mut stash, |stash: &mut String| {
        stash.push_str(&format!("{}", val));
    });
    assert_eq!(size, 4); // just the length prefix

    let mut buf = vec![0u8; size];
    (&HotArg(&val)).hot_encode(&mut stash, &mut buf);

    let (content, consumed) = bytes_from_buf(&buf);
    assert_eq!(content, "");
    assert_eq!(consumed, 4);
}

#[test]
fn stash_vec() {
    let mut stash = FallbackStash::new();
    fallback_stash_clear(&mut stash);
    let val = vec![1, 2, 3];
    let size = (&HotArg(&val)).hot_size_with(&mut stash, |stash: &mut String| {
        stash.push_str(&format!("{:?}", val));
    });
    assert_eq!(size, 4 + 9); // "[1, 2, 3]" is 9 bytes

    let mut buf = vec![0u8; size];
    (&HotArg(&val)).hot_encode(&mut stash, &mut buf);

    let (content, consumed) = bytes_from_buf(&buf);
    assert_eq!(content, "[1, 2, 3]");
    assert_eq!(consumed, 13);
}

#[test]
fn stash_multiple_args() {
    let mut stash = FallbackStash::new();
    fallback_stash_clear(&mut stash);
    let a = vec![1, 2];
    let b = String::from("test");

    let sa = (&HotArg(&a)).hot_size_with(&mut stash, |stash: &mut String| {
        stash.push_str(&format!("{:?}", a));
    });
    let sb = (&HotArg(&b)).hot_size_with(&mut stash, |stash: &mut String| {
        stash.push_str(&format!("{}", b));
    });

    let mut buf_a = vec![0u8; sa];
    (&HotArg(&a)).hot_encode(&mut stash, &mut buf_a);
    let (content_a, _) = bytes_from_buf(&buf_a);
    assert_eq!(content_a, "[1, 2]");

    let mut buf_b = vec![0u8; sb];
    (&HotArg(&b)).hot_encode(&mut stash, &mut buf_b);
    let (content_b, _) = bytes_from_buf(&buf_b);
    assert_eq!(content_b, "test");
}

#[test]
fn formatters_find_an_empty_string() {
    let mut stash = FallbackStash::new();
    for (i, text) in ["longer text", "", "short"].iter().enumerate() {
        let size = stash.push_with(|s: &mut String| {
            assert_eq!(s, "");
            s.push_str(text);
        });
        assert_eq!(size, 4 + text.len());
        if i == 1 {
            reserve_fallback_capacity(&mut stash, 100);
        }
    }
    for text in ["longer text", "", "short"] {
        let mut buf = vec![0u8; 4 + text.len()];
        fallback_stash_encode(&mut stash, &mut buf);
        assert_eq!(bytes_from_buf(&buf), (text, buf.len()));
    }
}

// -- Mixed dispatch (as a macro expands) ---------------------------------------

#[test]
fn mixed_pod_and_stash() {
    let mut stash = FallbackStash::new();
    fallback_stash_clear(&mut stash);
    let order_id: u64 = 42;
    let price = Float64(123.45);
    let name = String::from("BTC-USD");

    // POD args use inherent hot_size, stash args use hot_size_with
    let s0 = HotArg(&order_id).hot_size();
    let s1 = HotArg(&price).hot_size();
    let s2 = (&HotArg(&name)).hot_size_with(&mut stash, |stash: &mut String| {
        stash.push_str(&format!("{}", name));
    });
    let total = s0 + s1 + s2;
    assert_eq!(total, 8 + 8 + (4 + 7));

    let mut buf = vec![0u8; total];
    let mut offset = 0;

    HotArg(&order_id).hot_encode(&mut stash, &mut buf[offset..]);
    offset += s0;

    HotArg(&price).hot_encode(&mut stash, &mut buf[offset..]);
    offset += s1;

    (&HotArg(&name)).hot_encode(&mut stash, &mut buf[offset..]);

    // Decode
    let decoded_id: u64 = pod_from_bytes(&buf[0..8]);
    assert_eq!(decoded_id, 42);

    let decoded_price: Float64 = pod_from_bytes(&buf[8..16]);
    assert!((decoded_price.0 - 123.45).abs() < f64::EPSILON);

    let (decoded_name, _) = bytes_from_buf(&buf[16..]);
    assert_eq!(decoded_name, "BTC-USD");
}

#[test]
fn mixed_pod_and_str() {
    let mut stash = FallbackStash::new();
    fallback_stash_clear(&mut stash);
    let seq: u32 = 7;
    let symbol: &str = "ETH";

    let s0 = HotArg(&seq).hot_size();
    let s1 = (&HotArg(&symbol)).hot_size_with(&mut stash, |stash: &mut String| {
        stash.push_str(&format!("{}", symbol));
    });
    let total = s0 + s1;
    assert_eq!(total, 4 + (4 + 3));

    let mut buf = vec![0u8; total];
    HotArg(&seq).hot_encode(&mut stash, &mut buf[0..]);
    (&HotArg(&symbol)).hot_encode(&mut stash, &mut buf[4..]);

    let decoded_seq: u32 = pod_from_bytes(&buf[0..4]);
    assert_eq!(decoded_seq, 7);

    let (decoded_sym, _) = bytes_from_buf(&buf[4..]);
    assert_eq!(decoded_sym, "ETH");
}

#[test]
fn cursor_places_and_reads_arguments() {
    let mut stash = FallbackStash::new();
    let (id, name): (u64, &str) = (42, "BTC");
    let s0 = HotArg(&id).hot_size();
    let s1 = (&HotArg(&name)).hot_size_with(&mut stash, |s: &mut String| s.push_str(name));
    let mut buf = vec![9u8; 2 + s0 + s1 + 1];

    let mut cursor = ArgCursor::new(2);
    assert!(cursor.fits(buf.len(), s0 + s1));
    HotArg(&id).hot_encode(&mut stash, cursor.slot(&mut buf, s0));
    (&HotArg(&name)).hot_encode(&mut stash, cursor.slot(&mut buf, s1));
    assert!(cursor.fits(buf.len(), 1) && !cursor.fits(buf.len(), 2));
    assert!(!cursor.fits(buf.len(), usize::MAX));
    let expected = [
        9, 9, 42, 0, 0, 0, 0, 0, 0, 0, 3, 0, 0, 0, b'B', b'T', b'C', 9,
    ];
    assert_eq!(buf, expected);

    let mut cursor = ArgCursor::new(2);
    assert_eq!(cursor.decode::<u64>(&buf), Some(42));
    assert_eq!(cursor.decode::<PreFormatted>(&buf).unwrap().0, "BTC");
    // One byte is left.
    assert_eq!(cursor.decode::<u64>(&buf), None);
    assert_eq!(cursor.decode::<u8>(&buf), Some(9));
    assert_eq!(cursor.decode::<u8>(&buf), None);
    cursor.step(1);
    assert_eq!(cursor.decode::<u8>(&buf), None);
}

#[test]
fn reservations_that_memory_cannot_hold() {
    let mut stash = FallbackStash::new();
    assert!(stash.can_reserve(isize::MAX as usize));
    assert!(!stash.can_reserve(isize::MAX as usize + 1));
    stash.push("kept");
    assert!(stash.can_reserve(isize::MAX as usize - 8));
    assert!(!stash.can_reserve(isize::MAX as usize - 7));
}

#[test]
fn pod_hot_size_with_ignores_closure() {
    let mut stash = FallbackStash::new();
    let val: u64 = 42;
    let called = Cell::new(false);
    let size = HotArg(&val).hot_size_with(&mut stash, |_: &mut String| {
        called.set(true);
    });
    assert_eq!(size, 8);
    assert!(!called.get(), "closure should not be called for POD");
}

#[test]
fn preformatted_value_passthrough() {
    let pf = PreFormattedValue("hello".into());
    for (spec, format_trait) in [
        ("{}", FormatTrait::Display),
        ("{:?}", FormatTrait::Debug),
        ("{:x}", FormatTrait::LowerHex),
    ] {
        assert_eq!(pf.passthrough(format_trait), "hello", "{}", spec);
    }
}

#[test]
fn reserve_capacity_doesnt_panic() {
    let mut stash = FallbackStash::new();
    reserve_fallback_capacity(&mut stash, 4096);
}

#[test]
fn reserving_keeps_what_is_stashed() {
    let mut stash = FallbackStash::new();
    assert_eq!(stash.push("kept"), 8);
    reserve_fallback_capacity(&mut stash, 1024);
    let mut buf = [0u8; 8];
    fallback_stash_encode(&mut stash, &mut buf);
    assert_eq!(&buf, &[4, 0, 0, 0, b'k', b'e', b'p', b't']);
}

#[test]
fn clearing_starts_over() {
    let mut stash = FallbackStash::new();
    stash.push("old");
    let mut buf = [0u8; 16];
    fallback_stash_encode(&mut stash, &mut buf);
    fallback_stash_clear(&mut stash);
    stash.push("new");
    fallback_stash_encode(&mut stash, &mut buf);
    assert_eq!(bytes_from_buf(&buf), ("new", 7));
}

#[test]
fn malformed_text_is_told_apart() {
    assert!(!check_text(&[1, 0, 0]));
    assert!(!check_text(&[2, 0, 0, 0, b'a']));
    assert!(!check_text(&[1, 0, 0, 0, 0xff]));
    assert!(check_text(&[1, 0, 0, 0, b'a', 0xff]));
}

#[test]
fn decoding_gives_back_what_was_encoded() {
    let mut stash = FallbackStash::new();
    stash.push("pre");
    let mut buf = [0xffu8; 16];
    fallback_stash_encode(&mut stash, &mut buf);
    assert!(PreFormatted::hot_check(&buf));
    let (v, n) = PreFormatted::hot_decode(&buf);
    assert_eq!((v.0.as_str(), n), ("pre", 7));
    let (s, n) = <String as HotDecode>::hot_decode(&buf);
    assert_eq!((s.as_str(), n), ("pre", 7));
    (-5i32).put_image(&mut buf);
    assert_eq!(<i32 as HotDecode>::hot_decode(&buf), (-5, 4));
}

#[test]
fn arguments_of_a_record_stand_one_behind_the_other() {
    let mut stash = FallbackStash::new();
    let (a, b, c) = (7u16, String::from("mid"), true);
    let sizes = [
        (&HotArg(&a)).hot_size_with(&mut stash, |_: &mut String| {}),
        (&HotArg(&b)).hot_size_with(&mut stash, |s: &mut String| {
            s.write_str(&b).unwrap();
        }),
        (&HotArg(&c)).hot_size_with(&mut stash, |_: &mut String| {}),
    ];
    assert_eq!(sizes, [2, 7, 1]);
    let size = hot_payload_size("app".len(), &sizes);
    assert_eq!(size, 4 + 2 + 3 + 10);

    let mut buf = vec![0u8; size];
    let mut off = write_payload_prefix(&mut buf, 3, "app");
    (&HotArg(&a)).hot_encode(&mut stash, &mut buf[off..]);
    off += sizes[0];
    (&HotArg(&b)).hot_encode(&mut stash, &mut buf[off..]);
    off += sizes[1];
    (&HotArg(&c)).hot_encode(&mut stash, &mut buf[off..]);

    let (line, target, mut off) = read_payload_prefix(&buf);
    assert_eq!((line, target), (3, "app"));
    let (x, n) = <u16 as HotDecode>::hot_decode(&buf[off..]);
    off += n;
    let (y, n) = PreFormatted::hot_decode(&buf[off..]);
    off += n;
    let (z, n) = <bool as HotDecode>::hot_decode(&buf[off..]);
    assert_eq!((x, y.0.as_str(), z, off + n), (7, "mid", true, size));
}
