use py_spy::layout::python_3_3_layout;
use py_spy::memory::{MemoryImage, ReadError};
use py_spy::strings::{decode_string, decode_units, encode_units};

fn text(s: &str) -> Vec<u32> {
    s.chars().map(|c| c as u32).collect()
}

fn put(buf: &mut Vec<u8>, off: usize, v: u64, width: usize) {
    for k in 0..width {
        buf[off + k] = (v >> (8 * k)) as u8;
    }
}

fn header(len: i64, state: u8) -> Vec<u8> {
    let mut b = vec![0u8; 80];
    put(&mut b, 16, len as u64, 8);
    b[32] = state;
    b
}

#[test]
fn units_round_trip_each_width() {
    let t = vec![0x41, 0xe9, 0x7f];
    assert_eq!(decode_units(&encode_units(&t, 1), 1), t);
    let t = vec![0x41, 0x3b1, 0xffff];
    assert_eq!(decode_units(&encode_units(&t, 2), 2), t);
    let t = vec![0x41, 0x1f600, 0x10ffff];
    assert_eq!(decode_units(&encode_units(&t, 4), 4), t);
}

#[test]
fn encode_is_little_endian() {
    assert_eq!(encode_units(&vec![0x1234], 2), vec![0x34, 0x12]);
    assert_eq!(encode_units(&vec![0x10ffff], 4), vec![0xff, 0xff, 0x10, 0]);
    assert_eq!(decode_units(&vec![1, 2, 3], 2), vec![0x0201]);
}

#[test]
fn compact_ascii_string() {
    let mut b = header(5, 0b1110_0100);
    b.truncate(48);
    b.extend_from_slice(b"hello");
    let mut m = MemoryImage::new();
    m.map_region(0x1000, b);
    let l = python_3_3_layout();
    assert_eq!(decode_string(&m, &l, 0x1000), Ok(text("hello")));
}

#[test]
fn compact_two_byte_string() {
    let mut b = header(2, 0b1010_1000);
    b.truncate(72);
    b.extend_from_slice(&encode_units(&text("αβ"), 2));
    let mut m = MemoryImage::new();
    m.map_region(0x2000, b);
    let l = python_3_3_layout();
    assert_eq!(decode_string(&m, &l, 0x2000), Ok(text("αβ")));
}

#[test]
fn legacy_four_byte_string_through_pointer() {
    let mut b = header(2, 0b1001_0000);
    put(&mut b, 72, 0x9000, 8);
    let mut m = MemoryImage::new();
    m.map_region(0x3000, b);
    m.map_region(0x9000, encode_units(&text("😀x"), 4));
    let l = python_3_3_layout();
    assert_eq!(decode_string(&m, &l, 0x3000), Ok(text("😀x")));
}

#[test]
fn not_ready_string_read_from_wide_buffer() {
    let mut b = header(3, 0);
    put(&mut b, 40, 0x9100, 8);
    let mut m = MemoryImage::new();
    m.map_region(0x3100, b);
    m.map_region(0x9100, encode_units(&text("abc"), 4));
    let l = python_3_3_layout();
    assert_eq!(decode_string(&m, &l, 0x3100), Ok(text("abc")));
}

#[test]
fn string_errors() {
    let l = python_3_3_layout();
    let mut m = MemoryImage::new();
    m.map_region(0x1000, header(-1, 0b1110_0100));
    m.map_region(0x2000, header(1, 0b0000_1100));
    let mut short = header(10, 0b1110_0100);
    short.truncate(52);
    m.map_region(0x3000, short);
    assert_eq!(decode_string(&m, &l, 0x1000), Err(ReadError::OutOfRange));
    assert_eq!(decode_string(&m, &l, 0x2000), Err(ReadError::OutOfRange));
    assert_eq!(decode_string(&m, &l, 0x3000), Err(ReadError::OutOfRange));
    assert_eq!(decode_string(&m, &l, 0x5000), Err(ReadError::Unmapped));
}

#[test]
fn not_ready_string_prefers_cached_utf8() {
    let s = "héllo✓😀";
    let mut b = header(s.chars().count() as i64, 0);
    put(&mut b, 48, s.len() as u64, 8);
    put(&mut b, 56, 0x9200, 8);
    let mut m = MemoryImage::new();
    m.map_region(0x3200, b);
    m.map_region(0x9200, s.as_bytes().to_vec());
    let l = python_3_3_layout();
    assert_eq!(decode_string(&m, &l, 0x3200), Ok(text(s)));
}

#[test]
fn malformed_cached_utf8_is_out_of_range() {
    let mut b = header(1, 0);
    put(&mut b, 48, 2, 8);
    put(&mut b, 56, 0x9300, 8);
    let mut m = MemoryImage::new();
    m.map_region(0x3300, b);
    m.map_region(0x9300, vec![0xc0, 0x80]);
    let l = python_3_3_layout();
    assert_eq!(decode_string(&m, &l, 0x3300), Err(ReadError::OutOfRange));
}

#[test]
fn empty_string_not_ready_needs_no_read() {
    // length zero, state byte zero (not ready, kind zero), null wide buffer
    let mut m = MemoryImage::new();
    m.map_region(0x3400, header(0, 0));
    let l = python_3_3_layout();
    assert_eq!(decode_string(&m, &l, 0x3400), Ok(vec![]));
    let mut m = MemoryImage::new();
    let mut b = header(0, 0b1010_1000);
    b.truncate(72);
    m.map_region(0x3500, b);
    assert_eq!(decode_string(&m, &l, 0x3500), Ok(vec![]));
}

#[test]
fn long_strings_have_no_cap() {
    let n = 65_537usize;
    let l = python_3_3_layout();
    let mut m = MemoryImage::new();
    let mut b = header(n as i64, 0b1110_0100);
    b.truncate(48);
    b.extend(std::iter::repeat(b'a').take(n));
    m.map_region(0x10_0000, b);
    let t = decode_string(&m, &l, 0x10_0000).unwrap();
    assert_eq!(t.len(), n);
    assert!(t.iter().all(|&c| c == 0x61));
    let wide: Vec<u32> = (0..n as u32).map(|i| 0x1000 + (i % 0xd000)).collect();
    let mut b = header(n as i64, 0b1010_1000);
    b.truncate(72);
    b.extend_from_slice(&encode_units(&wide, 2));
    m.map_region(0x100_0000, b);
    assert_eq!(decode_string(&m, &l, 0x100_0000), Ok(wide));
}

#[test]
fn empty_not_ready_string_with_nothing_past_header() {
    let mut b = header(0, 0);
    b.truncate(48);
    let mut m = MemoryImage::new();
    m.map_region(0x3600, b);
    let l = python_3_3_layout();
    assert_eq!(decode_string(&m, &l, 0x3600), Ok(vec![]));
}

#[test]
fn unreadable_cache_pointer_falls_back_to_wide_buffer() {
    let mut b = header(2, 0);
    put(&mut b, 40, 0x9400, 8);
    b.truncate(48);
    let mut m = MemoryImage::new();
    m.map_region(0x3700, b);
    m.map_region(0x9400, encode_units(&text("ok"), 4));
    let l = python_3_3_layout();
    assert_eq!(decode_string(&m, &l, 0x3700), Ok(text("ok")));
}
