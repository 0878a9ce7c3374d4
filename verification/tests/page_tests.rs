use simpledb::file::page::{Date, Page, PageError};

#[test]
fn test_from() {
    assert_eq!(Page::from(vec![1]), Page { bb: vec![1] });
    assert_eq!(Page::from(&[1u8]), Page { bb: vec![1] });
    assert_eq!(Page::from([1u8]), Page { bb: vec![1] });
    assert_eq!(Page::from_iter([1u8].into_iter()), Page { bb: vec![1] });
}

#[test]
fn with_capacity_zero_filled() {
    let p = Page::with_capacity(16);
    assert_eq!(p.contents(), vec![0u8; 16]);
}

#[test]
fn unsigned_roundtrips() {
    let mut p = Page::with_capacity(32);
    assert_eq!(p.set_u8(0, 0xAB).unwrap(), 1);
    assert_eq!(p.get_u8(0).unwrap(), 0xAB);
    assert_eq!(p.set_u16(1, 0xBEEF).unwrap(), 3);
    assert_eq!(p.get_u16(1).unwrap(), 0xBEEF);
    assert_eq!(p.set_u32(3, 0xDEAD_BEEF).unwrap(), 7);
    assert_eq!(p.get_u32(3).unwrap(), 0xDEAD_BEEF);
    assert_eq!(p.set_u64(7, 0x0123_4567_89AB_CDEF).unwrap(), 15);
    assert_eq!(p.get_u64(7).unwrap(), 0x0123_4567_89AB_CDEF);
    // The same offsets hold the same values after unrelated writes elsewhere.
    assert_eq!(p.set_u8(20, 7).unwrap(), 21);
    assert_eq!(p.get_u16(1).unwrap(), 0xBEEF);
}

#[test]
fn signed_roundtrips() {
    let mut p = Page::with_capacity(32);
    assert_eq!(p.set_i8(0, -1).unwrap(), 1);
    assert_eq!(p.get_i8(0).unwrap(), -1);
    assert_eq!(p.set_i16(1, -12345).unwrap(), 3);
    assert_eq!(p.get_i16(1).unwrap(), -12345);
    assert_eq!(p.set_i32(3, -7).unwrap(), 7);
    assert_eq!(p.get_i32(3).unwrap(), -7);
    assert_eq!(p.set_i64(7, i64::MIN).unwrap(), 15);
    assert_eq!(p.get_i64(7).unwrap(), i64::MIN);
    assert_eq!(p.set_i32(16, i32::MAX).unwrap(), 20);
    assert_eq!(p.get_i32(16).unwrap(), i32::MAX);
}

#[test]
fn big_endian_layout() {
    // The wire format is fixed: big-endian, most significant byte first.
    let mut p = Page::with_capacity(4);
    p.set_u32(0, 0x0102_0304).unwrap();
    assert_eq!(p.contents(), vec![1u8, 2, 3, 4]);
    // A negative value is stored as its two's complement.
    p.set_i32(0, -1).unwrap();
    assert_eq!(p.contents(), vec![0xFFu8, 0xFF, 0xFF, 0xFF]);
}

#[test]
fn out_of_bounds_fails_and_leaves_buffer() {
    let mut p = Page::with_capacity(8);
    p.set_u32(0, 0xAABB_CCDD).unwrap();
    let before = p.contents();
    assert_eq!(p.set_u32(5, 1), Err(PageError::BufferSizeExceeded));
    assert_eq!(p.set_u64(1, 1), Err(PageError::BufferSizeExceeded));
    assert_eq!(p.set_i16(7, 1), Err(PageError::BufferSizeExceeded));
    assert_eq!(p.set_bytes(0, &[0u8; 5]), Err(PageError::BufferSizeExceeded));
    assert_eq!(p.set_string(6, String::from("abc")), Err(PageError::BufferSizeExceeded));
    assert_eq!(p.set_bool(8, true), Err(PageError::BufferSizeExceeded));
    assert_eq!(p.get_u32(5), Err(PageError::BufferSizeExceeded));
    assert_eq!(p.get_u64(1), Err(PageError::BufferSizeExceeded));
    assert_eq!(p.get_date(5), Err(PageError::BufferSizeExceeded));
    assert_eq!(p.contents(), before);
}

#[test]
fn i32_scenario_on_small_page() {
    let mut p = Page::with_capacity(8);
    p.set_i32(0, -7).unwrap();
    assert_eq!(p.get_i32(0).unwrap(), -7);
    assert_eq!(p.get_i32(5), Err(PageError::BufferSizeExceeded));
}

#[test]
fn bool_roundtrip() {
    let mut p = Page::with_capacity(2);
    assert_eq!(p.set_bool(0, true).unwrap(), 1);
    assert_eq!(p.set_bool(1, false).unwrap(), 2);
    assert_eq!(p.get_bool(0).unwrap(), true);
    assert_eq!(p.get_bool(1).unwrap(), false);
    // Any nonzero byte reads back as true.
    p.set_u8(1, 42).unwrap();
    assert_eq!(p.get_bool(1).unwrap(), true);
}

#[test]
fn bytes_roundtrip() {
    let mut p = Page::with_capacity(16);
    let b = [5u8, 4, 3, 2, 1];
    let next = p.set_bytes(0, &b).unwrap();
    assert_eq!(next, 9);
    assert_eq!(p.get_bytes(0).unwrap(), &b);
    // An empty byte string round-trips too.
    let next = p.set_bytes(9, &[]).unwrap();
    assert_eq!(next, 13);
    assert_eq!(p.get_bytes(9).unwrap(), &[] as &[u8]);
}

#[test]
fn bytes_payload_must_fit() {
    let mut p = Page::with_capacity(8);
    // 4 bytes of length prefix plus 5 of payload exceed the 8-byte buffer.
    assert_eq!(p.set_bytes(0, &[0u8; 5]), Err(PageError::BufferSizeExceeded));
    assert_eq!(p.set_bytes(0, &[0u8; 4]).unwrap(), 8);
}

#[test]
fn get_bytes_rejects_negative_length() {
    let mut p = Page::with_capacity(8);
    p.set_i32(0, -1).unwrap();
    assert_eq!(p.get_bytes(0), Err(PageError::BufferSizeExceeded));
}

#[test]
fn string_roundtrip() {
    let mut p = Page::with_capacity(64);
    let next = p.set_string(0, String::from("abcdefghijklm")).unwrap();
    assert_eq!(next, 17);
    assert_eq!(p.get_string(0).unwrap(), "abcdefghijklm");
    // Multi-byte UTF-8 text survives unchanged.
    let next = p.set_string(17, String::from("snow\u{2603}man")).unwrap();
    assert_eq!(p.get_string(17).unwrap(), "snow\u{2603}man");
    assert_eq!(next, 17 + 4 + 10);
}

#[test]
fn string_rejects_invalid_utf8() {
    let mut p = Page::with_capacity(16);
    p.set_bytes(0, &[0xFF, 0xFE]).unwrap();
    assert_eq!(p.get_string(0), Err(PageError::InvalidUtf8));
}

#[test]
fn date_roundtrip() {
    let mut p = Page::with_capacity(8);
    let d = Date { year: 2024, month: 5, day: 17 };
    assert_eq!(p.set_date(0, d).unwrap(), 4);
    assert_eq!(p.get_date(0).unwrap(), d);
    // The packed layout: year in the high 16 bits, month, then day.
    assert_eq!(p.get_u32(0).unwrap(), (2024 << 16) + (5 << 8) + 17);
}

#[test]
fn max_length_counts_prefix() {
    assert_eq!(Page::max_length(0), 4);
    assert_eq!(Page::max_length(13), 17);
}

#[test]
fn sequential_packing() {
    // Every setter returns the offset just past its field, so heterogeneous
    // fields pack without recomputing offsets.
    let mut p = Page::with_capacity(64);
    let off = p.set_i32(0, 99).unwrap();
    let off = p.set_string(off, String::from("title")).unwrap();
    let off = p.set_bool(off, true).unwrap();
    let end = p.set_u16(off, 500).unwrap();
    assert_eq!(end, 4 + (4 + 5) + 1 + 2);
    assert_eq!(p.get_i32(0).unwrap(), 99);
    assert_eq!(p.get_string(4).unwrap(), "title");
    assert_eq!(p.get_bool(13).unwrap(), true);
    assert_eq!(p.get_u16(14).unwrap(), 500);
}

#[test]
fn default_page_is_empty() {
    let p = Page::default();
    assert_eq!(p.contents(), Vec::<u8>::new());
    assert_eq!(p.get_u8(0), Err(PageError::BufferSizeExceeded));
}

#[test]
fn page_error_messages() {
    assert_eq!(PageError::BufferSizeExceeded.message(), "buffer size exceeded");
    assert_eq!(PageError::InvalidUtf8.message(), "invalid utf-8");
}
