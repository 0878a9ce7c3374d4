use simpledb::file::file_ops::{block_offset, blocks_in, fill_page, is_temp_name};
use simpledb::file::page::Page;

#[test]
fn temp_names_are_recognized() {
    assert!(is_temp_name("tempXYZ"));
    assert!(is_temp_name("temp"));
    assert!(!is_temp_name("students.tbl"));
    assert!(!is_temp_name("tem"));
    assert!(!is_temp_name(""));
    assert!(!is_temp_name("Temporary"));
}

#[test]
fn block_offsets_scale_by_blocksize() {
    assert_eq!(block_offset(0, 400), Some(0));
    assert_eq!(block_offset(1, 400), Some(400));
    assert_eq!(block_offset(7, 400), Some(2800));
    // The product of two 31-bit counts still fits the 64-bit offset.
    assert_eq!(block_offset(i32::MAX, i32::MAX), Some(4611686014132420609));
    assert_eq!(block_offset(-1, 400), None);
    assert_eq!(block_offset(3, -400), None);
}

#[test]
fn blocks_in_rounds_up() {
    assert_eq!(blocks_in(0, 400), Some(0));
    assert_eq!(blocks_in(1, 400), Some(1));
    assert_eq!(blocks_in(400, 400), Some(1));
    assert_eq!(blocks_in(401, 400), Some(2));
    assert_eq!(blocks_in(800, 400), Some(2));
    assert_eq!(blocks_in(100, 0), None);
    assert_eq!(blocks_in(100, -5), None);
    assert_eq!(blocks_in(u64::MAX, 1), None);
}

#[test]
fn fill_page_zero_fills_shortfall() {
    // A read that returned fewer bytes than a block leaves the rest zero,
    // exactly as a block at or past end-of-file reads back all-zero.
    let mut p = Page::from(vec![9u8; 6]);
    assert!(fill_page(&mut p, &[1, 2, 3]));
    assert_eq!(p.contents(), vec![1, 2, 3, 0, 0, 0]);
    let mut q = Page::from(vec![9u8; 4]);
    assert!(fill_page(&mut q, &[]));
    assert_eq!(q.contents(), vec![0, 0, 0, 0]);
    // More data than the page holds is refused and changes nothing.
    let mut r = Page::from(vec![9u8; 2]);
    assert!(!fill_page(&mut r, &[1, 2, 3]));
    assert_eq!(r.contents(), vec![9, 9]);
}
