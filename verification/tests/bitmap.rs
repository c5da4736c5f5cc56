use virting_ublk_drbd_demo::bitmap::{div_ceil, BitmapError, DirtyBitmap};

#[test]
fn range_marks_cover_partial_blocks() {
    let mut bm = DirtyBitmap::new(4096, 16 * 4096);
    bm.mark_range(4095, 2);
    assert_eq!(bm.dirty_blocks(), vec![0, 1]);
    bm.clear_range(4096, 4096);
    assert_eq!(bm.dirty_blocks(), vec![0]);
}

#[test]
fn new_bitmap_is_clean() {
    let bm = DirtyBitmap::new(4096, 10 * 4096 + 1);
    assert_eq!(bm.block_size(), 4096);
    assert_eq!(bm.block_count(), 11);
    assert_eq!(bm.dirty_count(), 0);
    assert!(bm.dirty_blocks().is_empty());
}

#[test]
fn empty_range_marks_nothing() {
    let mut bm = DirtyBitmap::new(512, 4096);
    bm.mark_range(100, 0);
    assert_eq!(bm.dirty_count(), 0);
}

#[test]
fn range_past_the_device_end_stops_at_last_block() {
    let mut bm = DirtyBitmap::new(4096, 4 * 4096);
    bm.mark_range(3 * 4096, 10 * 4096);
    assert_eq!(bm.dirty_blocks(), vec![3]);
    assert_eq!(bm.dirty_count(), 1);
}

#[test]
fn mark_all_leaves_tail_bits_clear() {
    let mut bm = DirtyBitmap::new(1, 70);
    bm.mark_all();
    assert_eq!(bm.dirty_count(), 70);
    assert_eq!(bm.dirty_blocks(), (0..70).collect::<Vec<u64>>());
    let bytes = bm.to_bytes();
    // second word holds only the bits of blocks 64..70
    assert_eq!(&bytes[40..48], &[0, 0, 0, 0, 0, 0, 0, 0x3f]);
    assert_eq!(&bytes[32..40], &[0xff; 8]);
}

#[test]
fn mark_all_on_whole_words() {
    let mut bm = DirtyBitmap::new(4096, 128 * 4096);
    bm.mark_all();
    assert_eq!(bm.dirty_count(), 128);
    bm.clear_range(0, 128 * 4096);
    assert_eq!(bm.dirty_count(), 0);
}

#[test]
fn clearing_a_marked_range_leaves_it_clean() {
    let mut bm = DirtyBitmap::new(4096, 64 * 4096);
    bm.mark_range(0, 4096);
    bm.mark_range(8192, 100);
    bm.clear_range(8192, 100);
    assert_eq!(bm.dirty_blocks(), vec![0]);
}

#[test]
fn saved_form_reads_back() {
    let mut bm = DirtyBitmap::new(4096, 100 * 4096);
    bm.mark_range(5 * 4096, 3 * 4096);
    bm.mark_range(99 * 4096, 1);
    let bytes = bm.to_bytes();
    assert_eq!(&bytes[0..8], b"VRBDBM1!");
    assert_eq!(&bytes[8..16], &4096u64.to_be_bytes());
    assert_eq!(&bytes[16..24], &100u64.to_be_bytes());
    assert_eq!(&bytes[24..32], &2u64.to_be_bytes());
    assert_eq!(bytes.len(), 32 + 16);
    let back = DirtyBitmap::from_bytes(&bytes, 4096, 100 * 4096).unwrap();
    assert_eq!(back.dirty_blocks(), vec![5, 6, 7, 99]);
    assert_eq!(back.to_bytes(), bytes);
}

#[test]
fn saved_form_errors() {
    let bm = DirtyBitmap::new(4096, 100 * 4096);
    let bytes = bm.to_bytes();
    assert_eq!(
        DirtyBitmap::from_bytes(&bytes[..31], 4096, 100 * 4096).err(),
        Some(BitmapError::Truncated)
    );
    assert_eq!(
        DirtyBitmap::from_bytes(&bytes[..40], 4096, 100 * 4096).err(),
        Some(BitmapError::Truncated)
    );
    let mut bad = bytes.clone();
    bad[7] = b'?';
    assert_eq!(
        DirtyBitmap::from_bytes(&bad, 4096, 100 * 4096).err(),
        Some(BitmapError::BadMagic)
    );
    assert_eq!(
        DirtyBitmap::from_bytes(&bytes, 512, 100 * 4096).err(),
        Some(BitmapError::GeometryMismatch)
    );
    assert_eq!(
        DirtyBitmap::from_bytes(&bytes, 4096, 200 * 4096).err(),
        Some(BitmapError::GeometryMismatch)
    );
}

#[test]
fn loaded_tail_bits_count_but_are_not_blocks() {
    let bm = DirtyBitmap::new(1, 3);
    let mut bytes = bm.to_bytes();
    bytes[39] = 0b1001;
    let back = DirtyBitmap::from_bytes(&bytes, 1, 3).unwrap();
    assert_eq!(back.dirty_blocks(), vec![0]);
    assert_eq!(back.dirty_count(), 2);
}

#[test]
fn div_ceil_rounds_up() {
    assert_eq!(div_ceil(0, 4096), 0);
    assert_eq!(div_ceil(1, 4096), 1);
    assert_eq!(div_ceil(4096, 4096), 1);
    assert_eq!(div_ceil(4097, 4096), 2);
    assert_eq!(div_ceil(u64::MAX, 2), 1u64 << 63);
}
