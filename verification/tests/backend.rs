use virting_ublk_drbd_demo::backend::{check_range, checksum_bytes, RangeError, FNV_OFFSET};
use virting_ublk_drbd_demo::{mib, DEFAULT_BLOCK_SIZE};

#[test]
fn fnv1a_known_values() {
    assert_eq!(checksum_bytes(FNV_OFFSET, b""), 0xcbf29ce484222325);
    assert_eq!(checksum_bytes(FNV_OFFSET, b"a"), 0xaf63dc4c8601ec8c);
    assert_eq!(checksum_bytes(FNV_OFFSET, b"foobar"), 0x85944171f73967e8);
}

#[test]
fn checksum_in_chunks_matches_whole() {
    let data: Vec<u8> = (0..5000u32).map(|i| (i * 7 % 251) as u8).collect();
    let whole = checksum_bytes(FNV_OFFSET, &data);
    let mut state = FNV_OFFSET;
    for chunk in data.chunks(1024) {
        state = checksum_bytes(state, chunk);
    }
    assert_eq!(state, whole);
}

#[test]
fn range_checks() {
    assert_eq!(check_range(100, 0, 100), Ok(()));
    assert_eq!(check_range(100, 100, 0), Ok(()));
    assert_eq!(
        check_range(100, 50, 51),
        Err(RangeError::OutOfRange {
            offset: 50,
            end: 101,
            size: 100
        })
    );
    assert_eq!(check_range(100, u64::MAX, 1), Err(RangeError::Overflow));
}

#[test]
fn mib_and_default_block_size() {
    assert_eq!(mib(8), 8 * 1024 * 1024);
    assert_eq!(mib(0), 0);
    assert_eq!(DEFAULT_BLOCK_SIZE, 4096);
}
