use shmem_alloc::memory_handler::MemoryError;
use shmem_alloc::region::Region;

#[test]
fn new_region_is_zero_filled() {
    let r = Region::new(64);
    assert_eq!(r.len(), 64);
    assert_eq!(r.read_from_offset(0, 64).unwrap(), vec![0u8; 64]);
}

#[test]
fn write_then_read_back() {
    let mut r = Region::new(64);
    let data: Vec<u8> = (1u8..=16u8).collect();
    r.write_to_offset(8, &data).unwrap();
    assert_eq!(r.read_from_offset(8, 16).unwrap(), data);
    // Bytes around the written range are untouched.
    assert_eq!(r.read_from_offset(0, 8).unwrap(), vec![0u8; 8]);
    assert_eq!(r.read_from_offset(24, 40).unwrap(), vec![0u8; 40]);
}

#[test]
fn out_of_bounds_write_fails_and_changes_nothing() {
    // Length 64, record size 16: offset 64 - 16 + 1 = 49 is one byte too far.
    let mut r = Region::new(64);
    let before = r.read_from_offset(0, 64).unwrap();
    assert_eq!(
        r.write_to_offset(49, &vec![7u8; 16]),
        Err(MemoryError::WriteFailed)
    );
    assert_eq!(r.read_from_offset(0, 64).unwrap(), before);
    // A read of the same range reports nothing present.
    assert!(r.read_from_offset(49, 16).is_none());
}

#[test]
fn last_full_record_range_is_in_bounds() {
    let mut r = Region::new(64);
    assert_eq!(r.write_to_offset(48, &vec![5u8; 16]), Ok(()));
    assert_eq!(r.read_from_offset(48, 16).unwrap(), vec![5u8; 16]);
}

#[test]
fn reads_past_the_end_report_nothing() {
    let r = Region::new(64);
    assert!(r.read_from_offset(0, 65).is_none());
    assert!(r.read_from_offset(65, 0).is_none());
    assert!(r.read_from_offset(usize::MAX, 1).is_none());
    // An empty range at the very end still lies within the span.
    assert_eq!(r.read_from_offset(64, 0).unwrap(), Vec::<u8>::new());
}
