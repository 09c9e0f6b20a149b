use shmem_alloc::memory_handler::{MemoryError, MemoryHandler};

fn record(fill: u8) -> Vec<u8> {
    vec![fill; 16]
}

#[test]
fn partition_gives_four_slots_of_sixteen() {
    // Region length 64, record size 16: 4 slots at offsets 0, 16, 32, 48.
    let mut h = MemoryHandler::new(64, 16);
    h.create_memory().unwrap();
    assert_eq!(h.write(record(1)), Ok(0));
    assert_eq!(h.write(record(2)), Ok(16));
    assert_eq!(h.write(record(3)), Ok(32));
    assert_eq!(h.write(record(4)), Ok(48));
    assert_eq!(h.write(record(5)), Err(MemoryError::NoSpaceLeft));
}

#[test]
fn allocate_release_round_trip() {
    let mut h = MemoryHandler::new(64, 16);
    h.create_memory().unwrap();
    let v: Vec<u8> = (0u8..16u8).collect();
    let off = h.write(v.clone()).unwrap();
    let back = h.read(off).unwrap();
    assert_eq!(back, v);
    // The slot is free again: the next allocation reuses it.
    assert_eq!(h.write(record(9)), Ok(off));
}

#[test]
fn exhaustion_leaves_stored_records_untouched() {
    let mut h = MemoryHandler::new(64, 16);
    h.create_memory().unwrap();
    for fill in 0u8..4u8 {
        h.write(record(fill)).unwrap();
    }
    // One allocation past capacity fails and writes nothing.
    assert_eq!(h.write(record(77)), Err(MemoryError::NoSpaceLeft));
    for slot in 0usize..4usize {
        let back = h.read(slot * 16).unwrap();
        assert_eq!(back, record(slot as u8));
    }
}

#[test]
fn first_fit_takes_lowest_free_offset() {
    let mut h = MemoryHandler::new(64, 16);
    h.create_memory().unwrap();
    for fill in 0u8..4u8 {
        h.write(record(fill)).unwrap();
    }
    // Slots become [occupied, free, occupied, free] ...
    h.read(16).unwrap();
    h.read(48).unwrap();
    // ... and the next allocation lands in slot 1, not slot 3.
    assert_eq!(h.write(record(8)), Ok(16));
}

#[test]
fn freed_lowest_slot_is_reused_first() {
    // Allocate A and B, release A: C must land at offset 0, not 32.
    let mut h = MemoryHandler::new(64, 16);
    h.create_memory().unwrap();
    assert_eq!(h.write(record(b'A')), Ok(0));
    assert_eq!(h.write(record(b'B')), Ok(16));
    assert_eq!(h.read(0).unwrap(), record(b'A'));
    assert_eq!(h.write(record(b'C')), Ok(0));
}

#[test]
fn record_of_wrong_size_is_rejected() {
    let mut h = MemoryHandler::new(64, 16);
    h.create_memory().unwrap();
    assert_eq!(h.write(vec![1u8; 5]), Err(MemoryError::WriteFailed));
    assert_eq!(h.write(vec![1u8; 17]), Err(MemoryError::WriteFailed));
    // Nothing was allocated by the failed calls.
    assert_eq!(h.write(record(1)), Ok(0));
}

#[test]
fn release_of_unknown_or_free_offset_fails() {
    let mut h = MemoryHandler::new(64, 16);
    h.create_memory().unwrap();
    // No slot starts at 7.
    assert_eq!(h.read(7), Err(MemoryError::InvalidOffset));
    // Slot 0 exists but is free.
    assert_eq!(h.read(0), Err(MemoryError::InvalidOffset));
    // Releasing twice is strict: the second call fails.
    let off = h.write(record(3)).unwrap();
    h.read(off).unwrap();
    assert_eq!(h.read(off), Err(MemoryError::InvalidOffset));
}

#[test]
fn reinitializing_resets_the_table() {
    let mut h = MemoryHandler::new(64, 16);
    h.create_memory().unwrap();
    for fill in 0u8..4u8 {
        h.write(record(fill)).unwrap();
    }
    assert_eq!(h.write(record(9)), Err(MemoryError::NoSpaceLeft));
    // A second create_memory rebuilds the table with every slot free.
    h.create_memory().unwrap();
    assert_eq!(h.write(record(9)), Ok(0));
}

#[test]
fn region_smaller_than_a_record_has_no_slots() {
    let mut h = MemoryHandler::new(10, 16);
    h.create_memory().unwrap();
    assert_eq!(h.write(record(1)), Err(MemoryError::NoSpaceLeft));
}

#[test]
fn trailing_remainder_bytes_are_not_a_slot() {
    // 40 / 16 = 2 slots; the last 8 bytes are never handed out.
    let mut h = MemoryHandler::new(40, 16);
    h.create_memory().unwrap();
    assert_eq!(h.write(record(1)), Ok(0));
    assert_eq!(h.write(record(2)), Ok(16));
    assert_eq!(h.write(record(3)), Err(MemoryError::NoSpaceLeft));
}
