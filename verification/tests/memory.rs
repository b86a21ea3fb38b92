use devices::memory::{GuestMemory, OutOfBounds};

#[test]
fn new_memory_is_zeroed() {
    let mem = GuestMemory::new(64);
    assert_eq!(mem.size(), 64);
    assert_eq!(mem.read_at(0, 64), Ok(vec![0u8; 64]));
}

#[test]
fn from_bytes_keeps_the_bytes() {
    let mem = GuestMemory::from_bytes(vec![1, 2, 3, 4]);
    assert_eq!(mem.size(), 4);
    assert_eq!(mem.read_at(1, 2), Ok(vec![2, 3]));
    assert_eq!(mem.read_at(0, 4), Ok(vec![1, 2, 3, 4]));
}

#[test]
fn write_then_read() {
    let mut mem = GuestMemory::new(16);
    assert_eq!(mem.write_at(4, &[9, 8, 7]), Ok(()));
    assert_eq!(mem.read_at(0, 16), Ok(vec![0, 0, 0, 0, 9, 8, 7, 0, 0, 0, 0, 0, 0, 0, 0, 0]));
    assert_eq!(mem.write_at(13, &[1, 2, 3]), Ok(()));
    assert_eq!(mem.read_at(12, 4), Ok(vec![0, 1, 2, 3]));
}

#[test]
fn out_of_bounds_accesses_fail_and_store_nothing() {
    let mut mem = GuestMemory::new(16);
    assert_eq!(mem.read_at(16, 1), Err(OutOfBounds));
    assert_eq!(mem.read_at(15, 2), Err(OutOfBounds));
    assert_eq!(mem.read_at(u64::MAX, 1), Err(OutOfBounds));
    assert_eq!(mem.read_at(u64::MAX, usize::MAX), Err(OutOfBounds));
    assert_eq!(mem.read_at(0, 17), Err(OutOfBounds));
    assert_eq!(mem.write_at(14, &[1, 2, 3]), Err(OutOfBounds));
    assert_eq!(mem.write_at(u64::MAX, &[1]), Err(OutOfBounds));
    assert_eq!(mem.read_at(0, 16), Ok(vec![0u8; 16]));
    assert_eq!(mem.read_u16(15), Err(OutOfBounds));
    assert_eq!(mem.write_u16(15, 1), Err(OutOfBounds));
    assert_eq!(mem.read_at(0, 16), Ok(vec![0u8; 16]));
}

#[test]
fn empty_accesses_at_the_edges() {
    let mut mem = GuestMemory::new(16);
    assert_eq!(mem.read_at(16, 0), Ok(vec![]));
    assert_eq!(mem.read_at(17, 0), Err(OutOfBounds));
    assert_eq!(mem.write_at(16, &[]), Ok(()));
    assert!(mem.holds(0, 16));
    assert!(mem.holds(16, 0));
    assert!(!mem.holds(1, 16));
    assert!(!mem.holds(u64::MAX, u64::MAX));
}

#[test]
fn sixteen_bit_values_are_little_endian() {
    let mut mem = GuestMemory::new(8);
    assert_eq!(mem.write_u16(2, 0x1234), Ok(()));
    assert_eq!(mem.read_at(2, 2), Ok(vec![0x34, 0x12]));
    assert_eq!(mem.read_u16(2), Ok(0x1234));
    assert_eq!(mem.write_at(6, &[0xff, 0x01]), Ok(()));
    assert_eq!(mem.read_u16(6), Ok(0x01ff));
    assert_eq!(mem.write_u16(0, 0xffff), Ok(()));
    assert_eq!(mem.read_u16(0), Ok(0xffff));
    assert_eq!(mem.read_u16(1), Ok(0x34ff));
}

#[test]
fn empty_memory() {
    let mut mem = GuestMemory::new(0);
    assert_eq!(mem.size(), 0);
    assert_eq!(mem.read_at(0, 0), Ok(vec![]));
    assert_eq!(mem.read_at(0, 1), Err(OutOfBounds));
    assert_eq!(mem.write_at(0, &[1]), Err(OutOfBounds));
}
