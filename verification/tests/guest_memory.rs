//! Tests of the linear-memory model: bounds-checked reads and writes, the
//! little-endian scalar out-parameter encoding, and the refusal of any
//! region that does not lie inside the memory.

use storage_bridge::memory::GuestMem;

#[test]
fn fresh_memory_is_zeroed() {
    let mem = GuestMem::new(16);
    assert_eq!(mem.size(), 16);
    assert_eq!(mem.read_bytes(0, 16).unwrap(), vec![0u8; 16]);
}

#[test]
fn write_then_read_region() {
    let mut mem = GuestMem::new(32);
    assert!(mem.write_bytes(5, &vec![1u8, 2, 3]));
    assert_eq!(mem.read_bytes(5, 3).unwrap(), vec![1u8, 2, 3]);
    // Neighbouring bytes stay zero.
    assert_eq!(mem.read_bytes(4, 1).unwrap(), vec![0u8]);
    assert_eq!(mem.read_bytes(8, 1).unwrap(), vec![0u8]);
}

#[test]
fn out_of_range_regions_are_refused() {
    let mut mem = GuestMem::new(8);
    assert!(mem.read_bytes(7, 2).is_none());
    assert!(mem.read_bytes(9, 0).is_none());
    assert!(!mem.write_bytes(6, &vec![1u8, 2, 3]));
    // A refused write leaves the memory untouched.
    assert_eq!(mem.read_bytes(0, 8).unwrap(), vec![0u8; 8]);
    assert!(!mem.write_u32_le(5, 7));
    assert!(mem.read_u32_le(5).is_none());
    assert!(mem.check_region(4, 4));
    assert!(!mem.check_region(5, 4));
}

#[test]
fn scalar_out_parameter_is_little_endian() {
    let mut mem = GuestMem::new(8);
    assert!(mem.write_u32_le(2, 0x01020304));
    assert_eq!(mem.read_bytes(2, 4).unwrap(), vec![0x04u8, 0x03, 0x02, 0x01]);
    assert_eq!(mem.read_u32_le(2), Some(0x01020304));
    assert!(mem.write_u32_le(0, 16));
    assert_eq!(mem.read_bytes(0, 4).unwrap(), vec![16u8, 0, 0, 0]);
}

#[test]
fn empty_region_at_the_edge() {
    let mem = GuestMem::new(4);
    // A zero-length region at the very end is still inside.
    assert!(mem.check_region(4, 0));
    assert_eq!(mem.read_bytes(4, 0).unwrap(), Vec::<u8>::new());
}
