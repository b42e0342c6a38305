use touchhle::mem::{Access, Mem, MemError, Owner, Permissions};

#[test]
fn allocate_free_allocate_does_not_overlap_live_regions() {
    let mut mem = Mem::new(64);
    let a = mem.allocate(8, 4).unwrap();
    let b = mem.allocate(8, 4).unwrap();
    let c = mem.allocate(8, 4).unwrap();
    assert_eq!((a, b, c), (4, 12, 20));
    assert_eq!(mem.free(b), Ok(()));
    let d = mem.allocate(8, 4).unwrap();
    assert_eq!(d, 12);
    for &(x, y) in &[(a, c), (a, d), (c, d)] {
        assert!(x + 8 <= y || y + 8 <= x);
    }
}

#[test]
fn allocation_skips_address_zero_and_aligns() {
    let mut mem = Mem::new(64);
    assert_eq!(mem.allocate(3, 1), Ok(1));
    assert_eq!(mem.allocate(4, 16), Ok(16));
    assert_eq!(mem.allocate(0, 0), Ok(4));
    assert_eq!(mem.region_at(4).unwrap().len, 1);
}

#[test]
fn allocation_fails_when_space_is_exhausted() {
    let mut mem = Mem::new(16);
    assert_eq!(mem.allocate(15, 1), Ok(1));
    assert_eq!(mem.allocate(1, 1), Err(MemError::OutOfMemory));
    assert_eq!(mem.free(1), Ok(()));
    assert_eq!(mem.allocate(16, 1), Err(MemError::OutOfMemory));
}

#[test]
fn free_of_a_non_base_address_is_invalid() {
    let mut mem = Mem::new(32);
    let a = mem.allocate(8, 4).unwrap();
    assert_eq!(mem.free(a + 1), Err(MemError::InvalidFree));
    assert_eq!(mem.free(0), Err(MemError::InvalidFree));
    assert_eq!(mem.free(a), Ok(()));
    assert_eq!(mem.free(a), Err(MemError::InvalidFree));
}

#[test]
fn word_access_is_bounds_and_alignment_checked() {
    let mut mem = Mem::new(32);
    let a = mem.allocate(8, 4).unwrap();
    assert_eq!(mem.write_u32(a, 0x1234_5678), Ok(()));
    assert_eq!(mem.read_u32(a), Ok(0x1234_5678));
    assert_eq!(mem.read_u8(a), Ok(0x78));
    assert_eq!(mem.read_u8(a + 3), Ok(0x12));
    assert_eq!(mem.read_u32(a + 1), Err(MemError::Misaligned));
    assert_eq!(mem.read_u32(a + 6), Err(MemError::OutOfBounds));
    assert_eq!(mem.read_u32(a + 8), Err(MemError::OutOfBounds));
    assert_eq!(mem.write_u32(a + 8, 1), Err(MemError::OutOfBounds));
    assert_eq!(mem.write_u32(a + 2, 1), Err(MemError::Misaligned));
    assert_eq!(mem.read_u32(0), Err(MemError::OutOfBounds));
    assert_eq!(mem.read_u32(a + 4), Ok(0));
}

#[test]
fn byte_ranges_round_trip() {
    let mut mem = Mem::new(32);
    let a = mem.allocate(8, 1).unwrap();
    assert_eq!(mem.write_bytes(a + 1, &[1, 2, 3]), Ok(()));
    assert_eq!(mem.read_bytes(a, 5), Ok(vec![0, 1, 2, 3, 0]));
    assert_eq!(mem.write_bytes(a + 6, &[1, 2, 3]), Err(MemError::OutOfBounds));
    assert_eq!(mem.read_bytes(a, 9), Err(MemError::OutOfBounds));
    assert_eq!(mem.write_u8(a, 9), Ok(()));
    assert_eq!(mem.read_u8(a), Ok(9));
    assert_eq!(mem.write_u8(a + 8, 9), Err(MemError::OutOfBounds));
}

#[test]
fn regions_are_mapped_at_fixed_addresses() {
    let mut mem = Mem::new(0x100);
    let rx = Permissions { read: true, write: false, execute: true };
    assert_eq!(mem.map_region(0x40, 0x20, rx, Owner::Loader), Ok(()));
    assert_eq!(mem.map_region(0x50, 0x20, rx, Owner::Loader), Err(MemError::OutOfMemory));
    assert_eq!(mem.map_region(0x30, 0x11, rx, Owner::Loader), Err(MemError::OutOfMemory));
    assert_eq!(mem.map_region(0, 4, rx, Owner::Loader), Err(MemError::OutOfBounds));
    assert_eq!(mem.map_region(0xf0, 0x11, rx, Owner::Stack), Err(MemError::OutOfBounds));
    assert_eq!(mem.map_region(0x10, 0, rx, Owner::Stack), Err(MemError::OutOfBounds));
    assert_eq!(mem.map_region(0xf0, 0x10, rx, Owner::Stack), Ok(()));
    let found = mem.region_at(0x5f).unwrap();
    assert_eq!((found.base, found.len, found.owner), (0x40, 0x20, Owner::Loader));
    assert!(mem.region_at(0x60).is_none());
    assert_eq!(mem.allocate(0x30, 0x10), Ok(0x10));
    assert_eq!(mem.allocate(0x30, 0x10), Ok(0x60));
    assert_eq!(mem.size(), 0x100);
}

#[test]
fn guest_accesses_are_checked_against_permissions() {
    let mut mem = Mem::new(0x100);
    let rx = Permissions { read: true, write: false, execute: true };
    assert_eq!(mem.map_region(0x40, 0x20, rx, Owner::Loader), Ok(()));
    let heap = mem.allocate(8, 4).unwrap();
    assert_eq!(mem.check_access(0x40, 4, Access::Read), Ok(()));
    assert_eq!(mem.check_access(0x5c, 4, Access::Execute), Ok(()));
    assert_eq!(mem.check_access(0x40, 4, Access::Write), Err(MemError::OutOfBounds));
    assert_eq!(mem.check_access(0x5d, 4, Access::Read), Err(MemError::OutOfBounds));
    assert_eq!(mem.check_access(heap, 8, Access::Write), Ok(()));
    assert_eq!(mem.check_access(heap, 8, Access::Execute), Err(MemError::OutOfBounds));
    assert_eq!(mem.check_access(0, 1, Access::Read), Err(MemError::OutOfBounds));
}

#[test]
fn a_new_memory_is_zero_and_has_no_region() {
    let mem = Mem::new(8);
    assert_eq!(mem.size(), 8);
    for addr in 0..8 {
        assert!(mem.region_at(addr).is_none());
        assert_eq!(mem.read_u8(addr), Err(MemError::OutOfBounds));
    }
    let mut mem = Mem::new(8);
    assert_eq!(mem.allocate(7, 1), Ok(1));
    assert_eq!(mem.read_bytes(1, 7), Ok(vec![0; 7]));
    let empty = Mem::new(0);
    assert_eq!(empty.size(), 0);
}
