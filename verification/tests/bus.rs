//! Tests of the storage blocks and the memory-mapped bus.

use tinyavr::memory::{Memory, MemoryMap};

#[test]
fn mapped_write_then_read() {
    let mut mm = MemoryMap::new();
    mm.add(0x0100, Memory::new(16, 0x00));
    for a in 0x0100u16..0x0110u16 {
        mm.write(a, 0x5A);
        assert_eq!(mm.read(a), (0x5A, true));
    }
}

#[test]
fn read_only_region_unchanged() {
    let mut mm = MemoryMap::new();
    let rom = Memory::new_rom(vec![0x11, 0x22, 0x33], 0x00);
    mm.add(0x0200, rom);
    mm.write(0x0201, 0xFF);
    assert_eq!(mm.read(0x0201), (0x22, true));
}

#[test]
fn unmapped_read_returns_bus_default() {
    let mut mm = MemoryMap::new();
    mm.add(0x0100, Memory::new(16, 0x7E));
    assert_eq!(mm.read(0x00FF), (0x00, false));
    assert_eq!(mm.read(0x0110), (0x00, false));
    // a write to an unmapped address has no observable effect
    mm.write(0x0110, 0xAA);
    assert_eq!(mm.read(0x0110), (0x00, false));
    assert_eq!(mm.read(0x0100), (0x7E, true));
}

#[test]
fn block_read_outside_returns_fill() {
    let m = Memory::new(4, 0xEE);
    assert_eq!(m.read(3), (0xEE, true));
    assert_eq!(m.read(4), (0xEE, false));
}

#[test]
fn overlap_resolution_is_registration_order() {
    let mut mm = MemoryMap::new();
    let mut first = Memory::new(4, 0x00);
    let mut second = Memory::new(8, 0x00);
    // distinct contents so the winner is observable
    first.write(0, 0xAA);
    second.write(2, 0xBB);
    mm.add(0x0010, first);
    mm.add(0x000E, second); // overlaps [0x0010, 0x0014)
    assert!(mm.has_mapping_conflict());
    // inside the overlap the earlier registration wins
    assert_eq!(mm.read(0x0010), (0xAA, true));
}

#[test]
fn disjoint_regions_have_no_conflict() {
    let mut mm = MemoryMap::new();
    mm.add(0x0000, Memory::new(4, 0x00));
    mm.add(0x0004, Memory::new(4, 0x00));
    assert!(!mm.has_mapping_conflict());
}
