use libmmu::architecture::generic::{ConfigError, MemoryRegion, MemoryRegionType, MemorySpace};
use libmmu::memory::{AccessError, PhysicalMemoryAccessor};

fn region(start_address: u64, end_address: u64) -> MemoryRegion {
    MemoryRegion {
        region_type: MemoryRegionType::RAM,
        start_address,
        end_address,
    }
}

fn space_of(regions: &[MemoryRegion]) -> MemorySpace {
    let mut space = MemorySpace::new();
    for region in regions {
        space.add(*region).unwrap();
    }
    space
}

#[test]
fn region_new_refuses_empty_and_inverted_ranges() {
    assert_eq!(
        MemoryRegion::new(MemoryRegionType::ROM, 4, 9),
        Ok(MemoryRegion {
            region_type: MemoryRegionType::ROM,
            start_address: 4,
            end_address: 9,
        })
    );
    assert_eq!(
        MemoryRegion::new(MemoryRegionType::RAM, 9, 9),
        Err(ConfigError::InvalidRange)
    );
    assert_eq!(
        MemoryRegion::new(MemoryRegionType::RAM, 10, 9),
        Err(ConfigError::InvalidRange)
    );
    assert_eq!(
        MemoryRegion::new(MemoryRegionType::RAM, u64::MAX, 0),
        Err(ConfigError::InvalidRange)
    );
}

#[test]
fn region_contains_its_start_and_not_its_end() {
    for (start, end) in [(0, 1), (7, 4096), (u64::MAX - 1, u64::MAX), (0, u64::MAX)] {
        let region = MemoryRegion::new(MemoryRegionType::RAM, start, end).unwrap();
        assert!(region.contains(region.start_address));
        assert!(!region.contains(region.end_address));
        assert!(region.contains(region.end_address - 1));
        assert_eq!(region.size(), end - start);
    }
    assert!(!region(5, 10).contains(4));
    assert_eq!(MemoryRegionType::default(), MemoryRegionType::RAM);
}

#[test]
fn overlap_is_symmetric_and_adjacency_is_not_overlap() {
    let a = region(0, 10);
    let b = region(10, 20);
    let c = region(5, 15);
    let d = region(2, 3);
    assert!(!a.is_overlapping(&b) && !b.is_overlapping(&a));
    assert!(a.is_adjacent(&b) && b.is_adjacent(&a));
    assert!(a.is_overlapping(&c) && c.is_overlapping(&a));
    assert!(b.is_overlapping(&c) && c.is_overlapping(&b));
    assert!(a.is_overlapping(&d) && d.is_overlapping(&a));
    assert!(!a.is_adjacent(&c));
    assert!(a.is_overlapping(&a));
    assert!(!region(0, 5).is_adjacent(&region(6, 9)));
}

#[test]
fn add_appends_in_order_of_insertion() {
    let mut space = MemorySpace::new();
    assert!(space.regions.is_empty());
    space.add(region(100, 200)).unwrap();
    space.add(region(0, 100)).unwrap();
    space.add(region(200, 300)).unwrap();
    assert_eq!(
        space.regions,
        vec![region(100, 200), region(0, 100), region(200, 300)]
    );
}

#[test]
fn add_of_overlapping_region_fails_and_changes_nothing() {
    let mut space = space_of(&[region(0, 100), region(200, 300)]);
    let before = space.clone();
    for candidate in [
        region(50, 60),
        region(99, 200),
        region(0, 1),
        region(250, 1000),
        region(0, u64::MAX),
        region(299, 300),
    ] {
        assert_eq!(space.add(candidate).err(), Some(ConfigError::Overlap));
        assert_eq!(space, before);
        assert_eq!(space.regions.len(), 2);
    }
    assert!(space.add(region(100, 200)).is_ok());
    assert_eq!(space.regions.len(), 3);
}

#[test]
fn read_finds_bytes_by_summing_the_regions_before() {
    // The dump holds 16 bytes of the first region, 8 of the second and 4 of the third.
    let space = space_of(&[region(0x1000, 0x1010), region(0x10, 0x18), region(0x2000, 0x2004)]);
    let dump: Vec<u8> = (0u8..28).collect();
    let memory = PhysicalMemoryAccessor::new(&space, &dump);
    assert_eq!(memory.read(0x1000, 4), Ok(&[0u8, 1, 2, 3][..]));
    assert_eq!(memory.read(0x100c, 4), Ok(&[12u8, 13, 14, 15][..]));
    assert_eq!(memory.read(0x10, 8), Ok(&[16u8, 17, 18, 19, 20, 21, 22, 23][..]));
    assert_eq!(memory.read(0x14, 2), Ok(&[20u8, 21][..]));
    assert_eq!(memory.read(0x2000, 4), Ok(&[24u8, 25, 26, 27][..]));
    assert_eq!(memory.read(0x2003, 1), Ok(&[27u8][..]));
    assert_eq!(memory.read(0x1000, 16).map(|bytes| bytes.len()), Ok(16));
}

#[test]
fn read_outside_one_region_is_out_of_range() {
    let space = space_of(&[region(0x1000, 0x1010), region(0x1010, 0x1020)]);
    let dump = vec![0u8; 32];
    let memory = PhysicalMemoryAccessor::new(&space, &dump);
    assert_eq!(memory.read(0xfff, 1), Err(AccessError::OutOfRange));
    assert_eq!(memory.read(0xfff, 2), Err(AccessError::OutOfRange));
    assert_eq!(memory.read(0x1020, 1), Err(AccessError::OutOfRange));
    assert_eq!(memory.read(0, 4), Err(AccessError::OutOfRange));
    // Adjacent regions are two regions: a read may not straddle them.
    assert_eq!(memory.read(0x100c, 8), Err(AccessError::OutOfRange));
    assert_eq!(memory.read(0x1000, 17), Err(AccessError::OutOfRange));
    assert_eq!(memory.read(u64::MAX, 2), Err(AccessError::OutOfRange));
    assert_eq!(memory.read(0x1000, usize::MAX), Err(AccessError::OutOfRange));
    assert_eq!(memory.read(0x100c, 4).map(|bytes| bytes.len()), Ok(4));
    assert_eq!(memory.read(0x1010, 16).map(|bytes| bytes.len()), Ok(16));
}

#[test]
fn read_past_the_end_of_the_dump_is_truncated() {
    let space = space_of(&[region(0, 16), region(0x100, 0x110)]);
    let dump: Vec<u8> = (0u8..20).collect();
    let memory = PhysicalMemoryAccessor::new(&space, &dump);
    assert_eq!(memory.read(0x100, 4), Ok(&[16u8, 17, 18, 19][..]));
    assert_eq!(memory.read(0x100, 5), Err(AccessError::TruncatedRead));
    assert_eq!(memory.read(0x104, 1), Err(AccessError::TruncatedRead));
    assert_eq!(memory.read(0x10f, 1), Err(AccessError::TruncatedRead));
    let nothing: Vec<u8> = Vec::new();
    let memory = PhysicalMemoryAccessor::new(&space, &nothing);
    assert_eq!(memory.read(0, 1), Err(AccessError::TruncatedRead));
}

#[test]
fn read_of_no_bytes() {
    let space = space_of(&[region(0x10, 0x20)]);
    let dump = vec![7u8; 16];
    let memory = PhysicalMemoryAccessor::new(&space, &dump);
    assert_eq!(memory.read(0x10, 0), Ok(&[][..]));
    assert_eq!(memory.read(0x20, 0), Ok(&[][..]));
    assert_eq!(memory.read(0x21, 0), Err(AccessError::OutOfRange));
    assert_eq!(memory.read(0xf, 0), Err(AccessError::OutOfRange));
}

#[test]
fn read_in_an_empty_space_is_out_of_range() {
    let space = MemorySpace::new();
    let dump = vec![0u8; 16];
    let memory = PhysicalMemoryAccessor::new(&space, &dump);
    assert_eq!(memory.read(0, 1), Err(AccessError::OutOfRange));
    assert_eq!(memory.read(0, 0), Err(AccessError::OutOfRange));
}

#[test]
fn read_at_the_top_of_the_address_space() {
    let space = space_of(&[region(u64::MAX - 8, u64::MAX)]);
    let dump: Vec<u8> = (0u8..8).collect();
    let memory = PhysicalMemoryAccessor::new(&space, &dump);
    assert_eq!(memory.read(u64::MAX - 8, 8).map(|bytes| bytes.len()), Ok(8));
    assert_eq!(memory.read(u64::MAX - 1, 1), Ok(&[7u8][..]));
    assert_eq!(memory.read(u64::MAX - 1, 2), Err(AccessError::OutOfRange));
    assert_eq!(memory.read(u64::MAX, 1), Err(AccessError::OutOfRange));
}
