use std::path::PathBuf;

use libmmu::address_space::{translate, VirtualAddressSpace};
use libmmu::architecture::generic::{
    Access, Machine, MachineType, MemoryRegion, MemoryRegionType, MemorySpace,
    PageTableEntry as PageTableEntryFlags, Permissions,
};
use libmmu::architecture::riscv::{
    extract_bits, CPURegister, EntryKind, MMUMode, PageTableEntry, CPU, MMU,
};
use libmmu::memory::{AccessError, PhysicalMemoryAccessor};
use libmmu::translation::{
    le_decode, RadixPageTableWalker, Translation, TranslationError, TranslationFault,
};

const RAM: u64 = 0x8000_0000;
const V: u64 = 1;
const R: u64 = 2;
const W: u64 = 4;
const X: u64 = 8;
const U: u64 = 16;
const G: u64 = 32;
const A: u64 = 64;
const D: u64 = 128;

/// A machine with `pages` pages of RAM at `RAM`, all zero, and its root table at `RAM`.
fn blank_machine(mode: MMUMode, pages: u64) -> (Machine, Vec<u8>) {
    let mut memory = MemorySpace::new();
    memory
        .add(MemoryRegion {
            region_type: MemoryRegionType::RAM,
            start_address: RAM,
            end_address: RAM + pages * 4096,
        })
        .unwrap();
    let machine = Machine::new(
        MachineType::RiscV(mode),
        memory,
        PathBuf::from("memory.dump"),
        PathBuf::from("out"),
        RAM,
    );
    (machine, vec![0u8; (pages * 4096) as usize])
}

fn put32(dump: &mut [u8], table: u64, index: u64, entry: u64) {
    let at = (table - RAM + index * 4) as usize;
    dump[at..at + 4].copy_from_slice(&(entry as u32).to_le_bytes());
}

fn put64(dump: &mut [u8], table: u64, index: u64, entry: u64) {
    let at = (table - RAM + index * 8) as usize;
    dump[at..at + 8].copy_from_slice(&entry.to_le_bytes());
}

fn entry(page_number: u64, flags: u64) -> u64 {
    page_number << 10 | flags
}

fn fault(fault: TranslationFault) -> Result<Translation, TranslationError> {
    Err(TranslationError::Fault(fault))
}

fn address(result: Result<Translation, TranslationError>) -> u64 {
    result.unwrap().physical_address
}

/// Sv32: the root points at one table of level 0, whose entry 0 maps page 0 to frame 0x80000.
fn sv32_example() -> (Machine, Vec<u8>) {
    let (machine, mut dump) = blank_machine(MMUMode::SV32, 2);
    put32(&mut dump, RAM, 0, entry(0x80001, V));
    put32(&mut dump, RAM + 0x1000, 0, entry(0x80000, V | R | W | X));
    (machine, dump)
}

#[test]
fn sv32_leaf_maps_page_zero() {
    let (machine, dump) = sv32_example();
    assert_eq!(
        translate(&machine, &dump, 0x0000_0FFF, Access::Execute),
        Ok(Translation {
            physical_address: 0x8000_0FFF,
            permissions: Permissions {
                readable: true,
                writable: true,
                executable: true,
                user: false,
            },
        })
    );
    assert_eq!(address(translate(&machine, &dump, 0, Access::Read)), 0x8000_0000);
    assert_eq!(address(translate(&machine, &dump, 0x123, Access::Write)), 0x8000_0123);
}

#[test]
fn sv32_invalid_entry_is_not_present() {
    let (machine, dump) = sv32_example();
    assert_eq!(
        translate(&machine, &dump, 0x0000_1000, Access::Read),
        fault(TranslationFault::NotPresent)
    );
    // An invalid entry of the root table.
    assert_eq!(
        translate(&machine, &dump, 0x0040_0000, Access::Read),
        fault(TranslationFault::NotPresent)
    );
    assert_eq!(
        translate(&machine, &dump, 0xFFFF_FFFF, Access::Execute),
        fault(TranslationFault::NotPresent)
    );
}

#[test]
fn invalid_entry_with_other_bits_set_is_not_present() {
    let (machine, mut dump) = sv32_example();
    put32(&mut dump, RAM + 0x1000, 1, entry(0x80000, R | W | X | A | D));
    put32(&mut dump, RAM, 1, entry(0x80001, A));
    assert_eq!(
        translate(&machine, &dump, 0x1000, Access::Read),
        fault(TranslationFault::NotPresent)
    );
    assert_eq!(
        translate(&machine, &dump, 0x0040_0000, Access::Read),
        fault(TranslationFault::NotPresent)
    );
}

#[test]
fn translate_gives_the_same_result_every_time() {
    let (machine, dump) = sv32_example();
    for virtual_address in [0u64, 0xfff, 0x1000, 0x40_0000, 0xffff_ffff, u64::MAX] {
        for access in [Access::Read, Access::Write, Access::Execute] {
            let first = translate(&machine, &dump, virtual_address, access);
            let second = translate(&machine, &dump, virtual_address, access);
            assert_eq!(first, second);
            // Neither the paths nor another copy of the same bytes change the result.
            let mut other = machine.clone();
            other.dumpfile = PathBuf::from("elsewhere");
            other.outfolder = PathBuf::from("nowhere");
            assert_eq!(translate(&other, &dump.clone(), virtual_address, access), first);
            let space = VirtualAddressSpace::of_machine(&machine, &dump);
            assert_eq!(space.translate(virtual_address, access), first);
        }
    }
}

#[test]
fn access_is_checked_against_the_leaf() {
    let (machine, mut dump) = sv32_example();
    put32(&mut dump, RAM + 0x1000, 1, entry(0x80002, V | R));
    put32(&mut dump, RAM + 0x1000, 2, entry(0x80003, V | X | U));
    put32(&mut dump, RAM + 0x1000, 3, entry(0x80004, V | W));
    put32(&mut dump, RAM + 0x1000, 4, entry(0x80005, V | R | W | A | D | G));
    let denied = fault(TranslationFault::PermissionDenied);

    assert_eq!(
        translate(&machine, &dump, 0x1004, Access::Read),
        Ok(Translation {
            physical_address: 0x8000_2004,
            permissions: Permissions {
                readable: true,
                writable: false,
                executable: false,
                user: false,
            },
        })
    );
    assert_eq!(translate(&machine, &dump, 0x1004, Access::Write), denied);
    assert_eq!(translate(&machine, &dump, 0x1004, Access::Execute), denied);

    assert_eq!(
        translate(&machine, &dump, 0x2ffc, Access::Execute),
        Ok(Translation {
            physical_address: 0x8000_3ffc,
            permissions: Permissions {
                readable: false,
                writable: false,
                executable: true,
                user: true,
            },
        })
    );
    assert_eq!(translate(&machine, &dump, 0x2ffc, Access::Read), denied);
    assert_eq!(translate(&machine, &dump, 0x2ffc, Access::Write), denied);

    // Write alone makes a leaf too.
    assert_eq!(address(translate(&machine, &dump, 0x3000, Access::Write)), 0x8000_4000);
    assert_eq!(translate(&machine, &dump, 0x3000, Access::Read), denied);

    // On a leaf the accessed, dirty and global bits change nothing.
    assert_eq!(address(translate(&machine, &dump, 0x4010, Access::Read)), 0x8000_5010);
    assert_eq!(address(translate(&machine, &dump, 0x4010, Access::Write)), 0x8000_5010);
    assert_eq!(translate(&machine, &dump, 0x4010, Access::Execute), denied);
}

#[test]
fn pointer_with_accessed_or_dirty_is_a_reserved_bit_violation() {
    for flags in [A, D, A | D, A | U, D | G] {
        let (machine, mut dump) = sv32_example();
        put32(&mut dump, RAM, 0, entry(0x80001, V | flags));
        for access in [Access::Read, Access::Write, Access::Execute] {
            for virtual_address in [0u64, 0xfff, 0x1000, 0x3f_ffff] {
                assert_eq!(
                    translate(&machine, &dump, virtual_address, access),
                    fault(TranslationFault::ReservedBitViolation)
                );
            }
        }
    }
    // The same in a table of level 0.
    let (machine, mut dump) = sv32_example();
    put32(&mut dump, RAM + 0x1000, 0, entry(0x80000, V | D));
    assert_eq!(
        translate(&machine, &dump, 0x10, Access::Read),
        fault(TranslationFault::ReservedBitViolation)
    );
}

#[test]
fn pointer_in_a_table_of_level_zero_is_a_reserved_bit_violation() {
    let (machine, mut dump) = sv32_example();
    put32(&mut dump, RAM + 0x1000, 0, entry(0x80001, V));
    put32(&mut dump, RAM + 0x1000, 1, entry(0x80001, V | U | G));
    assert_eq!(
        translate(&machine, &dump, 0xfff, Access::Read),
        fault(TranslationFault::ReservedBitViolation)
    );
    assert_eq!(
        translate(&machine, &dump, 0x1000, Access::Execute),
        fault(TranslationFault::ReservedBitViolation)
    );
}

#[test]
fn sv32_superpage_maps_its_whole_span() {
    let (machine, mut dump) = blank_machine(MMUMode::SV32, 1);
    // Entry 1 of the root table: a leaf for the 4 MiB from 0x40_0000 on.
    put32(&mut dump, RAM, 1, entry(0x80400, V | R | X));
    for offset in [0u64, 1, 0xfff, 0x1000, 0x12_3456, 0x3f_ffff] {
        let expected = Ok(Translation {
            physical_address: 0x8040_0000 + offset,
            permissions: Permissions {
                readable: true,
                writable: false,
                executable: true,
                user: false,
            },
        });
        assert_eq!(translate(&machine, &dump, 0x40_0000 + offset, Access::Read), expected);
        assert_eq!(translate(&machine, &dump, 0x40_0000 + offset, Access::Execute), expected);
        assert_eq!(
            translate(&machine, &dump, 0x40_0000 + offset, Access::Write),
            fault(TranslationFault::PermissionDenied)
        );
    }
    assert_eq!(
        translate(&machine, &dump, 0x3f_ffff, Access::Read),
        fault(TranslationFault::NotPresent)
    );
    assert_eq!(
        translate(&machine, &dump, 0x80_0000, Access::Read),
        fault(TranslationFault::NotPresent)
    );
}

#[test]
fn sv32_misaligned_superpage_faults_in_its_whole_span() {
    for page_number in [0x80401u64, 0x80600, 0x807ff, 0x803ff] {
        let (machine, mut dump) = blank_machine(MMUMode::SV32, 1);
        put32(&mut dump, RAM, 1, entry(page_number, V | R | X));
        for offset in [0u64, 0xfff, 0x1000, 0x20_0000, 0x3f_ffff] {
            // Alignment is judged before permission: a write faults the same way.
            for access in [Access::Read, Access::Write, Access::Execute] {
                assert_eq!(
                    translate(&machine, &dump, 0x40_0000 + offset, access),
                    fault(TranslationFault::MisalignedSuperpage)
                );
            }
        }
    }
}

/// Sv39: root[2] -> table of level 1 at RAM + 0x1000; its entry 3 -> table of level 0 at
/// RAM + 0x2000, whose entry 4 maps a page; its entry 5 is a 2 MiB leaf. root[7] is a 1 GiB leaf.
fn sv39_example() -> (Machine, Vec<u8>) {
    let (machine, mut dump) = blank_machine(MMUMode::SV39, 3);
    put64(&mut dump, RAM, 2, entry(0x80001, V));
    put64(&mut dump, RAM, 7, entry(0x40000, V | R | W | X | U));
    put64(&mut dump, RAM + 0x1000, 3, entry(0x80002, V));
    put64(&mut dump, RAM + 0x1000, 5, entry(0x80200, V | R | W));
    put64(&mut dump, RAM + 0x2000, 4, entry(0x12345, V | R | W));
    (machine, dump)
}

#[test]
fn sv39_walks_three_levels() {
    let (machine, dump) = sv39_example();
    let page = 2 << 30 | 3 << 21 | 4 << 12;
    assert_eq!(address(translate(&machine, &dump, page | 0xabc, Access::Read)), 0x1234_5abc);
    assert_eq!(address(translate(&machine, &dump, page, Access::Write)), 0x1234_5000);
    assert_eq!(
        translate(&machine, &dump, page, Access::Execute),
        fault(TranslationFault::PermissionDenied)
    );
    assert_eq!(
        translate(&machine, &dump, page + 0x1000, Access::Read),
        fault(TranslationFault::NotPresent)
    );
    assert_eq!(
        translate(&machine, &dump, 2 << 30 | 4 << 21, Access::Read),
        fault(TranslationFault::NotPresent)
    );
    assert_eq!(
        translate(&machine, &dump, 3 << 30, Access::Read),
        fault(TranslationFault::NotPresent)
    );
}

#[test]
fn sv39_superpages_of_two_sizes() {
    let (machine, dump) = sv39_example();
    let megapage = 2 << 30 | 5 << 21;
    for offset in [0u64, 0xfff, 0x1000, 0x1f_ffff] {
        assert_eq!(
            address(translate(&machine, &dump, megapage + offset, Access::Write)),
            0x8020_0000 + offset
        );
    }
    assert_eq!(
        translate(&machine, &dump, megapage + 0x20_0000, Access::Write),
        fault(TranslationFault::NotPresent)
    );
    let gigapage = 7 << 30;
    for offset in [0u64, 0x1234_5678, 0x3fff_ffff] {
        assert_eq!(
            translate(&machine, &dump, gigapage + offset, Access::Execute),
            Ok(Translation {
                physical_address: 0x4000_0000 + offset,
                permissions: Permissions {
                    readable: true,
                    writable: true,
                    executable: true,
                    user: true,
                },
            })
        );
    }
}

#[test]
fn sv39_misaligned_superpages() {
    let (machine, mut dump) = sv39_example();
    // A 2 MiB leaf needs the low 9 bits of its page number clear, a 1 GiB leaf the low 18.
    put64(&mut dump, RAM + 0x1000, 5, entry(0x80201, V | R | W));
    put64(&mut dump, RAM, 7, entry(0x40200, V | R | W | X));
    for offset in [0u64, 0x1000, 0x1f_ffff] {
        assert_eq!(
            translate(&machine, &dump, (2 << 30 | 5 << 21) + offset, Access::Read),
            fault(TranslationFault::MisalignedSuperpage)
        );
    }
    for offset in [0u64, 0x20_0000, 0x3fff_ffff] {
        assert_eq!(
            translate(&machine, &dump, (7 << 30) + offset, Access::Read),
            fault(TranslationFault::MisalignedSuperpage)
        );
    }
    // The same page number is fine for a 2 MiB leaf.
    put64(&mut dump, RAM + 0x1000, 5, entry(0x40200, V | R | W));
    assert_eq!(
        address(translate(&machine, &dump, 2 << 30 | 5 << 21 | 0x777, Access::Read)),
        0x4020_0777
    );
}

#[test]
fn sv48_walks_four_levels() {
    let (machine, mut dump) = blank_machine(MMUMode::SV48, 4);
    put64(&mut dump, RAM, 1, entry(0x80001, V));
    put64(&mut dump, RAM + 0x1000, 0, entry(0x80002, V));
    put64(&mut dump, RAM + 0x2000, 0, entry(0x80003, V));
    // The widest page number there is: 44 bits.
    put64(&mut dump, RAM + 0x3000, 511, entry(0xfff_ffff_ffff, V | R));
    // A 512 GiB leaf in the root table.
    put64(&mut dump, RAM, 2, entry(0x800_0000, V | X));
    let page: u64 = 1 << 39 | 511 << 12;
    assert_eq!(
        address(translate(&machine, &dump, page | 0xfff, Access::Read)),
        0xff_ffff_ffff_ffff
    );
    assert_eq!(
        translate(&machine, &dump, page - 0x1000, Access::Read),
        fault(TranslationFault::NotPresent)
    );
    assert_eq!(
        address(translate(&machine, &dump, 2 << 39 | 0x12_3456_789a, Access::Execute)),
        0x80_0000_0000 + 0x12_3456_789a
    );
    put64(&mut dump, RAM, 2, entry(0x400_0000, V | X));
    assert_eq!(
        translate(&machine, &dump, 2 << 39, Access::Execute),
        fault(TranslationFault::MisalignedSuperpage)
    );
}

#[test]
fn bits_above_the_index_fields_do_not_count() {
    let (machine, dump) = sv39_example();
    let page: u64 = 2 << 30 | 3 << 21 | 4 << 12 | 0x10;
    let expected = translate(&machine, &dump, page, Access::Read);
    assert_eq!(address(expected), 0x1234_5010);
    assert_eq!(translate(&machine, &dump, page | 1 << 39, Access::Read), expected);
    assert_eq!(translate(&machine, &dump, page | 0xffff_ff80_0000_0000, Access::Read), expected);
    let (machine, dump) = sv32_example();
    assert_eq!(address(translate(&machine, &dump, 1 << 32 | 0xfff, Access::Read)), 0x8000_0fff);
}

#[test]
fn unreadable_tables_are_access_errors() {
    let out_of_range = Err(TranslationError::Access(AccessError::OutOfRange));
    let truncated = Err(TranslationError::Access(AccessError::TruncatedRead));

    // A pointer to a table outside the declared memory.
    let (machine, mut dump) = sv32_example();
    put32(&mut dump, RAM, 0, entry(0x90000, V));
    assert_eq!(translate(&machine, &dump, 0, Access::Read), out_of_range);
    put32(&mut dump, RAM, 0, entry(0x80002, V));
    assert_eq!(translate(&machine, &dump, 0, Access::Read), out_of_range);

    // A root table outside the declared memory.
    let (mut machine, dump) = sv32_example();
    machine.root_table_address = 0x1000;
    assert_eq!(translate(&machine, &dump, 0, Access::Read), out_of_range);
    machine.root_table_address = u64::MAX - 1;
    assert_eq!(translate(&machine, &dump, 0xffff_ffff, Access::Read), out_of_range);
    // An entry that straddles the end of the region.
    machine.root_table_address = RAM + 0x2000 - 2;
    assert_eq!(translate(&machine, &dump, 0, Access::Read), out_of_range);

    // A dump that ends before the table.
    let (machine, mut dump) = sv32_example();
    dump.truncate(0x1000);
    assert_eq!(translate(&machine, &dump, 0, Access::Read), truncated);
    dump.truncate(3);
    assert_eq!(translate(&machine, &dump, 0, Access::Read), truncated);
    assert_eq!(translate(&machine, &[], 0x40_0000, Access::Read), truncated);
}

#[test]
fn tables_need_not_be_aligned() {
    let (mut machine, mut dump) = blank_machine(MMUMode::SV32, 2);
    machine.root_table_address = RAM + 0x10;
    put32(&mut dump, RAM + 0x10, 3, entry(0x80400, V | R));
    assert_eq!(
        address(translate(&machine, &dump, 3 << 22 | 0x1234, Access::Read)),
        0x8040_1234
    );
}

#[test]
fn tables_in_a_later_region_are_found_in_the_dump() {
    let mut memory = MemorySpace::new();
    memory
        .add(MemoryRegion {
            region_type: MemoryRegionType::ROM,
            start_address: 0,
            end_address: 0x800,
        })
        .unwrap()
        .add(MemoryRegion {
            region_type: MemoryRegionType::RAM,
            start_address: RAM,
            end_address: RAM + 0x2000,
        })
        .unwrap();
    let machine = Machine::new(
        MachineType::RiscV(MMUMode::SV32),
        memory,
        PathBuf::from("memory.dump"),
        PathBuf::from("out"),
        RAM,
    );
    let mut dump = vec![0xffu8; 0x800];
    let (_, tables) = sv32_example();
    dump.extend_from_slice(&tables);
    assert_eq!(address(translate(&machine, &dump, 0xfff, Access::Execute)), 0x8000_0fff);
    assert_eq!(
        translate(&machine, &dump, 0x1000, Access::Read),
        fault(TranslationFault::NotPresent)
    );
}

#[test]
fn walker_reads_entries_in_little_endian() {
    let (machine, mut dump) = blank_machine(MMUMode::SV39, 1);
    dump[8..16].copy_from_slice(&[0x01, 0x02, 0x03, 0x04, 0x05, 0x06, 0x07, 0x08]);
    let memory = PhysicalMemoryAccessor::new(&machine.memory_regions, &dump);
    let walker = RadixPageTableWalker::new(MMU::new(MMUMode::SV39), memory);
    assert_eq!(walker.read_entry(RAM, 1), Ok(0x0807_0605_0403_0201));
    assert_eq!(walker.read_entry(RAM, 0), Ok(0));
    assert_eq!(walker.read_entry(RAM, 511), Ok(0));
    assert_eq!(walker.read_entry(RAM + 8, 511), Err(AccessError::OutOfRange));
    assert_eq!(walker.read_entry(u64::MAX, 1), Err(AccessError::OutOfRange));
    let walker = RadixPageTableWalker::new(MMU::new(MMUMode::SV32), memory);
    assert_eq!(walker.read_entry(RAM, 2), Ok(0x0403_0201));
    assert_eq!(walker.read_entry(RAM, 3), Ok(0x0807_0605));
    assert_eq!(walker.read_entry(RAM, 1023), Ok(0));
}

#[test]
fn le_decode_reads_up_to_eight_bytes() {
    assert_eq!(le_decode(&[]), 0);
    assert_eq!(le_decode(&[0x7f]), 0x7f);
    assert_eq!(le_decode(&[0x34, 0x12]), 0x1234);
    assert_eq!(le_decode(&[0, 0, 0, 0x80]), 0x8000_0000);
    assert_eq!(le_decode(&[0xff; 8]), u64::MAX);
    assert_eq!(le_decode(&[1, 0, 0, 0, 0, 0, 0, 0x80]), 0x8000_0000_0000_0001);
}

#[test]
fn extract_bits_takes_a_field() {
    assert_eq!(extract_bits(0b1101_0000, 4, 3), 0b101);
    assert_eq!(extract_bits(0b1101_0000, 4, 4), 0b1101);
    assert_eq!(extract_bits(u64::MAX, 0, 63), u64::MAX >> 1);
    assert_eq!(extract_bits(u64::MAX, 63, 1), 1);
    assert_eq!(extract_bits(u64::MAX, 63, 63), 1);
    assert_eq!(extract_bits(0x1234_5678_9abc_def0, 16, 16), 0x9abc);
    assert_eq!(extract_bits(0x1234_5678_9abc_def0, 0, 0), 0);
    assert_eq!(extract_bits(0x1234_5678_9abc_def0, 60, 8), 1);
}

#[test]
fn decode_lays_the_flags_out_bit_by_bit() {
    let flags = |raw: u64| {
        let entry = PageTableEntry::decode(raw, MMUMode::SV39);
        [
            entry.is_valid(),
            entry.is_readable(),
            entry.is_writable(),
            entry.is_executable(),
            entry.is_user(),
            entry.is_global(),
            entry.is_accessed(),
            entry.is_dirty(),
        ]
    };
    for bit in 0..8 {
        let mut expected = [false; 8];
        expected[bit] = true;
        assert_eq!(flags(1 << bit), expected);
        let mut expected = [true; 8];
        expected[bit] = false;
        assert_eq!(flags(0xff & !(1u64 << bit)), expected);
        assert_eq!(flags(u64::MAX & !(1u64 << bit)), expected);
    }
    // The two bits left to software and the page number are no flags.
    assert_eq!(flags(0x300), [false; 8]);
    assert_eq!(flags(!0xffu64), [false; 8]);
    let entry = PageTableEntry::decode(V | U, MMUMode::SV32);
    assert!(entry.is_user() && !entry.is_supervisor());
    let entry = PageTableEntry::decode(V, MMUMode::SV32);
    assert!(!entry.is_user() && entry.is_supervisor());
}

#[test]
fn decode_takes_the_page_number_of_the_mode() {
    assert_eq!(
        PageTableEntry::decode(entry(0x80000, V | R), MMUMode::SV32),
        PageTableEntry::new(0x8000_0000, 3)
    );
    // Sv32: 22 bits from bit 10 on.
    assert_eq!(PageTableEntry::extract_addr(0xffff_ffff, MMUMode::SV32), 0x3_ffff_f000);
    assert_eq!(PageTableEntry::extract_addr(u64::MAX, MMUMode::SV32), 0x3_ffff_f000);
    assert_eq!(PageTableEntry::extract_addr(0x3ff, MMUMode::SV32), 0);
    assert_eq!(PageTableEntry::extract_addr(0x400, MMUMode::SV32), 0x1000);
    // Sv39 and Sv48: 44 bits from bit 10 on; the ten bits above them are not part of it.
    for mode in [MMUMode::SV39, MMUMode::SV48] {
        assert_eq!(PageTableEntry::extract_addr(u64::MAX, mode), 0xff_ffff_ffff_f000);
        assert_eq!(PageTableEntry::extract_addr(1 << 53, mode), 1 << 55);
        assert_eq!(PageTableEntry::extract_addr(1 << 54, mode), 0);
        assert_eq!(PageTableEntry::extract_addr(0x400, mode), 0x1000);
        assert_eq!(
            PageTableEntry::decode(0xffc0_0000_0000_03ff, mode),
            PageTableEntry::new(0, 0x3ff)
        );
    }
    let mmu = MMU::new(MMUMode::SV48);
    assert_eq!(mmu.decode_entry(entry(0x12345, 0xcf)), PageTableEntry::new(0x1234_5000, 0xcf));
}

#[test]
fn entries_are_classified_by_their_flags() {
    let kind = |flags: u64| PageTableEntry::new(0, flags).kind();
    assert_eq!(kind(0), EntryKind::NotPresent);
    assert_eq!(kind(R | W | X | A | D), EntryKind::NotPresent);
    assert_eq!(kind(V), EntryKind::Pointer);
    assert_eq!(kind(V | U | G), EntryKind::Pointer);
    assert_eq!(kind(V | 0x300), EntryKind::Pointer);
    assert_eq!(kind(V | A), EntryKind::Reserved);
    assert_eq!(kind(V | D), EntryKind::Reserved);
    assert_eq!(kind(V | A | D | U), EntryKind::Reserved);
    for access in [R, W, X, R | W, R | X, W | X, R | W | X] {
        assert_eq!(kind(V | access), EntryKind::Leaf);
        assert_eq!(kind(V | access | A | D), EntryKind::Leaf);
    }
    assert_eq!(
        PageTableEntry::new(0, V | R | X | U).permissions(),
        Permissions {
            readable: true,
            writable: false,
            executable: true,
            user: true,
        }
    );
}

#[test]
fn permissions_allow_what_they_name() {
    let permissions = Permissions {
        readable: true,
        writable: false,
        executable: true,
        user: false,
    };
    assert!(permissions.allows(Access::Read));
    assert!(!permissions.allows(Access::Write));
    assert!(permissions.allows(Access::Execute));
}

#[test]
fn modes_fix_the_shape_of_the_tables() {
    let sv32 = MMU::new(MMUMode::SV32);
    let sv39 = MMU::new(MMUMode::SV39);
    let sv48 = MMU::new(MMUMode::SV48);
    assert_eq!(MMU::default(), sv32);
    assert_eq!(MMUMode::default(), MMUMode::SV32);
    assert_eq!(
        [sv32.level_count(), sv39.level_count(), sv48.level_count()],
        [2, 3, 4]
    );
    assert_eq!(
        [sv32.index_width(), sv39.index_width(), sv48.index_width()],
        [10, 9, 9]
    );
    assert_eq!(
        [sv32.entry_count(), sv39.entry_count(), sv48.entry_count()],
        [1024, 512, 512]
    );
    assert_eq!(
        [sv32.entry_size(), sv39.entry_size(), sv48.entry_size()],
        [4, 8, 8]
    );
    assert_eq!([sv32.entry_offset(1023), sv39.entry_offset(511)], [4092, 4088]);
    assert_eq!([sv32.index_shift(0), sv32.index_shift(1)], [12, 22]);
    assert_eq!([sv39.index_shift(1), sv48.index_shift(3)], [21, 39]);
    assert_eq!([sv32.span(0), sv32.span(1), sv32.span(2)], [1 << 12, 1 << 22, 1 << 32]);
    assert_eq!(
        [sv48.span(0), sv48.span(1), sv48.span(2), sv48.span(3), sv48.span(4)],
        [1 << 12, 1 << 21, 1 << 30, 1 << 39, 1 << 48]
    );
    assert_eq!(sv39.span(3), 1 << 39);
}

#[test]
fn addresses_split_into_index_fields_and_offset() {
    let sv32 = MMU::new(MMUMode::SV32);
    let virtual_address = 0x3ff << 22 | 0x155 << 12 | 0xabc;
    assert_eq!(sv32.table_index(virtual_address, 1), 0x3ff);
    assert_eq!(sv32.table_index(virtual_address, 0), 0x155);
    assert_eq!(sv32.span_offset(virtual_address, 0), 0xabc);
    assert_eq!(sv32.span_offset(virtual_address, 1), 0x155 << 12 | 0xabc);
    let sv48 = MMU::new(MMUMode::SV48);
    let virtual_address = 0x1ff << 39 | 0x0aa << 30 | 0x155 << 21 | 0x001 << 12 | 0xfff;
    assert_eq!(
        [3, 2, 1, 0].map(|level| sv48.table_index(virtual_address, level)),
        [0x1ff, 0x0aa, 0x155, 0x001]
    );
    assert_eq!(sv48.span_offset(virtual_address, 2), 0x155 << 21 | 0x001 << 12 | 0xfff);
    assert_eq!(sv48.table_index(u64::MAX, 3), 0x1ff);
}

#[test]
fn alignment_of_a_leaf_depends_on_its_level() {
    let sv39 = MMU::new(MMUMode::SV39);
    let leaf = PageTableEntry::new(0x4020_0000, V | R);
    assert!(sv39.is_aligned(&leaf, 0));
    assert!(sv39.is_aligned(&leaf, 1));
    assert!(!sv39.is_aligned(&leaf, 2));
    let sv32 = MMU::new(MMUMode::SV32);
    assert!(!sv32.is_aligned(&leaf, 1));
    assert!(sv32.is_aligned(&PageTableEntry::new(0x4040_0000, V | R), 1));
}

#[test]
fn judge_entry_orders_its_checks() {
    let (machine, dump) = blank_machine(MMUMode::SV39, 1);
    let memory = PhysicalMemoryAccessor::new(&machine.memory_regions, &dump);
    let walker = RadixPageTableWalker::new(MMU::new(MMUMode::SV39), memory);
    let judge = |level: u64, address: u64, flags: u64, access: Access| {
        walker.judge_entry(level, &PageTableEntry::new(address, flags), 0x1234_5678, access)
    };
    assert_eq!(judge(1, 0x20_1000, R, Access::Read), Err(TranslationFault::NotPresent));
    assert_eq!(
        judge(1, 0x20_1000, V | A, Access::Read),
        Err(TranslationFault::ReservedBitViolation)
    );
    assert_eq!(
        judge(0, 0x20_1000, V, Access::Read),
        Err(TranslationFault::ReservedBitViolation)
    );
    assert_eq!(
        judge(1, 0x20_1000, V | R, Access::Write),
        Err(TranslationFault::MisalignedSuperpage)
    );
    assert_eq!(
        judge(1, 0x20_0000, V | R, Access::Write),
        Err(TranslationFault::PermissionDenied)
    );
    assert_eq!(
        judge(1, 0x20_0000, V | R, Access::Read).map(|found| found.physical_address),
        Ok(0x20_0000 + 0x14_5678)
    );
    assert_eq!(
        judge(0, 0x20_1000, V | R, Access::Read).map(|found| found.physical_address),
        Ok(0x20_1678)
    );
}

#[test]
fn registers_and_cpu_start_empty() {
    assert_eq!(CPURegister::new(7).value, 7);
    assert_eq!(CPURegister::default().value, 0);
    assert!(CPU::new().registers.is_empty());
    assert_eq!(CPU::default(), CPU::new());
}

#[test]
fn trait_methods_read_the_flags() {
    fn readable(entry: &impl PageTableEntryFlags) -> [bool; 6] {
        [
            entry.is_readable(),
            entry.is_writable(),
            entry.is_executable(),
            entry.is_global(),
            entry.is_accessed(),
            entry.is_dirty(),
        ]
    }
    assert_eq!(
        readable(&PageTableEntry::new(0, R | X | A)),
        [true, false, true, false, true, false]
    );
    assert_eq!(
        readable(&PageTableEntry::new(0, W | G | D)),
        [false, true, false, true, false, true]
    );
}
