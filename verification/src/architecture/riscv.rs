//! RISC-V paging: modes, page table entries and registers.

use super::generic::PageTableEntry as PageTableEntryTrait;
use super::generic::Permissions;
use vstd::arithmetic::div_mod::{lemma_fundamental_div_mod, lemma_fundamental_div_mod_converse};
use vstd::arithmetic::power2::*;
use vstd::bits::*;
use vstd::prelude::*;

verus! {

/// The `n` bits of `value` that start at bit `pos`, bit 0 being the least
/// significant.
pub open spec fn bits(value: u64, pos: nat, n: nat) -> nat {
    (value as nat / pow2(pos)) % pow2(n)
}

/// Extracts `n` bits of a 64-bit entry, starting at bit `pos`.
pub fn extract_bits(entry: u64, pos: u64, n: u64) -> (field: u64)
    requires
        pos < 64,
        n < 64,
    ensures
        field == bits(entry, pos as nat, n as nat),
        field < pow2(n as nat),
{
    proof {
        lemma_u64_shr_is_div(entry, pos);
        lemma_u64_pow2_no_overflow(n as nat);
        lemma_u64_shl_is_mul(1, n);
        lemma_u64_low_bits_mask_is_mod(entry >> pos, n as nat);
    }
    (entry >> pos) & ((1u64 << n) - 1)
}

/// Represents a RISC-V CPU register associated with a value.
#[derive(Debug, Clone, Copy, PartialEq, Eq, Structural, Hash, PartialOrd, Ord)]
pub struct CPURegister {
    pub value: u64,
}

impl CPURegister {
    pub fn new(value: u64) -> (register: Self)
        ensures
            register.value == value,
    {
        CPURegister { value }
    }
}

impl Default for CPURegister {
    fn default() -> (register: Self)
        ensures
            register.value == 0,
    {
        CPURegister { value: 0 }
    }
}

/// The paging modes of the RISC-V privileged architecture, named after the
/// width of the virtual addresses they translate.
#[derive(Debug, Clone, Copy, PartialEq, Eq, Structural, Hash, PartialOrd, Ord)]
pub enum MMUMode {
    SV32,
    SV39,
    SV48,
}

impl Default for MMUMode {
    fn default() -> (mode: Self)
        ensures
            mode == MMUMode::SV32,
    {
        MMUMode::SV32
    }
}

impl MMUMode {
    /// Number of levels of the page table tree.
    pub open spec fn level_count(self) -> nat {
        match self {
            MMUMode::SV32 => 2,
            MMUMode::SV39 => 3,
            MMUMode::SV48 => 4,
        }
    }

    /// Width in bits of the index into one table.
    pub open spec fn index_bits(self) -> nat {
        match self {
            MMUMode::SV32 => 10,
            MMUMode::SV39 | MMUMode::SV48 => 9,
        }
    }

    /// Number of entries of one table.
    pub open spec fn entry_count(self) -> nat {
        match self {
            MMUMode::SV32 => 1024,
            MMUMode::SV39 | MMUMode::SV48 => 512,
        }
    }

    /// Size in bytes of one table entry.
    pub open spec fn entry_size(self) -> nat {
        match self {
            MMUMode::SV32 => 4,
            MMUMode::SV39 | MMUMode::SV48 => 8,
        }
    }

    /// Width in bits of the physical page number held by an entry.
    pub open spec fn ppn_bits(self) -> nat {
        match self {
            MMUMode::SV32 => 22,
            MMUMode::SV39 | MMUMode::SV48 => 44,
        }
    }

    /// Position of the lowest bit of the index field of `level` within a
    /// virtual address.
    pub open spec fn index_shift(self, level: nat) -> nat {
        match self {
            MMUMode::SV32 => 12 + 10 * level,
            MMUMode::SV39 | MMUMode::SV48 => 12 + 9 * level,
        }
    }

    /// Number of bytes that one entry of a table of `level` covers:
    /// 4 KiB at level 0, a superpage above it.
    pub open spec fn span(self, level: nat) -> nat {
        pow2(self.index_shift(level))
    }

    /// Byte offset of entry `index` within its table.
    pub open spec fn entry_offset(self, index: nat) -> nat {
        match self {
            MMUMode::SV32 => 4 * index,
            MMUMode::SV39 | MMUMode::SV48 => 8 * index,
        }
    }

    /// The index into the table of `level` that `virtual_address` selects.
    pub open spec fn table_index(self, virtual_address: u64, level: nat) -> nat {
        bits(virtual_address, self.index_shift(level), self.index_bits())
    }

    /// The part of `virtual_address` below the index field of `level`.
    pub open spec fn span_offset(self, virtual_address: u64, level: nat) -> nat {
        bits(virtual_address, 0, self.index_shift(level))
    }
}

/// A table has as many entries as its index can tell apart.
pub proof fn lemma_entry_count(mode: MMUMode)
    ensures
        mode.entry_count() == pow2(mode.index_bits()),
{
    lemma2_to64();
}

/// An entry of `level + 1` covers what a whole table of `level` covers.
pub proof fn lemma_span_step(mode: MMUMode, level: nat)
    ensures
        mode.span(level + 1) == mode.entry_count() * mode.span(level),
        mode.span(level) > 0,
        mode.span(0) == 4096,
{
    lemma2_to64();
    lemma_pow2_pos(mode.index_shift(level));
    lemma_pow2_adds(mode.index_bits(), mode.index_shift(level));
}

/// What one entry covers at each level: 4 KiB pages at level 0, above it
/// 4 MiB in Sv32, and 2 MiB, 1 GiB and 512 GiB in Sv39 and Sv48.
pub proof fn lemma_span_values(mode: MMUMode)
    ensures
        mode.span(0) == 0x1000,
        mode == MMUMode::SV32 ==> mode.span(1) == 0x40_0000,
        mode != MMUMode::SV32 ==> mode.span(1) == 0x20_0000 && mode.span(2) == 0x4000_0000
            && mode.span(3) == 0x80_0000_0000,
{
    lemma2_to64();
    lemma2_to64_rest();
}

/// Spans grow with the level, and stay within the virtual address width.
pub proof fn lemma_span_bounds(mode: MMUMode, level: nat)
    requires
        level <= mode.level_count(),
    ensures
        4096 <= mode.span(level) <= 0x1_0000_0000_0000,
{
    lemma2_to64();
    lemma2_to64_rest();
    let shift = mode.index_shift(level);
    if shift > 12 {
        lemma_pow2_strictly_increases(12, shift);
    }
    if shift < 48 {
        lemma_pow2_strictly_increases(shift, 48);
    }
}

/// An address among those that entry `index` of a table of `level` stands
/// for, the table standing for the addresses from `table_start` on,
/// selects that entry, and lies as far from the start of the entry's span
/// as its part below the index field says.
pub proof fn lemma_index_of_address(
    mode: MMUMode,
    level: nat,
    table_start: nat,
    index: nat,
    address: u64,
)
    requires
        table_start % mode.span(level + 1) == 0,
        index < mode.entry_count(),
        table_start + index * mode.span(level) <= address < table_start + (index + 1) * mode.span(
            level,
        ),
    ensures
        mode.table_index(address, level) == index,
        mode.span_offset(address, level) == address - (table_start + index * mode.span(level)),
        address as nat % mode.span(level) == address - (table_start + index * mode.span(level)),
        (table_start + index * mode.span(level)) % mode.span(level) == 0,
        address as nat / mode.span(level) == (table_start + index * mode.span(level)) / mode.span(
            level,
        ),
{
    let span = mode.span(level) as int;
    let count = mode.entry_count() as int;
    let above = mode.span(level + 1) as int;
    let tables = table_start as int / above;
    let entry_start = table_start + index * span;
    let offset = address - entry_start;
    lemma_span_step(mode, level);
    lemma_entry_count(mode);
    lemma2_to64();
    lemma_fundamental_div_mod(table_start as int, above);
    assert(table_start == above * tables);
    assert(entry_start == (tables * count + index) * span) by (nonlinear_arith)
        requires
            entry_start == table_start + index * span,
            table_start == above * tables,
            above == count * span,
    ;
    assert(0 <= offset < span) by (nonlinear_arith)
        requires
            offset == address - entry_start,
            entry_start == table_start + index * span,
            table_start + index * span <= address < table_start + (index + 1) * span,
    ;
    lemma_fundamental_div_mod_converse(address as int, span, tables * count + index, offset);
    lemma_fundamental_div_mod_converse(entry_start, span, tables * count + index, 0);
    lemma_fundamental_div_mod_converse(tables * count + index, count, tables, index as int);
}

/// An address among those that a table of `level` stands for lies among
/// those that the entry it selects stands for.
pub proof fn lemma_address_in_entry(mode: MMUMode, level: nat, table_start: nat, address: u64)
    requires
        table_start % mode.span(level + 1) == 0,
        table_start <= address < table_start + mode.span(level + 1),
    ensures
        mode.table_index(address, level) < mode.entry_count(),
        table_start + mode.table_index(address, level) * mode.span(level) <= address,
        address < table_start + (mode.table_index(address, level) + 1) * mode.span(level),
{
    let span = mode.span(level) as int;
    let count = mode.entry_count() as int;
    let above = mode.span(level + 1) as int;
    let within = address - table_start;
    let index = within / span;
    lemma_span_step(mode, level);
    lemma_fundamental_div_mod(within, span);
    assert(0 <= index < count) by (nonlinear_arith)
        requires
            0 <= within < count * span,
            within == span * index + within % span,
            0 <= within % span < span,
    ;
    assert(table_start + index * span <= address < table_start + (index + 1) * span)
        by (nonlinear_arith)
        requires
            within == address - table_start,
            within == span * index + within % span,
            0 <= within % span < span,
    ;
    lemma_index_of_address(mode, level, table_start, index as nat, address);
}

/// Represents a RISC-V page table entry.
/// It holds the mapping between a virtual address of a page and the address of a physical frame.
/// There is also auxiliary information about the page such as a present bit, a dirty or modified bit,
/// address space or process ID information, amongst others.
#[derive(Debug, Clone, Copy, PartialEq, Eq, Structural, Hash, PartialOrd, Ord)]
pub struct PageTableEntry {
    /// Physical address that the entry points at: its page number times the
    /// page size.
    pub address: u64,
    /// The ten low bits of the entry.
    pub flags: u64,
}

/// What an entry stands for.
#[derive(Debug, Clone, Copy, PartialEq, Eq, Structural, Hash)]
pub enum EntryKind {
    /// The valid bit is clear.
    NotPresent,
    /// Valid, with none of read, write and execute: the entry points at the
    /// table of the next level.
    Pointer,
    /// Valid, with one of read, write and execute: the entry maps a page.
    Leaf,
    /// A pointer with the accessed or the dirty bit set, which the
    /// architecture reserves.
    Reserved,
}

impl PageTableEntry {
    pub fn new(address: u64, flags: u64) -> (entry: Self)
        ensures
            entry == (PageTableEntry { address, flags }),
    {
        PageTableEntry { address, flags }
    }

    /// Bit 0 of the flags: the entry is valid.
    pub open spec fn spec_is_valid(&self) -> bool {
        self.flags % 2 == 1
    }

    /// Bit 1 of the flags: the page may be read.
    pub open spec fn spec_is_readable(&self) -> bool {
        self.flags / 2 % 2 == 1
    }

    /// Bit 2 of the flags: the page may be written.
    pub open spec fn spec_is_writable(&self) -> bool {
        self.flags / 4 % 2 == 1
    }

    /// Bit 3 of the flags: the page may be executed.
    pub open spec fn spec_is_executable(&self) -> bool {
        self.flags / 8 % 2 == 1
    }

    /// Bit 4 of the flags: the page is open to user mode.
    pub open spec fn spec_is_user(&self) -> bool {
        self.flags / 16 % 2 == 1
    }

    /// The page is kept from user mode: bit 4 of the flags is clear.
    pub open spec fn spec_is_supervisor(&self) -> bool {
        !self.spec_is_user()
    }

    /// Bit 5 of the flags: the mapping is global.
    pub open spec fn spec_is_global(&self) -> bool {
        self.flags / 32 % 2 == 1
    }

    /// Bit 6 of the flags: the page has been accessed.
    pub open spec fn spec_is_accessed(&self) -> bool {
        self.flags / 64 % 2 == 1
    }

    /// Bit 7 of the flags: the page has been written.
    pub open spec fn spec_is_dirty(&self) -> bool {
        self.flags / 128 % 2 == 1
    }

    /// The physical address held by the raw entry `entry`: its physical
    /// page number, which starts at bit 10 and is 22 bits wide in Sv32 and
    /// 44 bits wide in Sv39 and Sv48, times the page size.
    pub open spec fn spec_extract_addr(entry: u64, mode: MMUMode) -> nat {
        match mode {
            MMUMode::SV32 => (entry as nat / 0x400 % 0x40_0000) * 4096,
            MMUMode::SV39 | MMUMode::SV48 => (entry as nat / 0x400 % 0x1000_0000_0000) * 4096,
        }
    }

    /// The decoding of the raw entry `raw`: its physical address and its
    /// ten low bits.
    pub open spec fn spec_decode(raw: u64, mode: MMUMode) -> PageTableEntry {
        PageTableEntry {
            address: Self::spec_extract_addr(raw, mode) as u64,
            flags: raw % 0x400,
        }
    }

    /// What the entry stands for, going by its flags.
    pub open spec fn spec_kind(&self) -> EntryKind {
        if !self.spec_is_valid() {
            EntryKind::NotPresent
        } else if self.spec_is_readable() || self.spec_is_writable() || self.spec_is_executable() {
            EntryKind::Leaf
        } else if self.spec_is_accessed() || self.spec_is_dirty() {
            EntryKind::Reserved
        } else {
            EntryKind::Pointer
        }
    }

    /// What the entry allows, should it be a leaf.
    pub open spec fn spec_permissions(&self) -> Permissions {
        Permissions {
            readable: self.spec_is_readable(),
            writable: self.spec_is_writable(),
            executable: self.spec_is_executable(),
            user: self.spec_is_user(),
        }
    }

    /// Whether the physical address is a multiple of what an entry of
    /// `level` covers, as a leaf of that level needs it to be.
    pub open spec fn spec_is_aligned(&self, mode: MMUMode, level: nat) -> bool {
        self.address as nat % mode.span(level) == 0
    }

    #[verifier::when_used_as_spec(spec_is_valid)]
    pub fn is_valid(&self) -> (set: bool)
        ensures
            set == self.spec_is_valid(),
    {
        proof {
            lemma2_to64();
        }
        let bit = extract_bits(self.flags, 0, 1);
        assert(bit == self.flags % 2);
        bit != 0
    }

    #[verifier::when_used_as_spec(spec_is_user)]
    pub fn is_user(&self) -> (set: bool)
        ensures
            set == self.spec_is_user(),
    {
        proof {
            lemma2_to64();
        }
        let bit = extract_bits(self.flags, 4, 1);
        assert(bit == self.flags / 16 % 2);
        bit != 0
    }

    #[verifier::when_used_as_spec(spec_is_supervisor)]
    pub fn is_supervisor(&self) -> (supervisor: bool)
        ensures
            supervisor == self.spec_is_supervisor(),
    {
        proof {
            lemma2_to64();
        }
        let bit = extract_bits(self.flags, 4, 1);
        assert(bit == self.flags / 16 % 2);
        bit == 0
    }

    /// Extracts the physical address that a raw entry holds.
    pub fn extract_addr(entry: u64, mode: MMUMode) -> (address: u64)
        ensures
            address == Self::spec_extract_addr(entry, mode),
            address == bits(entry, 10, mode.ppn_bits()) * 4096,
            address < 0x100_0000_0000_0000,
            address % 4096 == 0,
    {
        let width: u64 = match mode {
            MMUMode::SV32 => 22,
            MMUMode::SV39 | MMUMode::SV48 => 44,
        };
        let page_number = extract_bits(entry, 10, width);
        proof {
            lemma2_to64();
            lemma2_to64_rest();
            lemma_u64_shl_is_mul(page_number, 12);
            assert(page_number == match mode {
                MMUMode::SV32 => entry as nat / 0x400 % 0x40_0000,
                MMUMode::SV39 | MMUMode::SV48 => entry as nat / 0x400 % 0x1000_0000_0000,
            });
        }
        page_number << 12
    }

    /// Decodes a raw table entry.
    pub fn decode(raw: u64, mode: MMUMode) -> (entry: Self)
        ensures
            entry == Self::spec_decode(raw, mode),
            entry.address < 0x100_0000_0000_0000,
            entry.address % 4096 == 0,
    {
        proof {
            lemma2_to64();
        }
        let flags = extract_bits(raw, 0, 10);
        assert(flags == raw % 0x400);
        PageTableEntry { address: Self::extract_addr(raw, mode), flags }
    }

    #[verifier::when_used_as_spec(spec_kind)]
    pub fn kind(&self) -> (kind: EntryKind)
        ensures
            kind == self.spec_kind(),
    {
        if !self.is_valid() {
            EntryKind::NotPresent
        } else if self.is_readable() || self.is_writable() || self.is_executable() {
            EntryKind::Leaf
        } else if self.is_accessed() || self.is_dirty() {
            EntryKind::Reserved
        } else {
            EntryKind::Pointer
        }
    }

    #[verifier::when_used_as_spec(spec_permissions)]
    pub fn permissions(&self) -> (permissions: Permissions)
        ensures
            permissions == self.spec_permissions(),
    {
        Permissions {
            readable: self.is_readable(),
            writable: self.is_writable(),
            executable: self.is_executable(),
            user: self.is_user(),
        }
    }
}

impl PageTableEntryTrait for PageTableEntry {
    type Address = u64;

    type Flags = u64;

    fn is_dirty(&self) -> (set: bool)
        ensures
            set == self.spec_is_dirty(),
    {
        proof {
            lemma2_to64();
        }
        let bit = extract_bits(self.flags, 7, 1);
        assert(bit == self.flags / 128 % 2);
        bit != 0
    }

    fn is_accessed(&self) -> (set: bool)
        ensures
            set == self.spec_is_accessed(),
    {
        proof {
            lemma2_to64();
        }
        let bit = extract_bits(self.flags, 6, 1);
        assert(bit == self.flags / 64 % 2);
        bit != 0
    }

    fn is_global(&self) -> (set: bool)
        ensures
            set == self.spec_is_global(),
    {
        proof {
            lemma2_to64();
        }
        let bit = extract_bits(self.flags, 5, 1);
        assert(bit == self.flags / 32 % 2);
        bit != 0
    }

    fn is_readable(&self) -> (set: bool)
        ensures
            set == self.spec_is_readable(),
    {
        proof {
            lemma2_to64();
        }
        let bit = extract_bits(self.flags, 1, 1);
        assert(bit == self.flags / 2 % 2);
        bit != 0
    }

    fn is_writable(&self) -> (set: bool)
        ensures
            set == self.spec_is_writable(),
    {
        proof {
            lemma2_to64();
        }
        let bit = extract_bits(self.flags, 2, 1);
        assert(bit == self.flags / 4 % 2);
        bit != 0
    }

    fn is_executable(&self) -> (set: bool)
        ensures
            set == self.spec_is_executable(),
    {
        proof {
            lemma2_to64();
        }
        let bit = extract_bits(self.flags, 3, 1);
        assert(bit == self.flags / 8 % 2);
        bit != 0
    }
}

/// Represents a RISC-V MMU: what its paging mode fixes about the page
/// tables, chosen once when the MMU is built.
#[derive(Debug, Clone, Copy, PartialEq, Eq, Structural, Hash, PartialOrd, Ord)]
pub struct MMU {
    pub mode: MMUMode,
}

impl Default for MMU {
    fn default() -> (mmu: Self)
        ensures
            mmu.mode == MMUMode::SV32,
    {
        MMU { mode: MMUMode::SV32 }
    }
}

impl MMU {
    pub fn new(mode: MMUMode) -> (mmu: Self)
        ensures
            mmu.mode == mode,
    {
        MMU { mode }
    }

    /// Number of levels of the page table tree.
    pub fn level_count(&self) -> (count: u64)
        ensures
            count == self.mode.level_count(),
    {
        match self.mode {
            MMUMode::SV32 => 2,
            MMUMode::SV39 => 3,
            MMUMode::SV48 => 4,
        }
    }

    /// Width in bits of the index into one table.
    pub fn index_width(&self) -> (width: u64)
        ensures
            width == self.mode.index_bits(),
    {
        match self.mode {
            MMUMode::SV32 => 10,
            MMUMode::SV39 | MMUMode::SV48 => 9,
        }
    }

    /// Number of entries of one table.
    pub fn entry_count(&self) -> (count: u64)
        ensures
            count == self.mode.entry_count(),
    {
        match self.mode {
            MMUMode::SV32 => 1024,
            MMUMode::SV39 | MMUMode::SV48 => 512,
        }
    }

    /// Size in bytes of one table entry.
    pub fn entry_size(&self) -> (size: usize)
        ensures
            size == self.mode.entry_size(),
    {
        match self.mode {
            MMUMode::SV32 => 4,
            MMUMode::SV39 | MMUMode::SV48 => 8,
        }
    }

    /// Byte offset of entry `index` within its table.
    pub fn entry_offset(&self, index: u64) -> (offset: u64)
        requires
            index < self.mode.entry_count(),
        ensures
            offset == self.mode.entry_offset(index as nat),
            offset + self.mode.entry_size() <= 4096,
    {
        match self.mode {
            MMUMode::SV32 => 4 * index,
            MMUMode::SV39 | MMUMode::SV48 => 8 * index,
        }
    }

    /// Position of the lowest bit of the index field of `level`.
    pub fn index_shift(&self, level: u64) -> (shift: u64)
        requires
            level <= self.mode.level_count(),
        ensures
            shift == self.mode.index_shift(level as nat),
            12 <= shift <= 48,
    {
        match self.mode {
            MMUMode::SV32 => 12 + 10 * level,
            MMUMode::SV39 | MMUMode::SV48 => 12 + 9 * level,
        }
    }

    /// Number of bytes that one entry of a table of `level` covers.
    pub fn span(&self, level: u64) -> (span: u64)
        requires
            level <= self.mode.level_count(),
        ensures
            span == self.mode.span(level as nat),
            4096 <= span <= 0x1_0000_0000_0000,
    {
        let shift = self.index_shift(level);
        proof {
            lemma_span_bounds(self.mode, level as nat);
            lemma_u64_shl_is_mul(1, shift);
        }
        1u64 << shift
    }

    /// The index into the table of `level` that `virtual_address` selects.
    pub fn table_index(&self, virtual_address: u64, level: u64) -> (index: u64)
        requires
            level < self.mode.level_count(),
        ensures
            index == self.mode.table_index(virtual_address, level as nat),
            index < self.mode.entry_count(),
    {
        proof {
            lemma_entry_count(self.mode);
        }
        extract_bits(virtual_address, self.index_shift(level), self.index_width())
    }

    /// The part of `virtual_address` below the index field of `level`.
    pub fn span_offset(&self, virtual_address: u64, level: u64) -> (offset: u64)
        requires
            level < self.mode.level_count(),
        ensures
            offset == self.mode.span_offset(virtual_address, level as nat),
            offset < self.mode.span(level as nat),
    {
        extract_bits(virtual_address, 0, self.index_shift(level))
    }

    /// Decodes a raw table entry as this mode lays it out.
    pub fn decode_entry(&self, raw: u64) -> (entry: PageTableEntry)
        ensures
            entry == PageTableEntry::spec_decode(raw, self.mode),
            entry.address < 0x100_0000_0000_0000,
            entry.address % 4096 == 0,
    {
        PageTableEntry::decode(raw, self.mode)
    }

    /// Whether `entry` may stand as a leaf in a table of `level`.
    pub fn is_aligned(&self, entry: &PageTableEntry, level: u64) -> (aligned: bool)
        requires
            level < self.mode.level_count(),
        ensures
            aligned == entry.spec_is_aligned(self.mode, level as nat),
    {
        entry.address % self.span(level) == 0
    }
}

/// Represents a RISC-V CPU.
#[derive(Debug, Clone, PartialEq, Eq, Hash, PartialOrd, Ord)]
pub struct CPU {
    pub registers: Vec<CPURegister>,
}

impl CPU {
    pub fn new() -> (cpu: Self)
        ensures
            cpu.registers@ == Seq::<CPURegister>::empty(),
    {
        CPU { registers: Vec::new() }
    }
}

impl Default for CPU {
    fn default() -> (cpu: Self)
        ensures
            cpu.registers@ == Seq::<CPURegister>::empty(),
    {
        CPU::new()
    }
}

} // verus!
