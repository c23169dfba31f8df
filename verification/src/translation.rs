//! The page table walk: from a virtual address to the physical address
//! that the guest's page tables map it to.

use crate::architecture::generic::{Access, Permissions};
use crate::architecture::riscv::{lemma_span_bounds, EntryKind, MMUMode, PageTableEntry, MMU};
use crate::memory::{lemma_first_covering, AccessError, MemoryView, PhysicalMemoryAccessor};
use vstd::arithmetic::div_mod::lemma_div_denominator;
use vstd::arithmetic::power2::*;
use vstd::prelude::*;

verus! {

/// Why the page tables do not map an address.
#[derive(Debug, Clone, Copy, PartialEq, Eq, Structural, Hash)]
pub enum TranslationFault {
    /// The entry for the address is not valid.
    NotPresent,
    /// The mapping does not allow the access that was asked for.
    PermissionDenied,
    /// A leaf above level 0 whose physical address is not a multiple of
    /// what it covers.
    MisalignedSuperpage,
    /// An entry in an encoding that the architecture reserves: a pointer
    /// with the accessed or the dirty bit set, or a pointer in a table of
    /// level 0, below which there is no table.
    ReservedBitViolation,
}

/// Why an address could not be translated.
#[derive(Debug, Clone, Copy, PartialEq, Eq, Structural, Hash)]
pub enum TranslationError {
    /// The page tables do not map the address.
    Fault(TranslationFault),
    /// A table entry on the way could not be read from the dump.
    Access(AccessError),
}

/// A resolved address with what its mapping allows.
#[derive(Debug, Clone, Copy, PartialEq, Eq, Structural, Hash)]
pub struct Translation {
    pub physical_address: u64,
    pub permissions: Permissions,
}

/// The number that `bytes` hold in little-endian order.
pub open spec fn le_value(bytes: Seq<u8>) -> nat
    decreases bytes.len(),
{
    if bytes.len() == 0 {
        0
    } else {
        bytes[0] as nat + 256 * le_value(bytes.drop_first())
    }
}

/// A little-endian number of `n` bytes is below `2^(8n)`.
pub proof fn lemma_le_value_bound(bytes: Seq<u8>)
    ensures
        le_value(bytes) < pow2(8 * bytes.len()),
    decreases bytes.len(),
{
    lemma2_to64();
    if bytes.len() > 0 {
        lemma_le_value_bound(bytes.drop_first());
        lemma_pow2_adds(8, 8 * bytes.drop_first().len());
    }
}

/// Reads a little-endian number of at most eight bytes.
pub fn le_decode(bytes: &[u8]) -> (value: u64)
    requires
        bytes@.len() <= 8,
    ensures
        value == le_value(bytes@),
{
    let length = bytes.len();
    let mut value: u64 = 0;
    let mut i = length;
    while i > 0
        invariant
            i <= length <= 8,
            length == bytes@.len(),
            value == le_value(bytes@.subrange(i as int, length as int)),
        decreases i,
    {
        i -= 1;
        proof {
            let rest = bytes@.subrange(i as int + 1, length as int);
            let from_here = bytes@.subrange(i as int, length as int);
            assert(from_here.drop_first() =~= rest);
            lemma_le_value_bound(rest);
            lemma_le_value_bound(from_here);
            lemma2_to64();
            if from_here.len() < 8 {
                lemma_pow2_strictly_increases(8 * from_here.len(), 64);
            }
        }
        value = value * 256 + bytes[i] as u64;
    }
    proof {
        assert(bytes@.subrange(0, length as int) =~= bytes@);
    }
    value
}

/// The raw entry at position `index` of the table at `table`.
pub open spec fn table_entry(memory: MemoryView, mode: MMUMode, table: u64, index: nat) -> Result<
    u64,
    AccessError,
> {
    match memory.read(table as nat + mode.entry_offset(index), mode.entry_size()) {
        Ok(bytes) => Ok(le_value(bytes) as u64),
        Err(error) => Err(error),
    }
}

/// Where the walk for an address comes to rest.
pub enum Landing {
    /// At an entry of a table of `level` that does not lead further down:
    /// anything but a pointer, or a pointer in a table of level 0.
    Entry { level: nat, entry: PageTableEntry },
    /// At an entry of a table of `level` that could not be read.
    Unreadable { level: nat, error: AccessError },
}

impl Landing {
    /// Level of the table in which the walk came to rest.
    pub open spec fn level(self) -> nat {
        match self {
            Landing::Entry { level, .. } => level,
            Landing::Unreadable { level, .. } => level,
        }
    }
}

/// Where the walk for `virtual_address` comes to rest when it starts in the
/// table of `level` at `table`.
pub open spec fn landing(
    memory: MemoryView,
    mode: MMUMode,
    table: u64,
    virtual_address: u64,
    level: nat,
) -> Landing
    decreases level,
{
    match table_entry(memory, mode, table, mode.table_index(virtual_address, level)) {
        Err(error) => Landing::Unreadable { level, error },
        Ok(raw) => {
            let entry = PageTableEntry::spec_decode(raw, mode);
            if entry.spec_kind() == EntryKind::Pointer && level > 0 {
                landing(memory, mode, entry.address, virtual_address, (level - 1) as nat)
            } else {
                Landing::Entry { level, entry }
            }
        },
    }
}

/// What the entry at which the walk came to rest, in a table of `level`,
/// means for an access to `virtual_address`.
///
/// Alignment is judged before permission. A leaf that passes both maps
/// the address to its own physical address plus the part of the virtual
/// address below the index field of its level; the leaf being aligned,
/// the two have no bit in common.
pub open spec fn judge(
    mode: MMUMode,
    level: nat,
    entry: PageTableEntry,
    virtual_address: u64,
    access: Access,
) -> Result<Translation, TranslationFault> {
    match entry.spec_kind() {
        EntryKind::NotPresent => Err(TranslationFault::NotPresent),
        EntryKind::Reserved | EntryKind::Pointer => Err(TranslationFault::ReservedBitViolation),
        EntryKind::Leaf => if !entry.spec_is_aligned(mode, level) {
            Err(TranslationFault::MisalignedSuperpage)
        } else if !entry.spec_permissions().spec_allows(access) {
            Err(TranslationFault::PermissionDenied)
        } else {
            Ok(
                Translation {
                    physical_address: (entry.address + mode.span_offset(virtual_address, level)) as u64,
                    permissions: entry.spec_permissions(),
                },
            )
        },
    }
}

/// The result of a walk that came to rest at `landing`.
pub open spec fn outcome(mode: MMUMode, landing: Landing, virtual_address: u64, access: Access) -> Result<
    Translation,
    TranslationError,
> {
    match landing {
        Landing::Unreadable { error, .. } => Err(TranslationError::Access(error)),
        Landing::Entry { level, entry } => match judge(mode, level, entry, virtual_address, access) {
            Ok(translation) => Ok(translation),
            Err(fault) => Err(TranslationError::Fault(fault)),
        },
    }
}

/// The result of the walk for `virtual_address` that starts in the table
/// of `level` at `table`.
pub open spec fn walk(
    memory: MemoryView,
    mode: MMUMode,
    table: u64,
    level: nat,
    virtual_address: u64,
    access: Access,
) -> Result<Translation, TranslationError> {
    outcome(mode, landing(memory, mode, table, virtual_address, level), virtual_address, access)
}

/// What the page tables rooted at `root` make of an access to
/// `virtual_address`: the result of the walk that starts in the root
/// table, which is of the highest level.
pub open spec fn spec_translate(
    memory: MemoryView,
    mode: MMUMode,
    root: u64,
    virtual_address: u64,
    access: Access,
) -> Result<Translation, TranslationError> {
    walk(memory, mode, root, (mode.level_count() - 1) as nat, virtual_address, access)
}

/// Whether two virtual addresses lie in the same stretch of addresses
/// that a single entry of a table of `level` stands for.
pub open spec fn in_same_span(mode: MMUMode, level: nat, a: u64, b: u64) -> bool {
    a as nat / mode.span(level) == b as nat / mode.span(level)
}

/// A walk that selects an entry that is not valid ends in `NotPresent`.
pub proof fn lemma_walk_not_present(
    memory: MemoryView,
    mode: MMUMode,
    table: u64,
    level: nat,
    virtual_address: u64,
    access: Access,
)
    requires
        table_entry(memory, mode, table, mode.table_index(virtual_address, level)) matches Ok(raw)
            && !PageTableEntry::spec_decode(raw, mode).spec_is_valid(),
    ensures
        walk(memory, mode, table, level, virtual_address, access) == Err::<
            Translation,
            TranslationError,
        >(TranslationError::Fault(TranslationFault::NotPresent)),
{
}

/// A walk that selects a pointer with the accessed or the dirty bit set
/// ends in `ReservedBitViolation`, whatever the pointer points at and
/// whatever access is asked for.
pub proof fn lemma_walk_reserved_pointer(
    memory: MemoryView,
    mode: MMUMode,
    table: u64,
    level: nat,
    virtual_address: u64,
    access: Access,
)
    requires
        table_entry(memory, mode, table, mode.table_index(virtual_address, level)) matches Ok(raw)
            && ({
            let entry = PageTableEntry::spec_decode(raw, mode);
            &&& entry.spec_is_valid()
            &&& !entry.spec_is_readable() && !entry.spec_is_writable()
                && !entry.spec_is_executable()
            &&& entry.spec_is_accessed() || entry.spec_is_dirty()
        }),
    ensures
        walk(memory, mode, table, level, virtual_address, access) == Err::<
            Translation,
            TranslationError,
        >(TranslationError::Fault(TranslationFault::ReservedBitViolation)),
{
}

/// A walk that selects a well-formed pointer above level 0 goes on in the
/// table that the pointer points at.
pub proof fn lemma_walk_descends(
    memory: MemoryView,
    mode: MMUMode,
    table: u64,
    level: nat,
    virtual_address: u64,
    access: Access,
)
    requires
        level > 0,
        table_entry(memory, mode, table, mode.table_index(virtual_address, level)) matches Ok(raw)
            && PageTableEntry::spec_decode(raw, mode).spec_kind() == EntryKind::Pointer,
    ensures
        walk(memory, mode, table, level, virtual_address, access) == walk(
            memory,
            mode,
            PageTableEntry::spec_decode(
                table_entry(
                    memory,
                    mode,
                    table,
                    mode.table_index(virtual_address, level),
                )->Ok_0,
                mode,
            ).address,
            (level - 1) as nat,
            virtual_address,
            access,
        ),
{
}

/// A walk comes to rest at or below the level at which it starts.
pub proof fn lemma_landing_level(
    memory: MemoryView,
    mode: MMUMode,
    table: u64,
    virtual_address: u64,
    level: nat,
)
    ensures
        landing(memory, mode, table, virtual_address, level).level() <= level,
    decreases level,
{
    match table_entry(memory, mode, table, mode.table_index(virtual_address, level)) {
        Err(_) => {},
        Ok(raw) => {
            let entry = PageTableEntry::spec_decode(raw, mode);
            if entry.spec_kind() == EntryKind::Pointer && level > 0 {
                lemma_landing_level(memory, mode, entry.address, virtual_address, (level - 1) as nat);
            }
        },
    }
}

/// Addresses in the same span of `level` select the same entry in the
/// tables of `level` and of every level above it.
pub proof fn lemma_same_span_same_index(mode: MMUMode, level: nat, upper: nat, a: u64, b: u64)
    requires
        in_same_span(mode, level, a, b),
        level <= upper,
    ensures
        mode.table_index(a, upper) == mode.table_index(b, upper),
{
    let low = mode.index_shift(level);
    let gap = (mode.index_shift(upper) - low) as nat;
    lemma_pow2_adds(low, gap);
    lemma_pow2_pos(low);
    lemma_pow2_pos(gap);
    lemma_div_denominator(a as int, pow2(low) as int, pow2(gap) as int);
    lemma_div_denominator(b as int, pow2(low) as int, pow2(gap) as int);
}

/// The walks for two addresses in the same span of the level at which the
/// first comes to rest come to rest at the same entry.
pub proof fn lemma_landing_same_span(
    memory: MemoryView,
    mode: MMUMode,
    table: u64,
    level: nat,
    a: u64,
    b: u64,
)
    requires
        in_same_span(mode, landing(memory, mode, table, a, level).level(), a, b),
    ensures
        landing(memory, mode, table, b, level) == landing(memory, mode, table, a, level),
    decreases level,
{
    let rest = landing(memory, mode, table, a, level).level();
    lemma_landing_level(memory, mode, table, a, level);
    lemma_same_span_same_index(mode, rest, level, a, b);
    match table_entry(memory, mode, table, mode.table_index(a, level)) {
        Err(_) => {},
        Ok(raw) => {
            let entry = PageTableEntry::spec_decode(raw, mode);
            if entry.spec_kind() == EntryKind::Pointer && level > 0 {
                lemma_landing_same_span(memory, mode, entry.address, (level - 1) as nat, a, b);
            }
        },
    }
}

/// A leaf whose physical address is aligned to what it covers maps every
/// address of its span, at the same distance from the start of the span
/// in physical as in virtual memory. This holds of a superpage as of a
/// base page.
pub proof fn lemma_leaf_maps_whole_span(
    memory: MemoryView,
    mode: MMUMode,
    root: u64,
    level: nat,
    entry: PageTableEntry,
    inside: u64,
    other: u64,
    access: Access,
)
    requires
        landing(memory, mode, root, inside, (mode.level_count() - 1) as nat) == (Landing::Entry {
            level,
            entry,
        }),
        entry.spec_kind() == EntryKind::Leaf,
        entry.spec_is_aligned(mode, level),
        in_same_span(mode, level, inside, other),
    ensures
        spec_translate(memory, mode, root, other, access) == if entry.spec_permissions().spec_allows(
            access,
        ) {
            Ok::<Translation, TranslationError>(
                Translation {
                    physical_address: (entry.address + other as nat % mode.span(level)) as u64,
                    permissions: entry.spec_permissions(),
                },
            )
        } else {
            Err::<Translation, TranslationError>(
                TranslationError::Fault(TranslationFault::PermissionDenied),
            )
        },
{
    lemma_landing_same_span(memory, mode, root, (mode.level_count() - 1) as nat, inside, other);
    lemma2_to64();
}

/// A leaf whose physical address is not aligned to what it covers yields
/// `MisalignedSuperpage` for every address of its span and every kind of
/// access.
pub proof fn lemma_misaligned_leaf_faults_whole_span(
    memory: MemoryView,
    mode: MMUMode,
    root: u64,
    level: nat,
    entry: PageTableEntry,
    inside: u64,
    other: u64,
    access: Access,
)
    requires
        landing(memory, mode, root, inside, (mode.level_count() - 1) as nat) == (Landing::Entry {
            level,
            entry,
        }),
        entry.spec_kind() == EntryKind::Leaf,
        !entry.spec_is_aligned(mode, level),
        in_same_span(mode, level, inside, other),
    ensures
        spec_translate(memory, mode, root, other, access) == Err::<Translation, TranslationError>(
            TranslationError::Fault(TranslationFault::MisalignedSuperpage),
        ),
{
    lemma_landing_same_span(memory, mode, root, (mode.level_count() - 1) as nat, inside, other);
}

/// Nothing that reaches beyond the 64-bit physical address space can be
/// read.
pub proof fn lemma_read_beyond_address_space(memory: MemoryView, address: nat, length: nat)
    requires
        address + length > u64::MAX,
    ensures
        memory.read(address, length) == Err::<Seq<u8>, AccessError>(AccessError::OutOfRange),
{
    lemma_first_covering(memory.regions, address, length, 0);
}

/// Walks the page tables of one paging mode over one dump.
#[derive(Clone, Copy)]
pub struct RadixPageTableWalker<'a> {
    pub mmu: MMU,
    pub memory: PhysicalMemoryAccessor<'a>,
}

impl<'a> RadixPageTableWalker<'a> {
    /// The paging mode whose tables are walked.
    pub open spec fn mode(&self) -> MMUMode {
        self.mmu.mode
    }

    /// The physical memory that holds the tables.
    pub open spec fn memory(&self) -> MemoryView {
        self.memory@
    }

    pub fn new(mmu: MMU, memory: PhysicalMemoryAccessor<'a>) -> (walker: Self)
        ensures
            walker.mmu == mmu,
            walker.memory == memory,
    {
        RadixPageTableWalker { mmu, memory }
    }

    /// Reads the raw entry at position `index` of the table at `table`.
    pub fn read_entry(&self, table: u64, index: u64) -> (result: Result<u64, AccessError>)
        requires
            index < self.mode().entry_count(),
        ensures
            result == table_entry(self.memory(), self.mode(), table, index as nat),
    {
        let offset = self.mmu.entry_offset(index);
        let size = self.mmu.entry_size();
        match table.checked_add(offset) {
            None => {
                proof {
                    lemma_read_beyond_address_space(
                        self.memory(),
                        table as nat + self.mode().entry_offset(index as nat),
                        self.mode().entry_size(),
                    );
                }
                Err(AccessError::OutOfRange)
            },
            Some(address) => match self.memory.read(address, size) {
                Err(error) => Err(error),
                Ok(bytes) => {
                    proof {
                        lemma_le_value_bound(bytes@);
                        lemma2_to64();
                        if bytes@.len() < 8 {
                            lemma_pow2_strictly_increases(8 * bytes@.len(), 64);
                        }
                    }
                    Ok(le_decode(bytes))
                },
            },
        }
    }

    /// Says what the entry at which a walk came to rest means for an
    /// access to `virtual_address`.
    pub fn judge_entry(
        &self,
        level: u64,
        entry: &PageTableEntry,
        virtual_address: u64,
        access: Access,
    ) -> (result: Result<Translation, TranslationFault>)
        requires
            level < self.mode().level_count(),
            entry.address < 0x100_0000_0000_0000,
        ensures
            result == judge(self.mode(), level as nat, *entry, virtual_address, access),
    {
        match entry.kind() {
            EntryKind::NotPresent => Err(TranslationFault::NotPresent),
            EntryKind::Reserved | EntryKind::Pointer => Err(TranslationFault::ReservedBitViolation),
            EntryKind::Leaf => {
                let permissions = entry.permissions();
                if !self.mmu.is_aligned(entry, level) {
                    Err(TranslationFault::MisalignedSuperpage)
                } else if !permissions.allows(access) {
                    Err(TranslationFault::PermissionDenied)
                } else {
                    proof {
                        lemma_span_bounds(self.mode(), level as nat);
                    }
                    let offset = self.mmu.span_offset(virtual_address, level);
                    Ok(Translation { physical_address: entry.address + offset, permissions })
                }
            },
        }
    }

    /// Translates `virtual_address` through the page tables rooted at
    /// `root`, for an access of kind `access`.
    ///
    /// The walk reads one entry per level, from the top level down, and
    /// never more entries than the mode has levels.
    pub fn translate(&self, root: u64, virtual_address: u64, access: Access) -> (result: Result<
        Translation,
        TranslationError,
    >)
        ensures
            result == spec_translate(self.memory(), self.mode(), root, virtual_address, access),
    {
        let levels = self.mmu.level_count();
        let mut table = root;
        let mut level = levels - 1;
        let mut steps: u64 = 0;
        while steps < levels
            invariant
                levels == self.mode().level_count(),
                steps + level + 1 == levels,
                landing(
                    self.memory(),
                    self.mode(),
                    root,
                    virtual_address,
                    (levels - 1) as nat,
                ) == landing(self.memory(), self.mode(), table, virtual_address, level as nat),
            decreases levels - steps,
        {
            let index = self.mmu.table_index(virtual_address, level);
            let raw = match self.read_entry(table, index) {
                Ok(raw) => raw,
                Err(error) => {
                    return Err(TranslationError::Access(error));
                },
            };
            let entry = self.mmu.decode_entry(raw);
            if level > 0 && entry.kind() == EntryKind::Pointer {
                table = entry.address;
                level -= 1;
                steps += 1;
            } else {
                return match self.judge_entry(level, &entry, virtual_address, access) {
                    Ok(translation) => Ok(translation),
                    Err(fault) => Err(TranslationError::Fault(fault)),
                };
            }
        }
        Err(TranslationError::Fault(TranslationFault::ReservedBitViolation))
    }
}

} // verus!
