//! Architecture-independent description of a machine: its physical memory
//! regions, its kind and the files that belong to it.

use crate::architecture::riscv::MMUMode;
use std::hash::Hash;
use std::path::PathBuf;
use vstd::prelude::*;

verus! {

/// `std::path::PathBuf`, carried through as an opaque value.
#[verifier::external_type_specification]
#[verifier::external_body]
pub struct ExPathBuf(PathBuf);

/// `PathBuf::clone` returns a path equal to the one it was given.
pub assume_specification[ <PathBuf as Clone>::clone ](path: &PathBuf) -> (copy: PathBuf)
    ensures
        copy == *path,
;

/// `PathBuf::new` returns a path. Nothing is claimed of it.
pub assume_specification[ PathBuf::new ]() -> (path: PathBuf)
;

/// `anyhow::Error`, carried through as an opaque value.
#[verifier::external_type_specification]
#[verifier::external_body]
pub struct ExAnyhowError(anyhow::Error);

/// Why a machine description was refused.
#[derive(Debug, Clone, Copy, PartialEq, Eq, Structural, Hash)]
pub enum ConfigError {
    /// A memory region overlaps one that was declared before it.
    Overlap,
    /// A memory region whose start is not below its end.
    InvalidRange,
    /// A paging mode name that is none of `SV32`, `SV39`, `SV48`.
    UnsupportedMode,
    /// A configuration file that is not TOML.
    UnsupportedFileFormat,
}

/// Enumerates types of memory regions.
#[derive(Debug, Clone, Copy, PartialEq, Eq, Structural, Hash)]
pub enum MemoryRegionType {
    RAM,
    ROM,
}

impl Default for MemoryRegionType {
    fn default() -> (region_type: Self)
        ensures
            region_type == MemoryRegionType::RAM,
    {
        MemoryRegionType::RAM
    }
}

/// A half-open range `[start_address, end_address)` of physical addresses.
#[derive(Debug, Clone, Copy, PartialEq, Eq, Structural, Hash)]
pub struct MemoryRegion {
    pub region_type: MemoryRegionType,
    pub start_address: u64,
    pub end_address: u64,
}

impl MemoryRegion {
    /// A region is well formed when it holds at least one address.
    pub open spec fn wf(&self) -> bool {
        self.start_address < self.end_address
    }

    /// The number of addresses in the region.
    pub open spec fn spec_size(&self) -> nat {
        if self.start_address <= self.end_address {
            (self.end_address - self.start_address) as nat
        } else {
            0
        }
    }

    /// Whether `address` lies in the region.
    pub open spec fn spec_contains(&self, address: u64) -> bool {
        self.start_address <= address < self.end_address
    }

    /// Two regions overlap when the start of either lies inside the other.
    pub open spec fn spec_is_overlapping(&self, other: &MemoryRegion) -> bool {
        self.spec_contains(other.start_address) || other.spec_contains(self.start_address)
    }

    /// Two regions are adjacent when one ends where the other starts.
    pub open spec fn spec_is_adjacent(&self, other: &MemoryRegion) -> bool {
        self.start_address == other.end_address || other.start_address == self.end_address
    }

    /// Builds a region, refusing an empty or inverted range.
    pub fn new(region_type: MemoryRegionType, start_address: u64, end_address: u64) -> (result:
        Result<Self, ConfigError>)
        ensures
            start_address < end_address ==> result == Ok::<MemoryRegion, ConfigError>(
                MemoryRegion { region_type, start_address, end_address },
            ),
            start_address >= end_address ==> result == Err::<MemoryRegion, ConfigError>(
                ConfigError::InvalidRange,
            ),
            result matches Ok(region) ==> region.wf(),
    {
        if start_address >= end_address {
            return Err(ConfigError::InvalidRange);
        }
        Ok(MemoryRegion { region_type, start_address, end_address })
    }

    /// Returns the size of the memory region.
    pub fn size(&self) -> (size: u64)
        requires
            self.wf(),
        ensures
            size == self.spec_size(),
            size > 0,
    {
        self.end_address - self.start_address
    }

    /// Returns true if the memory region contains the address.
    #[verifier::when_used_as_spec(spec_contains)]
    pub fn contains(&self, address: u64) -> (found: bool)
        ensures
            found == self.spec_contains(address),
    {
        self.start_address <= address && address < self.end_address
    }

    /// Returns true if the two memory regions are overlapping.
    #[verifier::when_used_as_spec(spec_is_overlapping)]
    pub fn is_overlapping(&self, other: &MemoryRegion) -> (overlapping: bool)
        ensures
            overlapping == self.spec_is_overlapping(other),
    {
        self.contains(other.start_address) || other.contains(self.start_address)
    }

    /// Returns true if the two memory regions are adjacent.
    #[verifier::when_used_as_spec(spec_is_adjacent)]
    pub fn is_adjacent(&self, other: &MemoryRegion) -> (adjacent: bool)
        ensures
            adjacent == self.spec_is_adjacent(other),
    {
        self.start_address == other.end_address || other.start_address == self.end_address
    }
}

/// A well-formed region contains its first address, and no region
/// contains the address at which it ends.
pub proof fn lemma_region_contains_bounds(region: MemoryRegion)
    requires
        region.wf(),
    ensures
        region.spec_contains(region.start_address),
        !region.spec_contains(region.end_address),
{
}

/// The physical memory of a machine: its regions in the order in which
/// they were declared.
#[derive(Debug, Clone, PartialEq, Eq, Hash)]
pub struct MemorySpace {
    pub regions: Vec<MemoryRegion>,
}

impl View for MemorySpace {
    type V = Seq<MemoryRegion>;

    open spec fn view(&self) -> Seq<MemoryRegion> {
        self.regions@
    }
}

/// Whether `region` overlaps a member of `regions`.
pub open spec fn overlaps_any(regions: Seq<MemoryRegion>, region: MemoryRegion) -> bool {
    exists|i: int| 0 <= i < regions.len() && (#[trigger] regions[i]).spec_is_overlapping(&region)
}

/// No two members of `regions` overlap.
pub open spec fn pairwise_disjoint(regions: Seq<MemoryRegion>) -> bool {
    forall|i: int, j: int|
        #![trigger regions[i], regions[j]]
        0 <= i < j < regions.len() ==> !regions[i].spec_is_overlapping(&regions[j])
}

impl Default for MemorySpace {
    fn default() -> (space: Self)
        ensures
            space@ == Seq::<MemoryRegion>::empty(),
            space.wf(),
    {
        MemorySpace { regions: Vec::new() }
    }
}

impl MemorySpace {
    /// The invariant of a memory space: no two of its regions overlap.
    pub open spec fn wf(&self) -> bool {
        pairwise_disjoint(self@)
    }

    pub fn new() -> (space: Self)
        ensures
            space@ == Seq::<MemoryRegion>::empty(),
            space.wf(),
    {
        MemorySpace { regions: Vec::new() }
    }

    /// Appends `region` unless it overlaps a region that is already there,
    /// in which case the space is left as it was.
    ///
    /// On success the space itself is handed back, so that calls can be
    /// chained.
    pub fn add(&mut self, region: MemoryRegion) -> (result: Result<&mut Self, ConfigError>)
        ensures
            overlaps_any(old(self)@, region) ==> result == Err::<&mut Self, ConfigError>(
                ConfigError::Overlap,
            ) && *final(self) == *old(self),
            !overlaps_any(old(self)@, region) ==> (result matches Ok(space) && space@ == old(
                self,
            )@.push(region) && (old(self).wf() ==> space.wf()) && *final(self) == *final(space)),
    {
        let mut i: usize = 0;
        while i < self.regions.len()
            invariant
                i <= self.regions.len(),
                *self == *old(self),
                forall|k: int| 0 <= k < i ==> !(#[trigger] self@[k]).spec_is_overlapping(&region),
            decreases self.regions.len() - i,
        {
            if self.regions[i].is_overlapping(&region) {
                return Err(ConfigError::Overlap);
            }
            i += 1;
        }
        self.regions.push(region);
        Ok(self)
    }
}

/// What a memory access asks of a mapping.
#[derive(Debug, Clone, Copy, PartialEq, Eq, Structural, Hash)]
pub enum Access {
    Read,
    Write,
    Execute,
}

/// What a mapping allows.
#[derive(Debug, Clone, Copy, PartialEq, Eq, Structural, Hash)]
pub struct Permissions {
    pub readable: bool,
    pub writable: bool,
    pub executable: bool,
    pub user: bool,
}

impl Permissions {
    /// Whether an access of the given kind is allowed.
    pub open spec fn spec_allows(&self, access: Access) -> bool {
        match access {
            Access::Read => self.readable,
            Access::Write => self.writable,
            Access::Execute => self.executable,
        }
    }

    #[verifier::when_used_as_spec(spec_allows)]
    pub fn allows(&self, access: Access) -> (allowed: bool)
        ensures
            allowed == self.spec_allows(access),
    {
        match access {
            Access::Read => self.readable,
            Access::Write => self.writable,
            Access::Execute => self.executable,
        }
    }
}

/// Represents a CPU register with a value.
/// Depending on the architecture, the *validity* changes.
pub trait CPURegister {
    type Value: Hash + Eq + Copy + Default;

    fn is_valid(&self) -> Result<Self::Value, anyhow::Error>;
}

/// Represents a page table entry with an address and flags.
/// It holds the mapping between a virtual address of a page and the address of a physical frame.
/// There is also auxiliary information about the page such as a present bit, a dirty or modified bit,
/// address space or process ID information, amongst others.
pub trait PageTableEntry {
    type Address: Hash + Eq + Copy + Default;

    type Flags: Hash + Eq + Copy + Default;

    fn is_dirty(&self) -> bool;

    fn is_accessed(&self) -> bool;

    fn is_global(&self) -> bool;

    fn is_readable(&self) -> bool;

    fn is_writable(&self) -> bool;

    fn is_executable(&self) -> bool;
}

/// Represents a page table with entries.
pub trait PageTable {
    type Entries: Hash + Eq + Copy + Default + PageTableEntry;
}

/// Enumerates types of supported machines.
/// This enum is used to specify the type of machine that is being parsed.
#[derive(Debug, Clone, Copy, PartialEq, Eq, Structural, Hash)]
pub enum MachineType {
    RiscV(MMUMode),
}

impl Default for MachineType {
    fn default() -> (machine_type: Self)
        ensures
            machine_type == MachineType::RiscV(MMUMode::SV32),
    {
        MachineType::RiscV(MMUMode::SV32)
    }
}

/// Represents a machine with a type, its memory regions, the root of its
/// page tables and the files that belong to it.
#[derive(Debug, Clone, PartialEq, Eq, Hash)]
pub struct Machine {
    /// Type of the machine and its associated MMU mode.
    pub machine_type: MachineType,
    /// Memory regions of the machine.
    pub memory_regions: MemorySpace,
    /// Path to the dump file.
    pub dumpfile: PathBuf,
    /// Path to the output folder.
    pub outfolder: PathBuf,
    /// Physical address of the root page table.
    pub root_table_address: u64,
}

impl Default for Machine {
    /// An Sv32 machine without memory, with empty paths and its root table
    /// at address 0.
    fn default() -> (machine: Self)
        ensures
            machine.machine_type == MachineType::RiscV(MMUMode::SV32),
            machine.memory_regions@ == Seq::<MemoryRegion>::empty(),
            machine.root_table_address == 0,
    {
        Machine {
            machine_type: MachineType::RiscV(MMUMode::SV32),
            memory_regions: MemorySpace::new(),
            dumpfile: PathBuf::new(),
            outfolder: PathBuf::new(),
            root_table_address: 0,
        }
    }
}

impl Machine {
    pub fn new(
        machine_type: MachineType,
        memory_regions: MemorySpace,
        dumpfile: PathBuf,
        outfolder: PathBuf,
        root_table_address: u64,
    ) -> (machine: Self)
        ensures
            machine == (Machine {
                machine_type,
                memory_regions,
                dumpfile,
                outfolder,
                root_table_address,
            }),
    {
        Machine { machine_type, memory_regions, dumpfile, outfolder, root_table_address }
    }

    /// The paging mode that the machine's page tables are written in.
    pub open spec fn spec_mode(&self) -> MMUMode {
        match self.machine_type {
            MachineType::RiscV(mode) => mode,
        }
    }

    #[verifier::when_used_as_spec(spec_mode)]
    pub fn mode(&self) -> (mode: MMUMode)
        ensures
            mode == self.spec_mode(),
    {
        match self.machine_type {
            MachineType::RiscV(mode) => mode,
        }
    }
}

} // verus!
