//! The configuration of a machine as it is written down in a file, before
//! anything in it has been checked.

use crate::architecture::generic::MemoryRegionType;
use crate::architecture::riscv::MMUMode;
use vstd::prelude::*;

verus! {

/// Represents the main configuration for a machine.
///
/// - `mmu_mode`: the name of the MMU mode, if one is given.
/// - `memspaces`: the memory regions, in the order of their declaration.
/// - `dumpfile`: path to the dump file, if one is given.
/// - `outfile`: path to the output file, if one is given.
#[derive(Debug, Clone)]
pub struct MachineConfig {
    pub mmu_mode: Option<String>,
    pub memspaces: Vec<MemorySpace>,
    pub dumpfile: Option<String>,
    pub outfile: Option<String>,
}

impl Default for MachineConfig {
    fn default() -> (config: Self)
        ensures
            config.mmu_mode is None,
            config.memspaces@ == Seq::<MemorySpace>::empty(),
            config.dumpfile is None,
            config.outfile is None,
    {
        MachineConfig { mmu_mode: None, memspaces: Vec::new(), dumpfile: None, outfile: None }
    }
}

/// Defines a memory space with a type and address range.
#[derive(Debug, Clone, Copy, PartialEq, Eq, Structural)]
pub struct MemorySpace {
    pub space_type: SpaceType,
    pub start_address: u64,
    pub end_address: u64,
}

/// Enumerates types of memory spaces.
#[derive(Debug, Clone, Copy, PartialEq, Eq, Structural)]
pub enum SpaceType {
    RAM,
    ROM,
}

impl SpaceType {
    /// The kind of memory region that this kind of space is.
    pub open spec fn spec_region_type(self) -> MemoryRegionType {
        match self {
            SpaceType::RAM => MemoryRegionType::RAM,
            SpaceType::ROM => MemoryRegionType::ROM,
        }
    }

    #[verifier::when_used_as_spec(spec_region_type)]
    pub fn region_type(self) -> (region_type: MemoryRegionType)
        ensures
            region_type == self.spec_region_type(),
    {
        match self {
            SpaceType::RAM => MemoryRegionType::RAM,
            SpaceType::ROM => MemoryRegionType::ROM,
        }
    }
}

/// Enumerates RISC-V MMU modes by the names that a configuration gives
/// them.
#[derive(Debug, Clone, Copy, PartialEq, Eq, Structural)]
pub enum RiscVMMUMode {
    SV32,
    SV39,
    SV48,
}

impl RiscVMMUMode {
    /// The paging mode that the name stands for.
    pub open spec fn spec_mode(self) -> MMUMode {
        match self {
            RiscVMMUMode::SV32 => MMUMode::SV32,
            RiscVMMUMode::SV39 => MMUMode::SV39,
            RiscVMMUMode::SV48 => MMUMode::SV48,
        }
    }

    #[verifier::when_used_as_spec(spec_mode)]
    pub fn mode(self) -> (mode: MMUMode)
        ensures
            mode == self.spec_mode(),
    {
        match self {
            RiscVMMUMode::SV32 => MMUMode::SV32,
            RiscVMMUMode::SV39 => MMUMode::SV39,
            RiscVMMUMode::SV48 => MMUMode::SV48,
        }
    }
}

} // verus!
