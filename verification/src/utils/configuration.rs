//! Validation of a machine's configuration.
//!
//! A configuration is accepted when its paging mode, if it names one, is a
//! mode that the library knows, and when its memory spaces are ranges
//! that hold at least one address and do not overlap.

pub use crate::config_struct::{MachineConfig, MemorySpace, RiscVMMUMode, SpaceType};

use crate::architecture::generic::{
    overlaps_any, ConfigError, MemoryRegion, MemorySpace as PhysicalMemory,
};
use vstd::prelude::*;

verus! {

/// The paging mode that `name` stands for, if it stands for one.
pub open spec fn mode_of_name(name: Seq<char>) -> Option<RiscVMMUMode> {
    if name == "SV32"@ {
        Some(RiscVMMUMode::SV32)
    } else if name == "SV39"@ {
        Some(RiscVMMUMode::SV39)
    } else if name == "SV48"@ {
        Some(RiscVMMUMode::SV48)
    } else {
        None
    }
}

/// The memory region that a memory space of a configuration describes.
pub open spec fn region_of(space: MemorySpace) -> MemoryRegion {
    MemoryRegion {
        region_type: space.space_type.spec_region_type(),
        start_address: space.start_address,
        end_address: space.end_address,
    }
}

/// The memory regions that the memory spaces of a configuration describe.
pub open spec fn regions_of(spaces: Seq<MemorySpace>) -> Seq<MemoryRegion> {
    Seq::new(spaces.len(), |i: int| region_of(spaces[i]))
}

/// What is wrong with the memory space at position `index`, given those
/// before it: its range is empty or inverted, or else it overlaps one of
/// them.
pub open spec fn space_error(spaces: Seq<MemorySpace>, index: int) -> Option<ConfigError> {
    if spaces[index].start_address >= spaces[index].end_address {
        Some(ConfigError::InvalidRange)
    } else if overlaps_any(regions_of(spaces).take(index), region_of(spaces[index])) {
        Some(ConfigError::Overlap)
    } else {
        None
    }
}

/// A memory space that was refused, with its position among the memory
/// spaces of the configuration.
#[derive(Debug, Clone, Copy, PartialEq, Eq, Structural)]
pub struct SpaceError {
    pub index: usize,
    pub error: ConfigError,
}

/// The first memory space at or after position `from` with which
/// something is wrong, and what is wrong with it.
pub open spec fn first_space_error(spaces: Seq<MemorySpace>, from: int) -> Option<SpaceError>
    decreases spaces.len() - from,
{
    if from < 0 || from >= spaces.len() {
        None
    } else {
        match space_error(spaces, from) {
            Some(error) => Some(SpaceError { index: from as usize, error }),
            None => first_space_error(spaces, from + 1),
        }
    }
}

/// What is wrong with a configuration, if anything: the name of its mode
/// is judged first, its memory spaces after it, in their order.
pub open spec fn config_error(config: &MachineConfig) -> Option<ConfigError> {
    if config.mmu_mode matches Some(name) && mode_of_name(name@) is None {
        Some(ConfigError::UnsupportedMode)
    } else {
        match first_space_error(config.memspaces@, 0) {
            Some(refused) => Some(refused.error),
            None => None,
        }
    }
}

/// Maps the name of a paging mode to the mode.
pub fn parse_mode(name: &String) -> (result: Result<RiscVMMUMode, ConfigError>)
    ensures
        result == match mode_of_name(name@) {
            Some(mode) => Ok::<RiscVMMUMode, ConfigError>(mode),
            None => Err::<RiscVMMUMode, ConfigError>(ConfigError::UnsupportedMode),
        },
{
    if *name == "SV32".to_owned() {
        Ok(RiscVMMUMode::SV32)
    } else if *name == "SV39".to_owned() {
        Ok(RiscVMMUMode::SV39)
    } else if *name == "SV48".to_owned() {
        Ok(RiscVMMUMode::SV48)
    } else {
        Err(ConfigError::UnsupportedMode)
    }
}

/// Says whether a configuration file with this extension can be read:
/// only TOML is.
pub fn check_format(extension: Option<&str>) -> (result: Result<(), ConfigError>)
    ensures
        result is Ok <==> (extension matches Some(name) && name@ == "toml"@),
        result is Err ==> result == Err::<(), ConfigError>(ConfigError::UnsupportedFileFormat),
{
    match extension {
        Some(name) => {
            if name.to_owned() == "toml".to_owned() {
                Ok(())
            } else {
                Err(ConfigError::UnsupportedFileFormat)
            }
        },
        None => Err(ConfigError::UnsupportedFileFormat),
    }
}

/// Builds the physical memory that the memory spaces of a configuration
/// describe, refusing the first space that is empty, inverted or overlaps
/// a space before it.
pub fn build_memory(spaces: &Vec<MemorySpace>) -> (result: Result<PhysicalMemory, SpaceError>)
    ensures
        match first_space_error(spaces@, 0) {
            Some(refused) => result == Err::<PhysicalMemory, SpaceError>(refused),
            None => result matches Ok(memory) && memory@ == regions_of(spaces@) && memory.wf()
                && forall|i: int| 0 <= i < memory@.len() ==> (#[trigger] memory@[i]).wf(),
        },
{
    let mut memory = PhysicalMemory::new();
    let mut i: usize = 0;
    while i < spaces.len()
        invariant
            i <= spaces.len(),
            memory@ == regions_of(spaces@).take(i as int),
            memory.wf(),
            forall|k: int| 0 <= k < memory@.len() ==> (#[trigger] memory@[k]).wf(),
            first_space_error(spaces@, 0) == first_space_error(spaces@, i as int),
        decreases spaces.len() - i,
    {
        let space = spaces[i];
        let region = match MemoryRegion::new(
            space.space_type.region_type(),
            space.start_address,
            space.end_address,
        ) {
            Ok(region) => region,
            Err(error) => {
                return Err(SpaceError { index: i, error });
            },
        };
        assert(region == region_of(spaces@[i as int]));
        match memory.add(region) {
            Ok(_) => {},
            Err(error) => {
                return Err(SpaceError { index: i, error });
            },
        }
        proof {
            assert(regions_of(spaces@).take(i as int).push(region) =~= regions_of(spaces@).take(
                i as int + 1,
            ));
        }
        i += 1;
    }
    proof {
        assert(regions_of(spaces@).take(i as int) =~= regions_of(spaces@));
    }
    Ok(memory)
}

/// Validates the contents of the configuration.
pub fn validate_config(config: &MachineConfig) -> (result: Result<(), ConfigError>)
    ensures
        result == match config_error(config) {
            Some(error) => Err::<(), ConfigError>(error),
            None => Ok::<(), ConfigError>(()),
        },
{
    if let Some(name) = &config.mmu_mode {
        if let Err(error) = parse_mode(name) {
            return Err(error);
        }
    }
    match build_memory(&config.memspaces) {
        Ok(_) => Ok(()),
        Err(refused) => Err(refused.error),
    }
}

} // verus!
