use std::path::PathBuf;

use libmmu::architecture::generic::{
    ConfigError, Machine, MachineType, MemoryRegion, MemoryRegionType, MemorySpace,
};
use libmmu::architecture::riscv::MMUMode;
use libmmu::config_struct::RiscVMMUMode;
use libmmu::utils::configuration::{
    build_memory, check_format, parse_mode, validate_config, MachineConfig,
    MemorySpace as ConfiguredSpace, SpaceError, SpaceType,
};

#[test]
fn create_riscv_sv32_configuration_from_code() -> Result<(), ConfigError> {
    let machine_type = MachineType::RiscV(MMUMode::SV32);
    let dumpfile = PathBuf::from("tests/fixtures/riscv-sv32.dump");
    let outfolder = PathBuf::from("tests/output");

    let memspaces = MemorySpace::new()
        .add(MemoryRegion {
            region_type: MemoryRegionType::RAM,
            start_address: 0x12345678,
            end_address: 0x87654321,
        })?
        .add(MemoryRegion {
            region_type: MemoryRegionType::ROM,
            start_address: 0,
            end_address: 73727,
        })?
        .to_owned();

    let machine = Machine {
        machine_type: machine_type,
        memory_regions: memspaces,
        dumpfile,
        outfolder,
        root_table_address: 0,
    };

    assert_eq!(machine.machine_type, MachineType::RiscV(MMUMode::SV32));
    assert_eq!(machine.memory_regions.regions.len(), 2);
    assert_eq!(
        machine.memory_regions.regions[0].region_type,
        MemoryRegionType::RAM
    );
    assert_eq!(machine.memory_regions.regions[0].start_address, 0x12345678);
    assert_eq!(machine.memory_regions.regions[0].end_address, 0x87654321);
    assert_eq!(
        machine.memory_regions.regions[1].region_type,
        MemoryRegionType::ROM
    );
    assert_eq!(machine.memory_regions.regions[1].start_address, 0);
    assert_eq!(machine.memory_regions.regions[1].end_address, 73727);
    assert_eq!(
        machine.dumpfile,
        PathBuf::from("tests/fixtures/riscv-sv32.dump")
    );
    assert_eq!(machine.outfolder, PathBuf::from("tests/output"));

    Ok(())
}

fn sample_configuration() -> MachineConfig {
    MachineConfig {
        mmu_mode: Some(String::from("SV32")),
        memspaces: vec![
            ConfiguredSpace {
                space_type: SpaceType::RAM,
                start_address: 0x12345678,
                end_address: 0x87654321,
            },
            ConfiguredSpace {
                space_type: SpaceType::ROM,
                start_address: 0,
                end_address: 73727,
            },
        ],
        dumpfile: Some(String::from("tests/fixtures/riscv-sv32.dump")),
        outfile: Some(String::from("tests/output")),
    }
}

#[test]
fn create_riscv_sv32_configuration_from_toml() -> Result<(), ConfigError> {
    let path = PathBuf::from("tests/fixtures/riscv-sample.toml");
    check_format(path.extension().and_then(|extension| extension.to_str()))?;
    let configuration = sample_configuration();
    validate_config(&configuration)?;
    let mode = match &configuration.mmu_mode {
        Some(name) => parse_mode(name)?.mode(),
        None => MMUMode::default(),
    };
    let machine = Machine::new(
        MachineType::RiscV(mode),
        build_memory(&configuration.memspaces).map_err(|refused| refused.error)?,
        PathBuf::from(configuration.dumpfile.unwrap_or_default()),
        PathBuf::from(configuration.outfile.unwrap_or_default()),
        0,
    );

    assert_eq!(machine.machine_type, MachineType::RiscV(MMUMode::SV32));
    assert_eq!(machine.memory_regions.regions.len(), 2);
    assert_eq!(
        machine.memory_regions.regions[0].region_type,
        MemoryRegionType::RAM
    );
    assert_eq!(machine.memory_regions.regions[0].start_address, 0x12345678);
    assert_eq!(machine.memory_regions.regions[0].end_address, 0x87654321);
    assert_eq!(
        machine.memory_regions.regions[1].region_type,
        MemoryRegionType::ROM
    );
    assert_eq!(machine.memory_regions.regions[1].start_address, 0);
    assert_eq!(machine.memory_regions.regions[1].end_address, 73727);
    assert_eq!(
        machine.dumpfile,
        PathBuf::from("tests/fixtures/riscv-sv32.dump")
    );
    assert_eq!(machine.outfolder, PathBuf::from("tests/output"));

    Ok(())
}

#[test]
fn mode_names_are_the_three_riscv_modes() {
    assert_eq!(parse_mode(&String::from("SV32")), Ok(RiscVMMUMode::SV32));
    assert_eq!(parse_mode(&String::from("SV39")), Ok(RiscVMMUMode::SV39));
    assert_eq!(parse_mode(&String::from("SV48")), Ok(RiscVMMUMode::SV48));
    assert_eq!(RiscVMMUMode::SV32.mode(), MMUMode::SV32);
    assert_eq!(RiscVMMUMode::SV39.mode(), MMUMode::SV39);
    assert_eq!(RiscVMMUMode::SV48.mode(), MMUMode::SV48);
}

#[test]
fn other_mode_names_are_unsupported() {
    for name in ["", "sv39", "SV57", "SV39 ", "SV3", "Bare"] {
        assert_eq!(
            parse_mode(&String::from(name)),
            Err(ConfigError::UnsupportedMode)
        );
    }
}

#[test]
fn only_toml_files_are_read() {
    assert_eq!(check_format(Some("toml")), Ok(()));
    assert_eq!(
        check_format(Some("json")),
        Err(ConfigError::UnsupportedFileFormat)
    );
    assert_eq!(
        check_format(Some("TOML")),
        Err(ConfigError::UnsupportedFileFormat)
    );
    assert_eq!(check_format(None), Err(ConfigError::UnsupportedFileFormat));
}

#[test]
fn configuration_without_mode_is_valid() {
    let mut configuration = sample_configuration();
    configuration.mmu_mode = None;
    assert_eq!(validate_config(&configuration), Ok(()));
    assert_eq!(validate_config(&MachineConfig::default()), Ok(()));
}

#[test]
fn configuration_with_unknown_mode_is_refused() {
    let mut configuration = sample_configuration();
    configuration.mmu_mode = Some(String::from("SV64"));
    assert_eq!(
        validate_config(&configuration),
        Err(ConfigError::UnsupportedMode)
    );
}

#[test]
fn unknown_mode_is_reported_before_a_bad_region() {
    let mut configuration = sample_configuration();
    configuration.mmu_mode = Some(String::from("x"));
    configuration.memspaces[0].end_address = 0;
    assert_eq!(
        validate_config(&configuration),
        Err(ConfigError::UnsupportedMode)
    );
}

#[test]
fn configuration_with_empty_region_is_refused() {
    let mut configuration = sample_configuration();
    configuration.memspaces[1].end_address = 0;
    assert_eq!(
        validate_config(&configuration),
        Err(ConfigError::InvalidRange)
    );
    configuration.memspaces[1].start_address = 9;
    configuration.memspaces[1].end_address = 8;
    assert_eq!(
        validate_config(&configuration),
        Err(ConfigError::InvalidRange)
    );
}

#[test]
fn configuration_with_overlapping_regions_is_refused() {
    let mut configuration = sample_configuration();
    configuration.memspaces[1].end_address = 0x12345679;
    assert_eq!(validate_config(&configuration), Err(ConfigError::Overlap));
    assert_eq!(
        build_memory(&configuration.memspaces),
        Err(SpaceError {
            index: 1,
            error: ConfigError::Overlap,
        })
    );
}

#[test]
fn first_bad_region_decides_the_error() {
    let spaces = vec![
        ConfiguredSpace {
            space_type: SpaceType::RAM,
            start_address: 0,
            end_address: 10,
        },
        ConfiguredSpace {
            space_type: SpaceType::RAM,
            start_address: 5,
            end_address: 15,
        },
        ConfiguredSpace {
            space_type: SpaceType::ROM,
            start_address: 7,
            end_address: 7,
        },
    ];
    assert_eq!(
        build_memory(&spaces),
        Err(SpaceError {
            index: 1,
            error: ConfigError::Overlap,
        })
    );
    let spaces = vec![spaces[0], spaces[2], spaces[1]];
    assert_eq!(
        build_memory(&spaces),
        Err(SpaceError {
            index: 1,
            error: ConfigError::InvalidRange,
        })
    );
    let spaces = vec![spaces[0], spaces[0]];
    assert_eq!(
        build_memory(&spaces),
        Err(SpaceError {
            index: 1,
            error: ConfigError::Overlap,
        })
    );
    let spaces = vec![spaces[0], spaces[0]];
    assert_eq!(validate_config(&MachineConfig {
        memspaces: spaces,
        ..MachineConfig::default()
    }), Err(ConfigError::Overlap));
}

#[test]
fn adjacent_regions_are_accepted_in_declared_order() {
    let spaces = vec![
        ConfiguredSpace {
            space_type: SpaceType::ROM,
            start_address: 0x1000,
            end_address: 0x2000,
        },
        ConfiguredSpace {
            space_type: SpaceType::RAM,
            start_address: 0,
            end_address: 0x1000,
        },
    ];
    let memory = build_memory(&spaces).unwrap();
    assert_eq!(
        memory.regions,
        vec![
            MemoryRegion {
                region_type: MemoryRegionType::ROM,
                start_address: 0x1000,
                end_address: 0x2000,
            },
            MemoryRegion {
                region_type: MemoryRegionType::RAM,
                start_address: 0,
                end_address: 0x1000,
            },
        ]
    );
}

#[test]
fn machine_new_keeps_every_field() {
    let memory = MemorySpace::new();
    let machine = Machine::new(
        MachineType::RiscV(MMUMode::SV48),
        memory.clone(),
        PathBuf::from("a.dump"),
        PathBuf::from("out"),
        0x8020_0000,
    );
    assert_eq!(machine.machine_type, MachineType::RiscV(MMUMode::SV48));
    assert_eq!(machine.mode(), MMUMode::SV48);
    assert_eq!(machine.memory_regions, memory);
    assert_eq!(machine.dumpfile, PathBuf::from("a.dump"));
    assert_eq!(machine.outfolder, PathBuf::from("out"));
    assert_eq!(machine.root_table_address, 0x8020_0000);
    assert_eq!(MachineType::default(), MachineType::RiscV(MMUMode::SV32));
}

#[test]
fn default_machine_is_an_empty_sv32_machine() {
    let machine = Machine::default();
    assert_eq!(machine.machine_type, MachineType::RiscV(MMUMode::SV32));
    assert_eq!(machine.memory_regions, MemorySpace::new());
    assert_eq!(machine.memory_regions, MemorySpace::default());
    assert_eq!(machine.dumpfile, PathBuf::new());
    assert_eq!(machine.outfolder, PathBuf::new());
    assert_eq!(machine.root_table_address, 0);
}
