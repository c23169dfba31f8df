use std::path::{Path, PathBuf};

use libmmu::architectures::generic::{Config, CPU};
use libmmu::utils::FromPath;

#[test]
fn string_from_path_holds_the_text_of_the_path() {
    assert_eq!(String::from_path(Path::new("tests/output")), "tests/output");
    assert_eq!(String::from_path(Path::new("")), "");
    assert_eq!(
        String::from_path(&PathBuf::from("a").join("b.toml")),
        PathBuf::from("a").join("b.toml").to_string_lossy()
    );
}

#[test]
fn path_buf_from_path_is_the_same_path() {
    let path = Path::new("tests/fixtures/riscv-sv32.dump");
    assert_eq!(PathBuf::from_path(path), PathBuf::from("tests/fixtures/riscv-sv32.dump"));
    assert_eq!(PathBuf::from_path(path).as_path(), path);
}

#[test]
fn fields_are_counted_from_the_low_end() {
    assert_eq!(CPU::extract_bits_little(0b1101_0000, 4, 3), 0b101);
    assert_eq!(CPU::extract_bits_little(0xdead_beef, 0, 16), 0xbeef);
    assert_eq!(CPU::extract_bits_little(0xdead_beef, 16, 16), 0xdead);
    assert_eq!(CPU::extract_bits_little(0xdead_beef, 28, 4), 0xd);
    assert_eq!(CPU::extract_bits_little(0xdead_beef, 31, 31), 1);
    assert_eq!(CPU::extract_bits_little(u32::MAX, 0, 31), u32::MAX >> 1);
    assert_eq!(CPU::extract_bits_little(u32::MAX, 7, 0), 0);
}

#[test]
fn fields_are_counted_from_the_high_end() {
    assert_eq!(CPU::extract_bits_big(0xdead_beef, 0, 4), 0xd);
    assert_eq!(CPU::extract_bits_big(0xdead_beef, 0, 16), 0xdead);
    assert_eq!(CPU::extract_bits_big(0xdead_beef, 16, 16), 0xbeef);
    assert_eq!(CPU::extract_bits_big(0xdead_beef, 28, 4), 0xf);
    assert_eq!(CPU::extract_bits_big(0x8000_0000, 0, 1), 1);
    assert_eq!(CPU::extract_bits_big(0x8000_0000, 1, 31), 0);
    assert_eq!(CPU::extract_bits_big(1, 31, 1), 1);
    assert_eq!(CPU::extract_bits_big(u32::MAX, 32, 0), 0);
    // The same field, counted from either end.
    assert_eq!(
        CPU::extract_bits_big(0x1234_5678, 8, 12),
        CPU::extract_bits_little(0x1234_5678, 12, 12)
    );
}

#[test]
fn cpu_takes_what_the_configuration_says() {
    let cpu = CPU {
        opcode_to_mmu_regs: String::from("mmu"),
        opcode_to_gregs: String::from("general"),
        architecture: String::new(),
        bits: String::new(),
        endianness: String::new(),
        processor_features: String::new(),
        register_values: String::new(),
    };
    let cpu = cpu.new(Config {
        architecture: String::from("riscv"),
        bits: String::from("64"),
        endianness: String::from("little"),
        processor_features: String::from("rv64gc"),
        register_values: String::from("satp=0"),
    });
    assert_eq!(cpu.opcode_to_mmu_regs, "mmu");
    assert_eq!(cpu.opcode_to_gregs, "general");
    assert_eq!(cpu.architecture, "riscv");
    assert_eq!(cpu.bits, "64");
    assert_eq!(cpu.endianness, "little");
    assert_eq!(cpu.processor_features, "rv64gc");
    assert_eq!(cpu.register_values, "satp=0");
}
