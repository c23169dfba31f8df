//! A processor as a configuration describes it, and the extraction of
//! fields from 32-bit words in either bit numbering.

use vstd::arithmetic::power2::*;
use vstd::bits::*;
use vstd::prelude::*;

verus! {

/// A processor: what is known of its architecture, and of how its
/// instructions touch its registers.
pub struct CPU {
    pub opcode_to_mmu_regs: String,
    pub opcode_to_gregs: String,
    pub architecture: String,
    pub bits: String,
    pub endianness: String,
    pub processor_features: String,
    pub register_values: String,
}

/// What a configuration says of a processor.
pub struct Config {
    pub architecture: String,
    pub bits: String,
    pub endianness: String,
    pub processor_features: String,
    pub register_values: String,
}

/// The `n` bits of `word` that start at bit `pos`, bit 0 being the least
/// significant.
pub open spec fn field_from_low(word: u32, pos: nat, n: nat) -> nat {
    (word as nat / pow2(pos)) % pow2(n)
}

/// The `n` bits of `word` that start at bit `pos`, bit 0 being the most
/// significant.
pub open spec fn field_from_high(word: u32, pos: nat, n: nat) -> nat {
    field_from_low(word, (32 - pos - n) as nat, n)
}

impl CPU {
    /// This processor with what `config` says of it.
    pub fn new(self, config: Config) -> (cpu: CPU)
        ensures
            cpu.opcode_to_mmu_regs == self.opcode_to_mmu_regs,
            cpu.opcode_to_gregs == self.opcode_to_gregs,
            cpu.architecture == config.architecture,
            cpu.bits == config.bits,
            cpu.endianness == config.endianness,
            cpu.processor_features == config.processor_features,
            cpu.register_values == config.register_values,
    {
        CPU {
            opcode_to_mmu_regs: self.opcode_to_mmu_regs,
            opcode_to_gregs: self.opcode_to_gregs,
            architecture: config.architecture,
            bits: config.bits,
            endianness: config.endianness,
            processor_features: config.processor_features,
            register_values: config.register_values,
        }
    }

    /// Extracts `n` bits of a word, starting at bit `pos` counted from the
    /// least significant bit.
    pub fn extract_bits_little(entry: u32, pos: u32, n: u32) -> (field: u32)
        requires
            pos < 32,
            n < 32,
        ensures
            field == field_from_low(entry, pos as nat, n as nat),
    {
        proof {
            lemma_u32_shr_is_div(entry, pos);
            lemma_u32_pow2_no_overflow(n as nat);
            lemma_u32_shl_is_mul(1, n);
            lemma_u32_low_bits_mask_is_mod(entry >> pos, n as nat);
        }
        (entry >> pos) & ((1u32 << n) - 1)
    }

    /// Extracts `n` bits of a word, starting at bit `pos` counted from the
    /// most significant bit.
    pub fn extract_bits_big(entry: u32, pos: u32, n: u32) -> (field: u32)
        requires
            n < 32,
            1 <= pos + n <= 32,
        ensures
            field == field_from_high(entry, pos as nat, n as nat),
    {
        CPU::extract_bits_little(entry, 32 - pos - n, n)
    }
}

} // verus!
