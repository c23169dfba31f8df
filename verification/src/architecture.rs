//! Machine models: the architecture-independent description of a machine
//! and the RISC-V paging structures.

pub mod generic;
pub mod riscv;
