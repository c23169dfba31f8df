//! Address translation over a captured snapshot of a RISC-V machine's
//! physical memory.
//!
//! The crate walks the guest's Sv32, Sv39 and Sv48 page tables as the
//! hardware would, reading them out of a raw dump that is laid out as the
//! concatenation of the machine's declared memory regions. Nothing is
//! executed and nothing is written: a translation is a function of the
//! machine's description, the bytes of its dump, and the address.
//!
//! - [`architecture`] describes a machine and the RISC-V paging modes and
//!   page table entries.
//! - [`memory`] reads physical memory out of a dump.
//! - [`translation`] walks the page tables for one address.
//! - [`enumeration`] traverses a whole tree of page tables, one entry at a
//!   time, and [`ranges`] merges what it finds.
//! - [`address_space`] puts these together for one machine.
//! - [`agreement`] and [`order`] state what a listing says of translation,
//!   and in what order it comes.
//! - [`config_struct`] and [`utils`] hold a machine's configuration and
//!   its validation.

pub mod architecture;
pub mod architectures;
pub mod memory;
pub mod translation;
pub mod ranges;
pub mod enumeration;
pub mod address_space;
pub mod agreement;
pub mod order;
pub mod config_struct;
pub mod utils;
