//! A virtual address space: the page tables under one root, over the
//! physical memory of one machine.

use crate::architecture::generic::{Access, Machine};
use crate::architecture::riscv::{MMUMode, MMU};
use crate::enumeration::{
    spec_survey, spec_survey_shard, Diagnostic, EnumerationCursor, Survey,
};
use crate::memory::{MemoryView, PhysicalMemoryAccessor};
use crate::ranges::{coalesce, MappedRange};
use crate::translation::{spec_translate, RadixPageTableWalker, Translation, TranslationError};
use vstd::prelude::*;

verus! {

/// The page tables rooted at one physical address, with the means to walk
/// them.
#[derive(Clone, Copy)]
pub struct VirtualAddressSpace<'a> {
    pub walker: RadixPageTableWalker<'a>,
    /// Physical address of the root table.
    pub root: u64,
}

/// The physical memory of `machine` as `dump` captured it.
pub open spec fn machine_memory(machine: &Machine, dump: Seq<u8>) -> MemoryView {
    MemoryView { regions: machine.memory_regions@, dump }
}

/// What the page tables of `machine` make of an access to
/// `virtual_address`, given the bytes of its dump.
pub open spec fn machine_translate(
    machine: &Machine,
    dump: Seq<u8>,
    virtual_address: u64,
    access: Access,
) -> Result<Translation, TranslationError> {
    spec_translate(
        machine_memory(machine, dump),
        machine.spec_mode(),
        machine.root_table_address,
        virtual_address,
        access,
    )
}

/// What a traversal of the page tables of `machine` finds, given the
/// bytes of its dump.
pub open spec fn machine_survey(machine: &Machine, dump: Seq<u8>) -> Survey {
    spec_survey(machine_memory(machine, dump), machine.spec_mode(), machine.root_table_address)
}

/// The translation of an address rests on nothing but the paging mode,
/// the address of the root table, the declared regions and the bytes of
/// the dump: where two machines and their dumps agree in these, every
/// address translates alike.
pub proof fn lemma_translate_determined(
    first: &Machine,
    first_dump: Seq<u8>,
    second: &Machine,
    second_dump: Seq<u8>,
    virtual_address: u64,
    access: Access,
)
    requires
        first.machine_type == second.machine_type,
        first.root_table_address == second.root_table_address,
        first.memory_regions@ == second.memory_regions@,
        first_dump == second_dump,
    ensures
        machine_translate(first, first_dump, virtual_address, access) == machine_translate(
            second,
            second_dump,
            virtual_address,
            access,
        ),
{
}

impl<'a> VirtualAddressSpace<'a> {
    /// The paging mode of the tables.
    pub open spec fn mode(&self) -> MMUMode {
        self.walker.mmu.mode
    }

    /// The physical memory that holds the tables.
    pub open spec fn memory(&self) -> MemoryView {
        self.walker.memory@
    }

    /// What a traversal of the tables finds.
    pub open spec fn survey(&self) -> Survey {
        spec_survey(self.memory(), self.mode(), self.root)
    }

    pub fn new(mmu: MMU, memory: PhysicalMemoryAccessor<'a>, root: u64) -> (space: Self)
        ensures
            space.walker.mmu == mmu,
            space.walker.memory == memory,
            space.root == root,
    {
        VirtualAddressSpace { walker: RadixPageTableWalker::new(mmu, memory), root }
    }

    /// The address space of `machine`, read from the bytes of its dump.
    pub fn of_machine(machine: &'a Machine, dump: &'a [u8]) -> (space: Self)
        ensures
            space.mode() == machine.spec_mode(),
            space.memory() == machine_memory(machine, dump@),
            space.root == machine.root_table_address,
    {
        let memory = PhysicalMemoryAccessor::new(&machine.memory_regions, dump);
        VirtualAddressSpace::new(MMU::new(machine.mode()), memory, machine.root_table_address)
    }

    /// Translates `virtual_address` for an access of kind `access`.
    pub fn translate(&self, virtual_address: u64, access: Access) -> (result: Result<
        Translation,
        TranslationError,
    >)
        ensures
            result == spec_translate(self.memory(), self.mode(), self.root, virtual_address, access),
    {
        self.walker.translate(self.root, virtual_address, access)
    }

    /// A cursor in front of the first entry of the root table.
    pub fn cursor(&self) -> (cursor: EnumerationCursor<'a>)
        ensures
            cursor.wf(),
            cursor.memory() == self.memory(),
            cursor.mode() == self.mode(),
            cursor.ranges() == Seq::<MappedRange>::empty(),
            cursor.diagnostics() == Seq::<Diagnostic>::empty(),
            cursor.pending().leaves == self.survey().leaves,
            cursor.pending().diagnostics == self.survey().diagnostics,
    {
        EnumerationCursor::new(self.walker, self.root)
    }

    /// Lists what the tables map, as ranges in ascending order of virtual
    /// address with neighbours that continue each other merged, and the
    /// entries that were malformed or could not be read.
    pub fn enumerate_mapped_ranges(&self) -> (found: (Vec<MappedRange>, Vec<Diagnostic>))
        ensures
            found.0@ == coalesce(self.survey().leaves),
            found.1@ == self.survey().diagnostics,
    {
        let cursor = self.cursor();
        assert(cursor.expected_diagnostics() =~= self.survey().diagnostics);
        cursor.finish()
    }

    /// Lists what the tables map under the entries from position `first`
    /// up to but without position `until` of the root table.
    pub fn enumerate_shard(&self, first: u64, until: u64) -> (found: (
        Vec<MappedRange>,
        Vec<Diagnostic>,
    ))
        requires
            first <= until <= self.mode().entry_count(),
        ensures
            found.0@ == coalesce(
                spec_survey_shard(
                    self.memory(),
                    self.mode(),
                    self.root,
                    first as nat,
                    until as nat,
                ).leaves,
            ),
            found.1@ == spec_survey_shard(
                self.memory(),
                self.mode(),
                self.root,
                first as nat,
                until as nat,
            ).diagnostics,
    {
        let cursor = EnumerationCursor::for_shard(self.walker, self.root, first, until);
        assert(cursor.expected_diagnostics() =~= spec_survey_shard(
            self.memory(),
            self.mode(),
            self.root,
            first as nat,
            until as nat,
        ).diagnostics);
        cursor.finish()
    }
}

/// Translates `virtual_address` through the page tables of `machine`, for
/// an access of kind `access`. `dump` holds the bytes of the machine's
/// dump file.
pub fn translate(machine: &Machine, dump: &[u8], virtual_address: u64, access: Access) -> (result:
    Result<Translation, TranslationError>)
    ensures
        result == machine_translate(machine, dump@, virtual_address, access),
{
    VirtualAddressSpace::of_machine(machine, dump).translate(virtual_address, access)
}

/// Lists what the page tables of `machine` map, and the entries that were
/// malformed or could not be read. `dump` holds the bytes of the
/// machine's dump file.
pub fn enumerate(machine: &Machine, dump: &[u8]) -> (found: (Vec<MappedRange>, Vec<Diagnostic>))
    ensures
        found.0@ == coalesce(machine_survey(machine, dump@).leaves),
        found.1@ == machine_survey(machine, dump@).diagnostics,
{
    VirtualAddressSpace::of_machine(machine, dump).enumerate_mapped_ranges()
}

} // verus!
