//! Access to the physical memory of a machine as it was captured in a dump.
//!
//! A dump holds the bytes of the machine's declared regions one after
//! another, in the order of their declaration. Nothing outside a declared
//! region can be read.

use crate::architecture::generic::{pairwise_disjoint, MemoryRegion, MemorySpace};
use vstd::arithmetic::overflow::CheckedU64;
use vstd::prelude::*;
use vstd::slice::slice_subrange;

verus! {

/// Why physical memory could not be read.
#[derive(Debug, Clone, Copy, PartialEq, Eq, Structural, Hash)]
pub enum AccessError {
    /// The bytes asked for do not lie within one declared region.
    OutOfRange,
    /// The dump ends before the bytes asked for.
    TruncatedRead,
}

/// The physical memory that an accessor reads: the declared regions and
/// the bytes of the dump.
pub struct MemoryView {
    pub regions: Seq<MemoryRegion>,
    pub dump: Seq<u8>,
}

/// Whether the `length` bytes from `address` on lie within `region`.
pub open spec fn covers(region: MemoryRegion, address: nat, length: nat) -> bool {
    region.start_address <= address && address + length <= region.end_address
}

/// The first region at or after position `from` that covers the `length`
/// bytes from `address` on.
pub open spec fn first_covering(
    regions: Seq<MemoryRegion>,
    address: nat,
    length: nat,
    from: nat,
) -> Option<nat>
    decreases regions.len() - from,
{
    if from >= regions.len() {
        None
    } else if covers(regions[from as int], address, length) {
        Some(from)
    } else {
        first_covering(regions, address, length, from + 1)
    }
}

/// The number of bytes that the regions before position `index` hold.
pub open spec fn preceding_size(regions: Seq<MemoryRegion>, index: nat) -> nat
    decreases index,
{
    if index == 0 {
        0
    } else {
        preceding_size(regions, (index - 1) as nat) + regions[index - 1].spec_size()
    }
}

impl MemoryView {
    /// Position in the dump of the byte at `address`, which lies in the
    /// region at position `index`.
    pub open spec fn dump_offset(self, index: nat, address: nat) -> nat {
        (preceding_size(self.regions, index) + address - self.regions[index as int].start_address) as nat
    }

    /// The `length` bytes of physical memory from `address` on.
    pub open spec fn read(self, address: nat, length: nat) -> Result<Seq<u8>, AccessError> {
        match first_covering(self.regions, address, length, 0) {
            None => Err(AccessError::OutOfRange),
            Some(index) => {
                let offset = self.dump_offset(index, address);
                if offset + length <= self.dump.len() {
                    Ok(self.dump.subrange(offset as int, (offset + length) as int))
                } else {
                    Err(AccessError::TruncatedRead)
                }
            },
        }
    }
}

/// `first_covering` finds a region exactly when one covers the bytes, and
/// then it is the earliest such region.
pub proof fn lemma_first_covering(
    regions: Seq<MemoryRegion>,
    address: nat,
    length: nat,
    from: nat,
)
    ensures
        match first_covering(regions, address, length, from) {
            Some(index) => from <= index < regions.len() && covers(
                regions[index as int],
                address,
                length,
            ) && forall|k: int| from <= k < index ==> !covers(#[trigger] regions[k], address, length),
            None => forall|k: int|
                from <= k < regions.len() ==> !covers(#[trigger] regions[k], address, length),
        },
    decreases regions.len() - from,
{
    if from < regions.len() && !covers(regions[from as int], address, length) {
        lemma_first_covering(regions, address, length, from + 1);
    }
}

/// Among regions of which no two overlap, at most one covers a run of at
/// least one byte, so that it does not matter that the first is taken.
pub proof fn lemma_one_region_covers(
    regions: Seq<MemoryRegion>,
    address: nat,
    length: nat,
    first: int,
    second: int,
)
    requires
        pairwise_disjoint(regions),
        length > 0,
        0 <= first < regions.len(),
        0 <= second < regions.len(),
        covers(regions[first], address, length),
        covers(regions[second], address, length),
    ensures
        first == second,
{
    if first < second {
        assert(!regions[first].spec_is_overlapping(&regions[second]));
    } else if second < first {
        assert(!regions[second].spec_is_overlapping(&regions[first]));
    }
}

/// Read-only access to the dump of a machine's physical memory.
#[derive(Clone, Copy)]
pub struct PhysicalMemoryAccessor<'a> {
    regions: &'a MemorySpace,
    dump: &'a [u8],
}

impl<'a> View for PhysicalMemoryAccessor<'a> {
    type V = MemoryView;

    closed spec fn view(&self) -> MemoryView {
        MemoryView { regions: self.regions@, dump: self.dump@ }
    }
}

impl<'a> PhysicalMemoryAccessor<'a> {
    pub fn new(regions: &'a MemorySpace, dump: &'a [u8]) -> (accessor: Self)
        ensures
            accessor@ == (MemoryView { regions: regions@, dump: dump@ }),
    {
        PhysicalMemoryAccessor { regions, dump }
    }

    /// Reads `length` bytes of physical memory from `phys_addr` on.
    ///
    /// The bytes must lie within a single declared region. Their place in
    /// the dump is found by adding up the sizes of the regions declared
    /// before that one.
    pub fn read(&self, phys_addr: u64, length: usize) -> (result: Result<&'a [u8], AccessError>)
        ensures
            match self@.read(phys_addr as nat, length as nat) {
                Ok(bytes) => result matches Ok(slice) && slice@ == bytes,
                Err(error) => result == Err::<&[u8], AccessError>(error),
            },
    {
        let regions = &self.regions.regions;
        let dump_len = self.dump.len();
        let mut skipped = CheckedU64::new(0);
        let mut i: usize = 0;
        while i < regions.len()
            invariant
                i <= regions.len(),
                regions@ == self@.regions,
                self.dump@ == self@.dump,
                dump_len == self.dump@.len(),
                skipped@ == preceding_size(regions@, i as nat),
                first_covering(regions@, phys_addr as nat, length as nat, 0) == first_covering(
                    regions@,
                    phys_addr as nat,
                    length as nat,
                    i as nat,
                ),
            decreases regions.len() - i,
        {
            let region = regions[i];
            if region.start_address <= phys_addr && phys_addr <= region.end_address && length as u64
                <= region.end_address - phys_addr {
                assert(covers(regions@[i as int], phys_addr as nat, length as nat));
                let start = skipped.add_value(phys_addr - region.start_address);
                let end = start.add_value(length as u64);
                assert(start@ == self@.dump_offset(i as nat, phys_addr as nat));
                if let Some(end) = end.to_option() {
                    if end <= dump_len as u64 {
                        let start = start.unwrap();
                        return Ok(slice_subrange(self.dump, start as usize, end as usize));
                    }
                }
                return Err(AccessError::TruncatedRead);
            }
            assert(!covers(regions@[i as int], phys_addr as nat, length as nat));
            if region.start_address < region.end_address {
                skipped = skipped.add_value(region.end_address - region.start_address);
            }
            i += 1;
        }
        Err(AccessError::OutOfRange)
    }
}

} // verus!
