//! Ranges of mapped addresses, and the merging of neighbouring ranges.
//!
//! Leaves are taken into a list of ranges one after another. A leaf that
//! continues the last range of the list, in virtual and in physical
//! memory and with the same permissions, makes that range longer; any
//! other leaf becomes a range of its own.

use crate::architecture::generic::Permissions;
use vstd::prelude::*;

verus! {

/// A run of virtual addresses that is mapped to a run of physical
/// addresses of the same length, with one set of permissions.
#[derive(Debug, Clone, Copy, PartialEq, Eq, Structural, Hash)]
pub struct MappedRange {
    pub virtual_start: u64,
    /// First virtual address after the range.
    pub virtual_end: u64,
    pub physical_start: u64,
    pub permissions: Permissions,
}

/// Whether `next` continues `range`: it starts where `range` ends, in
/// virtual and in physical memory, and has the same permissions.
pub open spec fn continues(range: MappedRange, next: MappedRange) -> bool {
    &&& range.virtual_end == next.virtual_start
    &&& range.physical_start + range.virtual_end == next.physical_start + range.virtual_start
    &&& range.permissions == next.permissions
}

/// `ranges` with `leaf` taken in: merged into the last range where it
/// continues that one, appended otherwise.
pub open spec fn absorb(ranges: Seq<MappedRange>, leaf: MappedRange) -> Seq<MappedRange> {
    if ranges.len() > 0 && continues(ranges.last(), leaf) {
        ranges.drop_last().push(MappedRange { virtual_end: leaf.virtual_end, ..ranges.last() })
    } else {
        ranges.push(leaf)
    }
}

/// `ranges` with each of `leaves` taken in, in order.
pub open spec fn coalesce_onto(ranges: Seq<MappedRange>, leaves: Seq<MappedRange>) -> Seq<
    MappedRange,
>
    decreases leaves.len(),
{
    if leaves.len() == 0 {
        ranges
    } else {
        coalesce_onto(absorb(ranges, leaves[0]), leaves.drop_first())
    }
}

/// The ranges that `leaves` make up once neighbours that continue each
/// other are merged.
pub open spec fn coalesce(leaves: Seq<MappedRange>) -> Seq<MappedRange> {
    coalesce_onto(Seq::empty(), leaves)
}

/// Takes `leaf` into `ranges`.
pub fn absorb_leaf(ranges: &mut Vec<MappedRange>, leaf: MappedRange)
    ensures
        final(ranges)@ == absorb(old(ranges)@, leaf),
{
    let count = ranges.len();
    if count > 0 {
        let last = ranges[count - 1];
        if last.virtual_end == leaf.virtual_start && last.physical_start as u128
            + last.virtual_end as u128 == leaf.physical_start as u128 + last.virtual_start as u128
            && last.permissions == leaf.permissions {
            ranges.set(count - 1, MappedRange { virtual_end: leaf.virtual_end, ..last });
            assert(ranges@ =~= absorb(old(ranges)@, leaf));
            return ;
        }
    }
    ranges.push(leaf);
}

/// Takes each of `leaves` into `ranges`, in order.
pub fn absorb_leaves(ranges: &mut Vec<MappedRange>, leaves: &[MappedRange])
    ensures
        final(ranges)@ == coalesce_onto(old(ranges)@, leaves@),
{
    let mut i: usize = 0;
    assert(leaves@.skip(0) =~= leaves@);
    while i < leaves.len()
        invariant
            i <= leaves.len(),
            coalesce_onto(ranges@, leaves@.skip(i as int)) == coalesce_onto(old(ranges)@, leaves@),
        decreases leaves.len() - i,
    {
        proof {
            assert(leaves@.skip(i as int)[0] == leaves@[i as int]);
            assert(leaves@.skip(i as int).drop_first() =~= leaves@.skip(i as int + 1));
        }
        absorb_leaf(ranges, leaves[i]);
        i += 1;
    }
}

/// Taking in the first of the leaves that are still to come changes
/// nothing about the ranges that come out in the end.
pub proof fn lemma_coalesce_first(ranges: Seq<MappedRange>, leaf: MappedRange, later: Seq<MappedRange>)
    ensures
        coalesce_onto(ranges, seq![leaf] + later) == coalesce_onto(absorb(ranges, leaf), later),
{
    assert((seq![leaf] + later).drop_first() =~= later);
}

/// Taking in leaves one run after another is taking them in as one run.
pub proof fn lemma_coalesce_onto_concat(
    ranges: Seq<MappedRange>,
    first: Seq<MappedRange>,
    second: Seq<MappedRange>,
)
    ensures
        coalesce_onto(ranges, first + second) == coalesce_onto(
            coalesce_onto(ranges, first),
            second,
        ),
    decreases first.len(),
{
    if first.len() == 0 {
        assert(first + second =~= second);
    } else {
        assert((first + second)[0] == first[0]);
        assert((first + second).drop_first() =~= first.drop_first() + second);
        lemma_coalesce_onto_concat(absorb(ranges, first[0]), first.drop_first(), second);
    }
}

proof fn lemma_coalesce_onto_push(
    ranges: Seq<MappedRange>,
    leaves: Seq<MappedRange>,
    leaf: MappedRange,
)
    ensures
        coalesce_onto(ranges, leaves.push(leaf)) == absorb(coalesce_onto(ranges, leaves), leaf),
{
    let last = seq![leaf];
    assert(leaves.push(leaf) =~= leaves + last);
    lemma_coalesce_onto_concat(ranges, leaves, last);
    let so_far = coalesce_onto(ranges, leaves);
    assert(last.drop_first() =~= Seq::<MappedRange>::empty());
    assert(coalesce_onto(absorb(so_far, last[0]), last.drop_first()) == absorb(so_far, leaf));
}

/// Taking in a leaf and the leaf that continues it is taking in the two
/// as one.
proof fn lemma_absorb_continued(ranges: Seq<MappedRange>, leaf: MappedRange, next: MappedRange)
    requires
        continues(leaf, next),
    ensures
        absorb(absorb(ranges, leaf), next) == absorb(
            ranges,
            MappedRange { virtual_end: next.virtual_end, ..leaf },
        ),
{
    let both = MappedRange { virtual_end: next.virtual_end, ..leaf };
    if ranges.len() > 0 && continues(ranges.last(), leaf) {
        let grown = MappedRange { virtual_end: leaf.virtual_end, ..ranges.last() };
        let taken = ranges.drop_last().push(grown);
        assert(continues(grown, next));
        assert(continues(ranges.last(), both));
        assert(taken.drop_last() =~= ranges.drop_last());
    } else {
        assert(ranges.push(leaf).drop_last() =~= ranges);
        if ranges.len() > 0 {
            assert(!continues(ranges.last(), both));
        }
    }
}

/// Leaves can be merged among themselves before they are taken in.
pub proof fn lemma_coalesce_onto_coalesced(ranges: Seq<MappedRange>, leaves: Seq<MappedRange>)
    ensures
        coalesce_onto(ranges, coalesce(leaves)) == coalesce_onto(ranges, leaves),
    decreases leaves.len(),
{
    if leaves.len() > 0 {
        let before = leaves.drop_last();
        let leaf = leaves.last();
        let merged = coalesce(before);
        assert(leaves =~= before.push(leaf));
        lemma_coalesce_onto_coalesced(ranges, before);
        lemma_coalesce_onto_push(Seq::empty(), before, leaf);
        lemma_coalesce_onto_push(ranges, before, leaf);
        if merged.len() == 0 {
            assert(absorb(merged, leaf) =~= seq![leaf]);
            assert(seq![leaf] =~= Seq::<MappedRange>::empty().push(leaf));
            lemma_coalesce_onto_push(ranges, Seq::empty(), leaf);
        } else if continues(merged.last(), leaf) {
            let both = MappedRange { virtual_end: leaf.virtual_end, ..merged.last() };
            assert(merged =~= merged.drop_last().push(merged.last()));
            lemma_coalesce_onto_push(ranges, merged.drop_last(), merged.last());
            lemma_coalesce_onto_push(ranges, merged.drop_last(), both);
            lemma_absorb_continued(
                coalesce_onto(ranges, merged.drop_last()),
                merged.last(),
                leaf,
            );
        } else {
            lemma_coalesce_onto_push(ranges, merged, leaf);
        }
    }
}

/// Leaves that were merged part by part, the parts following each other,
/// give the ranges of the whole once the ranges of the second part are
/// taken into the ranges of the first.
pub proof fn lemma_coalesce_parts(first: Seq<MappedRange>, second: Seq<MappedRange>)
    ensures
        coalesce_onto(coalesce(first), coalesce(second)) == coalesce(first + second),
{
    lemma_coalesce_onto_coalesced(coalesce(first), second);
    lemma_coalesce_onto_concat(Seq::empty(), first, second);
}

/// A single leaf comes out as a single range, neither split nor doubled.
pub proof fn lemma_coalesce_single(leaf: MappedRange)
    ensures
        coalesce(seq![leaf]) == seq![leaf],
{
    let leaves = seq![leaf];
    assert(leaves.drop_first() =~= Seq::<MappedRange>::empty());
    assert(absorb(Seq::empty(), leaves[0]) =~= leaves);
    assert(coalesce_onto(leaves, Seq::empty()) == leaves);
    assert(coalesce_onto(Seq::empty(), leaves) == coalesce_onto(
        absorb(Seq::empty(), leaves[0]),
        leaves.drop_first(),
    ));
}

/// Whether no leaf of `leaves` continues a leaf of `leaves`.
pub open spec fn separate(leaves: Seq<MappedRange>) -> bool {
    forall|i: int, j: int|
        #![trigger leaves[i], leaves[j]]
        0 <= i < leaves.len() && 0 <= j < leaves.len() ==> !continues(leaves[i], leaves[j])
}

proof fn lemma_coalesce_onto_separate(ranges: Seq<MappedRange>, leaves: Seq<MappedRange>)
    requires
        separate(leaves),
        ranges.len() > 0 ==> forall|j: int|
            0 <= j < leaves.len() ==> !continues(ranges.last(), #[trigger] leaves[j]),
    ensures
        coalesce_onto(ranges, leaves) == ranges + leaves,
    decreases leaves.len(),
{
    if leaves.len() == 0 {
        assert(ranges + leaves =~= ranges);
    } else {
        let first = leaves[0];
        let later = leaves.drop_first();
        assert(absorb(ranges, first) == ranges.push(first));
        assert forall|i: int, j: int|
            #![trigger later[i], later[j]]
            0 <= i < later.len() && 0 <= j < later.len() implies !continues(later[i], later[j]) by {
            assert(later[i] == leaves[i + 1] && later[j] == leaves[j + 1]);
        }
        assert forall|j: int| 0 <= j < later.len() implies !continues(
            ranges.push(first).last(),
            #[trigger] later[j],
        ) by {
            assert(later[j] == leaves[j + 1]);
        }
        lemma_coalesce_onto_separate(ranges.push(first), later);
        assert(ranges.push(first) + later =~= ranges + leaves);
    }
}

/// Leaves of which none continues another come out as they are, one
/// range for each.
pub proof fn lemma_coalesce_separate(leaves: Seq<MappedRange>)
    requires
        separate(leaves),
    ensures
        coalesce(leaves) == leaves,
{
    lemma_coalesce_onto_separate(Seq::empty(), leaves);
    assert(Seq::<MappedRange>::empty() + leaves =~= leaves);
}

/// Leaves of which none continues another come out one range for each in
/// whatever order they are taken in.
pub proof fn lemma_coalesce_any_order(leaves: Seq<MappedRange>, reordered: Seq<MappedRange>)
    requires
        separate(leaves),
        reordered.to_multiset() == leaves.to_multiset(),
    ensures
        coalesce(reordered) == reordered,
        coalesce(reordered).len() == leaves.len(),
{
    leaves.to_multiset_ensures();
    reordered.to_multiset_ensures();
    assert forall|i: int, j: int|
        #![trigger reordered[i], reordered[j]]
        0 <= i < reordered.len() && 0 <= j < reordered.len() implies !continues(
        reordered[i],
        reordered[j],
    ) by {
        assert(reordered.contains(reordered[i]));
        assert(reordered.contains(reordered[j]));
        assert(reordered.to_multiset().count(reordered[i]) > 0);
        assert(reordered.to_multiset().count(reordered[j]) > 0);
        assert(leaves.to_multiset().count(reordered[i]) > 0);
        assert(leaves.to_multiset().count(reordered[j]) > 0);
        assert(leaves.contains(reordered[i]));
        assert(leaves.contains(reordered[j]));
        let a = choose|a: int| 0 <= a < leaves.len() && leaves[a] == reordered[i];
        let b = choose|b: int| 0 <= b < leaves.len() && leaves[b] == reordered[j];
        assert(!continues(leaves[a], leaves[b]));
    }
    lemma_coalesce_separate(reordered);
}

/// Whether each leaf of `leaves` but the last is continued by the leaf
/// after it.
pub open spec fn chained(leaves: Seq<MappedRange>) -> bool {
    forall|i: int|
        0 <= i < leaves.len() - 1 ==> continues(#[trigger] leaves[i], leaves[i + 1])
}

proof fn lemma_coalesce_onto_chained(ranges: Seq<MappedRange>, leaves: Seq<MappedRange>)
    requires
        chained(leaves),
        leaves.len() > 0,
        ranges.len() > 0,
        continues(ranges.last(), leaves[0]),
    ensures
        coalesce_onto(ranges, leaves) == ranges.drop_last().push(
            MappedRange { virtual_end: leaves.last().virtual_end, ..ranges.last() },
        ),
    decreases leaves.len(),
{
    let first = leaves[0];
    let later = leaves.drop_first();
    let merged = MappedRange { virtual_end: first.virtual_end, ..ranges.last() };
    let taken = ranges.drop_last().push(merged);
    assert(absorb(ranges, first) == taken);
    if later.len() == 0 {
        assert(coalesce_onto(taken, later) == taken);
    } else {
        assert(later[0] == leaves[1]);
        assert(continues(leaves[0], leaves[1]));
        assert forall|i: int| 0 <= i < later.len() - 1 implies continues(
            #[trigger] later[i],
            later[i + 1],
        ) by {
            assert(later[i] == leaves[i + 1] && later[i + 1] == leaves[i + 2]);
            assert(continues(leaves[i + 1], leaves[i + 1 + 1]));
        }
        lemma_coalesce_onto_chained(taken, later);
        assert(taken.drop_last() =~= ranges.drop_last());
        assert(later.last() == leaves.last());
    }
}

/// Leaves of which each continues the one before it come out as one
/// range, from the start of the first to the end of the last.
pub proof fn lemma_coalesce_chained(leaves: Seq<MappedRange>)
    requires
        chained(leaves),
        leaves.len() > 0,
    ensures
        coalesce(leaves) == seq![
            MappedRange { virtual_end: leaves.last().virtual_end, ..leaves[0] },
        ],
{
    let first = leaves[0];
    let later = leaves.drop_first();
    assert(absorb(Seq::empty(), first) =~= seq![first]);
    if later.len() == 0 {
        assert(coalesce_onto(seq![first], later) == seq![first]);
    } else {
        assert(later[0] == leaves[1]);
        assert(continues(leaves[0], leaves[1]));
        assert forall|i: int| 0 <= i < later.len() - 1 implies continues(
            #[trigger] later[i],
            later[i + 1],
        ) by {
            assert(later[i] == leaves[i + 1] && later[i + 1] == leaves[i + 2]);
            assert(continues(leaves[i + 1], leaves[i + 1 + 1]));
        }
        lemma_coalesce_onto_chained(seq![first], later);
        assert(later.last() == leaves.last());
        assert(seq![first].drop_last().push(
            MappedRange { virtual_end: leaves.last().virtual_end, ..first },
        ) =~= seq![MappedRange { virtual_end: leaves.last().virtual_end, ..first }]);
    }
}

/// Whether none of `ranges` continues the range before it, so that no two
/// neighbours could be one range.
pub open spec fn minimal(ranges: Seq<MappedRange>) -> bool {
    forall|i: int| 0 <= i < ranges.len() - 1 ==> !continues(#[trigger] ranges[i], ranges[i + 1])
}

/// Taking leaves into ranges of which none continues the one before it
/// gives such ranges again.
pub proof fn lemma_coalesce_minimal(ranges: Seq<MappedRange>, leaves: Seq<MappedRange>)
    requires
        minimal(ranges),
    ensures
        minimal(coalesce_onto(ranges, leaves)),
    decreases leaves.len(),
{
    if leaves.len() > 0 {
        let first = leaves[0];
        let taken = absorb(ranges, first);
        assert forall|i: int| 0 <= i < taken.len() - 1 implies !continues(
            #[trigger] taken[i],
            taken[i + 1],
        ) by {
            if ranges.len() > 0 && continues(ranges.last(), first) {
                assert(taken[i] == ranges[i]);
                assert(!continues(ranges[i], ranges[i + 1]));
            } else if i < ranges.len() - 1 {
                assert(taken[i] == ranges[i]);
                assert(!continues(ranges[i], ranges[i + 1]));
            }
        }
        lemma_coalesce_minimal(taken, leaves.drop_first());
    }
}

/// Whether each of `ranges` holds at least one address.
pub open spec fn proper(ranges: Seq<MappedRange>) -> bool {
    forall|i: int|
        0 <= i < ranges.len() ==> (#[trigger] ranges[i]).virtual_start < ranges[i].virtual_end
}

/// Whether each of `ranges` ends before or where those after it start.
pub open spec fn ascending(ranges: Seq<MappedRange>) -> bool {
    forall|i: int, j: int|
        #![trigger ranges[i], ranges[j]]
        0 <= i < j < ranges.len() ==> ranges[i].virtual_end <= ranges[j].virtual_start
}

/// Taking leaves into ranges keeps the ascending order, where the leaves
/// come in ascending order behind the ranges.
pub proof fn lemma_coalesce_ascending(ranges: Seq<MappedRange>, leaves: Seq<MappedRange>)
    requires
        ascending(ranges + leaves),
        proper(ranges + leaves),
    ensures
        ascending(coalesce_onto(ranges, leaves)),
        proper(coalesce_onto(ranges, leaves)),
    decreases leaves.len(),
{
    let all = ranges + leaves;
    if leaves.len() == 0 {
        assert(all =~= ranges);
    } else {
        let first = leaves[0];
        let later = leaves.drop_first();
        let taken = absorb(ranges, first);
        let merges = ranges.len() > 0 && continues(ranges.last(), first);
        let next = taken + later;
        let shift: int = if merges {
            1
        } else {
            0
        };
        let last = taken.len() - 1;
        // Range `i` of `next` starts where range `starts(i)` of `all` starts, and
        // ends where range `ends(i)` of `all` ends.
        let starts = |i: int|
            if i <= last {
                i
            } else {
                i + shift
            };
        let ends = |i: int|
            if i < last {
                i
            } else {
                i + shift
            };
        assert(all[ranges.len() as int] == first);
        assert forall|i: int| 0 <= i < next.len() implies (#[trigger] next[i]).virtual_start
            == all[starts(i)].virtual_start && next[i].virtual_end == all[ends(i)].virtual_end by {
            if i < last {
                assert(next[i] == ranges[i]);
            } else if i == last {
                if merges {
                    assert(all[i] == ranges.last());
                }
            } else {
                assert(next[i] == later[i - taken.len()]);
                assert(all[i + shift] == leaves[i + shift - ranges.len()]);
            }
        }
        assert forall|i: int, j: int|
            #![trigger next[i], next[j]]
            0 <= i < j < next.len() implies next[i].virtual_end <= next[j].virtual_start by {
            assert(all[ends(i)].virtual_end <= all[starts(j)].virtual_start);
        }
        assert forall|i: int| 0 <= i < next.len() implies (#[trigger] next[i]).virtual_start
            < next[i].virtual_end by {
            assert(all[starts(i)].virtual_start < all[starts(i)].virtual_end);
            if starts(i) < ends(i) {
                assert(all[starts(i)].virtual_end <= all[ends(i)].virtual_start);
                assert(all[ends(i)].virtual_start < all[ends(i)].virtual_end);
            }
        }
        lemma_coalesce_ascending(taken, later);
    }
}

/// Whether `virtual_address` lies in `range`.
pub open spec fn holds(range: MappedRange, virtual_address: u64) -> bool {
    range.virtual_start <= virtual_address < range.virtual_end
}

/// Whether two ranges map the addresses they share alike: with the same
/// permissions, and at the same distance between virtual and physical
/// address.
pub open spec fn agree(first: MappedRange, second: MappedRange) -> bool {
    &&& first.permissions == second.permissions
    &&& first.physical_start - first.virtual_start == second.physical_start - second.virtual_start
}

/// Taking a leaf that holds an address into ranges that hold one each
/// gives ranges that hold one each.
proof fn lemma_absorb_proper(ranges: Seq<MappedRange>, leaf: MappedRange)
    requires
        proper(ranges),
        leaf.virtual_start < leaf.virtual_end,
    ensures
        proper(absorb(ranges, leaf)),
{
    let taken = absorb(ranges, leaf);
    assert forall|i: int| 0 <= i < taken.len() implies (#[trigger] taken[i]).virtual_start
        < taken[i].virtual_end by {
        if i < ranges.len() - 1 {
            assert(taken[i] == ranges[i]);
        } else if i < ranges.len() && !continues(ranges.last(), leaf) {
            assert(taken[i] == ranges[i]);
        }
    }
}

proof fn lemma_rest_proper(leaves: Seq<MappedRange>)
    requires
        proper(leaves),
        leaves.len() > 0,
    ensures
        proper(leaves.drop_first()),
        leaves[0].virtual_start < leaves[0].virtual_end,
{
    let later = leaves.drop_first();
    assert forall|i: int| 0 <= i < later.len() implies (#[trigger] later[i]).virtual_start
        < later[i].virtual_end by {
        assert(later[i] == leaves[i + 1]);
    }
}

/// Where the addresses of a merged range come from.
pub enum Source {
    /// From the range at this position among the ranges that leaves were
    /// taken into.
    Range(int),
    /// From the leaf at this position among the leaves that were taken in.
    Leaf(int),
}

/// An address in a range that came out of taking leaves into ranges lies
/// in one of those ranges or leaves, which maps it as the merged range
/// does. The one it lies in is handed back.
pub proof fn lemma_merged_source(
    ranges: Seq<MappedRange>,
    leaves: Seq<MappedRange>,
    position: int,
    virtual_address: u64,
) -> (source: Source)
    requires
        proper(ranges),
        proper(leaves),
        0 <= position < coalesce_onto(ranges, leaves).len(),
        holds(coalesce_onto(ranges, leaves)[position], virtual_address),
    ensures
        match source {
            Source::Range(i) => 0 <= i < ranges.len() && holds(ranges[i], virtual_address)
                && agree(ranges[i], coalesce_onto(ranges, leaves)[position]),
            Source::Leaf(j) => 0 <= j < leaves.len() && holds(leaves[j], virtual_address) && agree(
                leaves[j],
                coalesce_onto(ranges, leaves)[position],
            ),
        },
    decreases leaves.len(),
{
    if leaves.len() == 0 {
        Source::Range(position)
    } else {
        let first = leaves[0];
        let later = leaves.drop_first();
        let taken = absorb(ranges, first);
        let merges = ranges.len() > 0 && continues(ranges.last(), first);
        lemma_rest_proper(leaves);
        lemma_absorb_proper(ranges, first);
        match lemma_merged_source(taken, later, position, virtual_address) {
            Source::Leaf(j) => {
                assert(later[j] == leaves[j + 1]);
                Source::Leaf(j + 1)
            },
            Source::Range(i) => {
                if merges {
                    if i < ranges.len() - 1 {
                        assert(taken[i] == ranges[i]);
                        Source::Range(i)
                    } else if virtual_address < ranges.last().virtual_end {
                        Source::Range(i)
                    } else {
                        Source::Leaf(0)
                    }
                } else {
                    if i < ranges.len() {
                        assert(taken[i] == ranges[i]);
                        Source::Range(i)
                    } else {
                        Source::Leaf(0)
                    }
                }
            },
        }
    }
}

/// Ranges that leaves are taken into stay where they are: each starts
/// where it did and ends no earlier.
proof fn lemma_ranges_stay(ranges: Seq<MappedRange>, leaves: Seq<MappedRange>, position: int)
    requires
        proper(leaves),
        0 <= position < ranges.len(),
    ensures
        position < coalesce_onto(ranges, leaves).len(),
        coalesce_onto(ranges, leaves)[position].virtual_start == ranges[position].virtual_start,
        coalesce_onto(ranges, leaves)[position].virtual_end >= ranges[position].virtual_end,
    decreases leaves.len(),
{
    if leaves.len() > 0 {
        lemma_rest_proper(leaves);
        lemma_ranges_stay(absorb(ranges, leaves[0]), leaves.drop_first(), position);
    }
}

/// An address in a leaf lies in one of the ranges that come out of taking
/// the leaves into ranges. Its position is handed back.
pub proof fn lemma_leaf_is_merged(
    ranges: Seq<MappedRange>,
    leaves: Seq<MappedRange>,
    position: int,
    virtual_address: u64,
) -> (merged: int)
    requires
        proper(ranges),
        proper(leaves),
        0 <= position < leaves.len(),
        holds(leaves[position], virtual_address),
    ensures
        0 <= merged < coalesce_onto(ranges, leaves).len(),
        holds(coalesce_onto(ranges, leaves)[merged], virtual_address),
    decreases leaves.len(),
{
    let first = leaves[0];
    let later = leaves.drop_first();
    let taken = absorb(ranges, first);
    lemma_rest_proper(leaves);
    lemma_absorb_proper(ranges, first);
    if position == 0 {
        lemma_ranges_stay(taken, later, taken.len() - 1);
        taken.len() - 1
    } else {
        assert(later[position - 1] == leaves[position]);
        lemma_leaf_is_merged(taken, later, position - 1, virtual_address)
    }
}

} // verus!
