//! Enumeration of everything that a tree of page tables maps.
//!
//! The tree is traversed depth first, entry by entry, in ascending order of
//! virtual address. Leaves become mapped ranges, neighbouring ranges that
//! continue each other are merged, and entries that are malformed or
//! cannot be read are reported without stopping the traversal.

use crate::architecture::riscv::{
    lemma_span_bounds, lemma_span_step, EntryKind, MMUMode, PageTableEntry,
};
use crate::memory::MemoryView;
use crate::ranges::{
    absorb_leaf, coalesce, coalesce_onto, lemma_coalesce_first, lemma_coalesce_parts,
    lemma_coalesce_single, MappedRange,
};
use crate::translation::{
    table_entry, RadixPageTableWalker, TranslationError, TranslationFault,
};
use vstd::prelude::*;

verus! {

/// An entry that the traversal could not make sense of.
#[derive(Debug, Clone, Copy, PartialEq, Eq, Structural, Hash)]
pub struct Diagnostic {
    /// First virtual address that the entry stands for.
    pub virtual_address: u64,
    /// Level of the table that holds the entry.
    pub level: u64,
    pub error: TranslationError,
}

/// One past the highest virtual address that any paging mode reaches.
pub const VIRTUAL_LIMIT: u64 = 0x1_0000_0000_0000;

/// What a traversal finds, in the order in which it finds it.
pub struct Survey {
    pub leaves: Seq<MappedRange>,
    pub diagnostics: Seq<Diagnostic>,
}

impl Survey {
    pub open spec fn empty() -> Survey {
        Survey { leaves: Seq::empty(), diagnostics: Seq::empty() }
    }

    pub open spec fn leaf(range: MappedRange) -> Survey {
        Survey { leaves: seq![range], diagnostics: Seq::empty() }
    }

    pub open spec fn diagnostic(diagnostic: Diagnostic) -> Survey {
        Survey { leaves: Seq::empty(), diagnostics: seq![diagnostic] }
    }

    /// This survey followed by `later`.
    pub open spec fn followed_by(self, later: Survey) -> Survey {
        Survey {
            leaves: self.leaves + later.leaves,
            diagnostics: self.diagnostics + later.diagnostics,
        }
    }
}

/// What the traversal makes of a single table entry.
#[derive(Debug, Clone, Copy, PartialEq, Eq, Structural, Hash)]
pub enum Finding {
    /// The entry is not present.
    Nothing,
    /// The entry maps a range.
    Leaf(MappedRange),
    /// The entry is malformed or could not be read.
    Problem(Diagnostic),
    /// The entry points at the table of the next level below, at this
    /// physical address.
    Descend(u64),
}

/// What the traversal makes of entry `index` of the table of `level` at
/// `table`, the entry standing for the virtual addresses from
/// `virtual_address` on.
///
/// An entry that cannot be read is a problem. An entry that is not valid
/// is nothing. A pointer leads down, unless it has the accessed or the
/// dirty bit set or stands in a table of level 0, which are problems. A
/// leaf maps as many bytes as an entry of its level covers, unless its
/// physical address is not aligned to that, which is a problem.
pub open spec fn entry_finding(
    memory: MemoryView,
    mode: MMUMode,
    table: u64,
    level: nat,
    index: nat,
    virtual_address: nat,
) -> Finding {
    let problem = |error: TranslationError|
        Finding::Problem(
            Diagnostic { virtual_address: virtual_address as u64, level: level as u64, error },
        );
    match table_entry(memory, mode, table, index) {
        Err(error) => problem(TranslationError::Access(error)),
        Ok(raw) => {
            let entry = PageTableEntry::spec_decode(raw, mode);
            match entry.spec_kind() {
                EntryKind::NotPresent => Finding::Nothing,
                EntryKind::Reserved => problem(
                    TranslationError::Fault(TranslationFault::ReservedBitViolation),
                ),
                EntryKind::Pointer => if level == 0 {
                    problem(TranslationError::Fault(TranslationFault::ReservedBitViolation))
                } else {
                    Finding::Descend(entry.address)
                },
                EntryKind::Leaf => if entry.spec_is_aligned(mode, level) {
                    Finding::Leaf(
                        MappedRange {
                            virtual_start: virtual_address as u64,
                            virtual_end: (virtual_address + mode.span(level)) as u64,
                            physical_start: entry.address,
                            permissions: entry.spec_permissions(),
                        },
                    )
                } else {
                    problem(TranslationError::Fault(TranslationFault::MisalignedSuperpage))
                },
            }
        },
    }
}

/// What the traversal finds at entry `index` of the table of `level` at
/// `table`, and in the tables below it.
pub open spec fn survey_entry(
    memory: MemoryView,
    mode: MMUMode,
    table: u64,
    level: nat,
    index: nat,
    virtual_address: nat,
) -> Survey
    decreases level, 0nat,
{
    match entry_finding(memory, mode, table, level, index, virtual_address) {
        Finding::Nothing => Survey::empty(),
        Finding::Leaf(range) => Survey::leaf(range),
        Finding::Problem(diagnostic) => Survey::diagnostic(diagnostic),
        Finding::Descend(below) => if level == 0 {
            Survey::empty()
        } else {
            survey_table(
                memory,
                mode,
                below,
                (level - 1) as nat,
                0,
                mode.entry_count(),
                virtual_address,
            )
        },
    }
}

/// What the traversal finds in the entries from position `from` up to but
/// without position `until` of the table of `level` at `table`, and in
/// the tables below them, entry `from` standing for the virtual addresses
/// from `virtual_address` on.
pub open spec fn survey_table(
    memory: MemoryView,
    mode: MMUMode,
    table: u64,
    level: nat,
    from: nat,
    until: nat,
    virtual_address: nat,
) -> Survey
    decreases level, 1 + until - from,
{
    if from >= until {
        Survey::empty()
    } else {
        survey_entry(memory, mode, table, level, from, virtual_address).followed_by(
            survey_table(
                memory,
                mode,
                table,
                level,
                from + 1,
                until,
                virtual_address + mode.span(level),
            ),
        )
    }
}

/// What a traversal finds under the entries from position `first` up to
/// but without position `until` of the root table at `root`.
pub open spec fn spec_survey_shard(
    memory: MemoryView,
    mode: MMUMode,
    root: u64,
    first: nat,
    until: nat,
) -> Survey {
    let top = (mode.level_count() - 1) as nat;
    survey_table(memory, mode, root, top, first, until, first * mode.span(top))
}

/// What a traversal of the whole tree rooted at `root` finds.
pub open spec fn spec_survey(memory: MemoryView, mode: MMUMode, root: u64) -> Survey {
    spec_survey_shard(memory, mode, root, 0, mode.entry_count())
}

/// Whether entry `index` of the table at `table` can be read and is not
/// valid.
pub open spec fn entry_not_present(memory: MemoryView, mode: MMUMode, table: u64, index: nat) -> bool {
    table_entry(memory, mode, table, index) matches Ok(raw) && !PageTableEntry::spec_decode(
        raw,
        mode,
    ).spec_is_valid()
}

/// A stretch of entries of which none is valid yields nothing.
pub proof fn lemma_survey_nothing_present(
    memory: MemoryView,
    mode: MMUMode,
    table: u64,
    level: nat,
    from: nat,
    until: nat,
    virtual_address: nat,
)
    requires
        forall|index: nat|
            from <= index < until ==> #[trigger] entry_not_present(memory, mode, table, index),
    ensures
        survey_table(memory, mode, table, level, from, until, virtual_address) == Survey::empty(),
    decreases until - from,
{
    if from < until {
        assert(entry_not_present(memory, mode, table, from));
        lemma_survey_nothing_present(
            memory,
            mode,
            table,
            level,
            from + 1,
            until,
            virtual_address + mode.span(level),
        );
        let here = survey_entry(memory, mode, table, level, from, virtual_address);
        let later = survey_table(
            memory,
            mode,
            table,
            level,
            from + 1,
            until,
            virtual_address + mode.span(level),
        );
        assert(here == Survey::empty());
        assert(later == Survey::empty());
        assert(survey_table(memory, mode, table, level, from, until, virtual_address)
            == here.followed_by(later));
        assert(Seq::<MappedRange>::empty() + Seq::<MappedRange>::empty() =~= Seq::<
            MappedRange,
        >::empty());
        assert(Seq::<Diagnostic>::empty() + Seq::<Diagnostic>::empty() =~= Seq::<
            Diagnostic,
        >::empty());
    }
}

/// A stretch of entries yields what its first part yields, followed by
/// what its second part yields.
pub proof fn lemma_survey_split(
    memory: MemoryView,
    mode: MMUMode,
    table: u64,
    level: nat,
    from: nat,
    middle: nat,
    until: nat,
    virtual_address: nat,
)
    requires
        from <= middle <= until,
    ensures
        survey_table(memory, mode, table, level, from, until, virtual_address) == survey_table(
            memory,
            mode,
            table,
            level,
            from,
            middle,
            virtual_address,
        ).followed_by(
            survey_table(
                memory,
                mode,
                table,
                level,
                middle,
                until,
                (virtual_address + (middle - from) * mode.span(level)) as nat,
            ),
        ),
    decreases middle - from,
{
    let span = mode.span(level);
    let whole = survey_table(memory, mode, table, level, from, until, virtual_address);
    let first = survey_table(memory, mode, table, level, from, middle, virtual_address);
    let second = survey_table(
        memory,
        mode,
        table,
        level,
        middle,
        until,
        (virtual_address + (middle - from) * span) as nat,
    );
    if from == middle {
        assert((middle - from) * span == 0) by (nonlinear_arith)
            requires
                middle == from,
        ;
        assert(first == Survey::empty());
        assert(first.leaves + second.leaves =~= second.leaves);
        assert(first.diagnostics + second.diagnostics =~= second.diagnostics);
    } else {
        let here = survey_entry(memory, mode, table, level, from, virtual_address);
        lemma_survey_split(memory, mode, table, level, from + 1, middle, until, virtual_address + span);
        assert(span + (middle - (from + 1)) * span == (middle - from) * span) by (nonlinear_arith);
        let first_rest = survey_table(
            memory,
            mode,
            table,
            level,
            from + 1,
            middle,
            virtual_address + span,
        );
        assert(whole == here.followed_by(first_rest.followed_by(second)));
        assert(first == here.followed_by(first_rest));
        assert(here.leaves + (first_rest.leaves + second.leaves) =~= (here.leaves
            + first_rest.leaves) + second.leaves);
        assert(here.diagnostics + (first_rest.diagnostics + second.diagnostics) =~= (
        here.diagnostics + first_rest.diagnostics) + second.diagnostics);
    }
}

/// What is found under two stretches of the root table that follow each
/// other makes up what is found under the two as one stretch.
pub proof fn lemma_survey_shards(
    memory: MemoryView,
    mode: MMUMode,
    root: u64,
    first: nat,
    middle: nat,
    until: nat,
)
    requires
        first <= middle <= until,
    ensures
        spec_survey_shard(memory, mode, root, first, until) == spec_survey_shard(
            memory,
            mode,
            root,
            first,
            middle,
        ).followed_by(spec_survey_shard(memory, mode, root, middle, until)),
{
    let top = (mode.level_count() - 1) as nat;
    let span = mode.span(top);
    lemma_survey_split(memory, mode, root, top, first, middle, until, first * span);
    assert(first * span + (middle - first) * span == middle * span) by (nonlinear_arith);
}

/// The ranges and diagnostics of two parts of a tree, traversed each on
/// its own under stretches of the root table that follow each other, make
/// up those of the two parts as one: the ranges once those of the second
/// part are taken into those of the first, the diagnostics one after the
/// other.
pub proof fn lemma_shards_make_the_whole(
    memory: MemoryView,
    mode: MMUMode,
    root: u64,
    first: nat,
    middle: nat,
    until: nat,
)
    requires
        first <= middle <= until,
    ensures
        coalesce_onto(
            coalesce(spec_survey_shard(memory, mode, root, first, middle).leaves),
            coalesce(spec_survey_shard(memory, mode, root, middle, until).leaves),
        ) == coalesce(spec_survey_shard(memory, mode, root, first, until).leaves),
        spec_survey_shard(memory, mode, root, first, middle).diagnostics + spec_survey_shard(
            memory,
            mode,
            root,
            middle,
            until,
        ).diagnostics == spec_survey_shard(memory, mode, root, first, until).diagnostics,
{
    lemma_survey_shards(memory, mode, root, first, middle, until);
    lemma_coalesce_parts(
        spec_survey_shard(memory, mode, root, first, middle).leaves,
        spec_survey_shard(memory, mode, root, middle, until).leaves,
    );
}

/// A tree whose root table holds no valid entry maps nothing, and gives
/// rise to no diagnostic.
pub proof fn lemma_survey_empty_root(memory: MemoryView, mode: MMUMode, root: u64)
    requires
        forall|index: nat|
            index < mode.entry_count() ==> #[trigger] entry_not_present(memory, mode, root, index),
    ensures
        coalesce(spec_survey(memory, mode, root).leaves) == Seq::<MappedRange>::empty(),
        spec_survey(memory, mode, root).diagnostics == Seq::<Diagnostic>::empty(),
{
    lemma_survey_nothing_present(
        memory,
        mode,
        root,
        (mode.level_count() - 1) as nat,
        0,
        mode.entry_count(),
        0,
    );
}

/// A stretch of entries of which only the one at position `at` is valid
/// yields what that entry yields.
pub proof fn lemma_survey_lone_entry(
    memory: MemoryView,
    mode: MMUMode,
    table: u64,
    level: nat,
    from: nat,
    until: nat,
    virtual_address: nat,
    at: nat,
)
    requires
        from <= at < until,
        forall|index: nat|
            from <= index < until && index != at ==> #[trigger] entry_not_present(
                memory,
                mode,
                table,
                index,
            ),
    ensures
        survey_table(memory, mode, table, level, from, until, virtual_address) == survey_entry(
            memory,
            mode,
            table,
            level,
            at,
            (virtual_address + (at - from) * mode.span(level)) as nat,
        ),
    decreases at - from,
{
    let span = mode.span(level);
    let here = survey_entry(memory, mode, table, level, from, virtual_address);
    let later = survey_table(memory, mode, table, level, from + 1, until, virtual_address + span);
    if from == at {
        assert((at - from) * span == 0) by (nonlinear_arith)
            requires
                at == from,
        ;
        lemma_survey_nothing_present(
            memory,
            mode,
            table,
            level,
            from + 1,
            until,
            virtual_address + span,
        );
        assert(here.leaves + later.leaves =~= here.leaves);
        assert(here.diagnostics + later.diagnostics =~= here.diagnostics);
    } else {
        assert(entry_not_present(memory, mode, table, from));
        lemma_survey_lone_entry(
            memory,
            mode,
            table,
            level,
            from + 1,
            until,
            virtual_address + span,
            at,
        );
        assert(span + (at - (from + 1)) * span == (at - from) * span) by (nonlinear_arith);
        assert(here.leaves + later.leaves =~= later.leaves);
        assert(here.diagnostics + later.diagnostics =~= later.diagnostics);
    }
}

/// A tree whose root table holds a single valid entry, an aligned leaf,
/// maps exactly one range: as many bytes as an entry of the root table
/// covers, from the virtual address that the entry's position gives.
pub proof fn lemma_survey_lone_leaf(memory: MemoryView, mode: MMUMode, root: u64, at: nat)
    requires
        at < mode.entry_count(),
        forall|index: nat|
            index < mode.entry_count() && index != at ==> #[trigger] entry_not_present(
                memory,
                mode,
                root,
                index,
            ),
        table_entry(memory, mode, root, at) matches Ok(raw) && ({
            let entry = PageTableEntry::spec_decode(raw, mode);
            entry.spec_kind() == EntryKind::Leaf && entry.spec_is_aligned(
                mode,
                (mode.level_count() - 1) as nat,
            )
        }),
    ensures
        ({
            let top = (mode.level_count() - 1) as nat;
            let entry = PageTableEntry::spec_decode(table_entry(memory, mode, root, at)->Ok_0, mode);
            let start = at * mode.span(top);
            &&& coalesce(spec_survey(memory, mode, root).leaves) == seq![
                MappedRange {
                    virtual_start: start as u64,
                    virtual_end: (start + mode.span(top)) as u64,
                    physical_start: entry.address,
                    permissions: entry.spec_permissions(),
                },
            ]
            &&& start + mode.span(top) <= VIRTUAL_LIMIT
            &&& spec_survey(memory, mode, root).diagnostics == Seq::<Diagnostic>::empty()
        }),
{
    let top = (mode.level_count() - 1) as nat;
    let span = mode.span(top);
    lemma_survey_lone_entry(memory, mode, root, top, 0, mode.entry_count(), 0, at);
    let entry = PageTableEntry::spec_decode(table_entry(memory, mode, root, at)->Ok_0, mode);
    let range = MappedRange {
        virtual_start: (at * span) as u64,
        virtual_end: (at * span + span) as u64,
        physical_start: entry.address,
        permissions: entry.spec_permissions(),
    };
    lemma_coalesce_single(range);
    lemma_span_step(mode, top);
    lemma_span_bounds(mode, top + 1);
    assert(at * span + span <= mode.entry_count() * span) by (nonlinear_arith)
        requires
            at < mode.entry_count(),
            span >= 0,
    ;
}

/// Examines entry `index` of the table of `level` at `table`, the entry
/// standing for the virtual addresses from `virtual_address` on.
pub fn examine_entry(
    walker: &RadixPageTableWalker,
    table: u64,
    level: u64,
    index: u64,
    virtual_address: u64,
) -> (finding: Finding)
    requires
        level < walker.mode().level_count(),
        index < walker.mode().entry_count(),
        virtual_address + walker.mode().span(level as nat) <= VIRTUAL_LIMIT,
    ensures
        finding == entry_finding(
            walker.memory(),
            walker.mode(),
            table,
            level as nat,
            index as nat,
            virtual_address as nat,
        ),
{
    let raw = match walker.read_entry(table, index) {
        Ok(raw) => raw,
        Err(error) => {
            return Finding::Problem(
                Diagnostic { virtual_address, level, error: TranslationError::Access(error) },
            );
        },
    };
    let entry = walker.mmu.decode_entry(raw);
    let reserved = Finding::Problem(
        Diagnostic {
            virtual_address,
            level,
            error: TranslationError::Fault(TranslationFault::ReservedBitViolation),
        },
    );
    match entry.kind() {
        EntryKind::NotPresent => Finding::Nothing,
        EntryKind::Reserved => reserved,
        EntryKind::Pointer => if level == 0 {
            reserved
        } else {
            Finding::Descend(entry.address)
        },
        EntryKind::Leaf => if walker.mmu.is_aligned(&entry, level) {
            let span = walker.mmu.span(level);
            Finding::Leaf(
                MappedRange {
                    virtual_start: virtual_address,
                    virtual_end: virtual_address + span,
                    physical_start: entry.address,
                    permissions: entry.permissions(),
                },
            )
        } else {
            Finding::Problem(
                Diagnostic {
                    virtual_address,
                    level,
                    error: TranslationError::Fault(TranslationFault::MisalignedSuperpage),
                },
            )
        },
    }
}

/// A table that the traversal is in, with the entry it comes to next.
#[derive(Clone, Copy)]
struct Frame {
    table: u64,
    level: u64,
    /// Position of the next entry to examine.
    next: u64,
    /// Position after the last entry to examine.
    until: u64,
    /// First virtual address that the next entry stands for.
    virtual_address: u64,
}

impl Frame {
    /// What the traversal still finds in this frame's table.
    spec fn survey(self, memory: MemoryView, mode: MMUMode) -> Survey {
        survey_table(
            memory,
            mode,
            self.table,
            self.level as nat,
            self.next as nat,
            self.until as nat,
            self.virtual_address as nat,
        )
    }

    /// A frame at position `depth` of the stack is one level below the
    /// frame before it, and its remaining entries end within the virtual
    /// address space.
    spec fn fits(self, mode: MMUMode, depth: int) -> bool {
        &&& self.level + depth + 1 == mode.level_count()
        &&& self.next <= self.until <= mode.entry_count()
        &&& self.virtual_address + (self.until - self.next) * mode.span(self.level as nat)
            <= VIRTUAL_LIMIT
    }
}

/// What the traversal still finds in the tables of `frames`, the last
/// frame being the innermost.
spec fn pending_of(memory: MemoryView, mode: MMUMode, frames: Seq<Frame>) -> Survey
    decreases frames.len(),
{
    if frames.len() == 0 {
        Survey::empty()
    } else {
        frames.last().survey(memory, mode).followed_by(
            pending_of(memory, mode, frames.drop_last()),
        )
    }
}

/// An upper bound on the steps that one entry of a table of `level` takes,
/// the table below it included.
spec fn entry_steps(level: nat) -> nat
    decreases level,
{
    if level == 0 {
        1
    } else {
        1024 * entry_steps((level - 1) as nat) + 2
    }
}

/// An upper bound on the steps that `entries` entries of a table of
/// `level` take.
spec fn table_steps(level: nat, entries: nat) -> nat
    decreases entries,
{
    if entries == 0 {
        0
    } else {
        entry_steps(level) + table_steps(level, (entries - 1) as nat)
    }
}

/// An upper bound on the steps that the tables of `frames` still take.
spec fn steps_of(frames: Seq<Frame>) -> nat
    decreases frames.len(),
{
    if frames.len() == 0 {
        0
    } else {
        1 + table_steps(
            frames.last().level as nat,
            (frames.last().until - frames.last().next) as nat,
        ) + steps_of(frames.drop_last())
    }
}

proof fn lemma_table_steps(level: nat, entries: nat)
    requires
        entries <= 1024,
    ensures
        table_steps(level, entries) <= 1024 * entry_steps(level),
    decreases entries,
{
    let each = entry_steps(level);
    if entries > 0 {
        lemma_table_steps_product(level, (entries - 1) as nat);
    }
    lemma_table_steps_product(level, entries);
    assert(entries * each <= 1024 * each) by (nonlinear_arith)
        requires
            entries <= 1024,
            each >= 0,
    ;
}

proof fn lemma_table_steps_product(level: nat, entries: nat)
    ensures
        table_steps(level, entries) == entries * entry_steps(level),
    decreases entries,
{
    let each = entry_steps(level);
    if entries > 0 {
        lemma_table_steps_product(level, (entries - 1) as nat);
        assert(entries * each == each + (entries - 1) * each) by (nonlinear_arith);
    } else {
        assert(entries * each == 0) by (nonlinear_arith)
            requires
                entries == 0,
        ;
    }
}

/// The innermost frame is surveyed first, the frames around it after it.
proof fn lemma_pending_push(memory: MemoryView, mode: MMUMode, frames: Seq<Frame>, frame: Frame)
    ensures
        pending_of(memory, mode, frames.push(frame)) == frame.survey(memory, mode).followed_by(
            pending_of(memory, mode, frames),
        ),
        steps_of(frames.push(frame)) == 1 + table_steps(
            frame.level as nat,
            (frame.until - frame.next) as nat,
        ) + steps_of(frames),
{
    assert(frames.push(frame).drop_last() =~= frames);
}

/// What is pending in front of an entry is what the entry yields,
/// followed by what is pending behind it; and examining the entry is paid
/// for out of the steps that were left.
proof fn lemma_pending_advance(
    memory: MemoryView,
    mode: MMUMode,
    below: Seq<Frame>,
    top: Frame,
    advanced: Frame,
)
    requires
        top.next < top.until,
        advanced.table == top.table,
        advanced.level == top.level,
        advanced.until == top.until,
        advanced.next == top.next + 1,
        advanced.virtual_address == top.virtual_address + mode.span(top.level as nat),
    ensures
        ({
            let found = survey_entry(
                memory,
                mode,
                top.table,
                top.level as nat,
                top.next as nat,
                top.virtual_address as nat,
            );
            let before = pending_of(memory, mode, below.push(top));
            let after = pending_of(memory, mode, below.push(advanced));
            &&& before.leaves == found.leaves + after.leaves
            &&& before.diagnostics == found.diagnostics + after.diagnostics
            &&& steps_of(below.push(top)) == entry_steps(top.level as nat) + steps_of(
                below.push(advanced),
            )
        }),
{
    let found = survey_entry(
        memory,
        mode,
        top.table,
        top.level as nat,
        top.next as nat,
        top.virtual_address as nat,
    );
    let later = advanced.survey(memory, mode);
    let rest = pending_of(memory, mode, below);
    lemma_pending_push(memory, mode, below, top);
    lemma_pending_push(memory, mode, below, advanced);
    assert(top.survey(memory, mode) == found.followed_by(later));
    assert((found.leaves + later.leaves) + rest.leaves =~= found.leaves + (later.leaves
        + rest.leaves));
    assert((found.diagnostics + later.diagnostics) + rest.diagnostics =~= found.diagnostics + (
    later.diagnostics + rest.diagnostics));
}

/// Going down into a table costs less than the entry that leads there
/// was given.
proof fn lemma_descend_steps(level: nat, entries: nat)
    requires
        level > 0,
        entries <= 1024,
    ensures
        1 + table_steps((level - 1) as nat, entries) < entry_steps(level),
{
    lemma_table_steps((level - 1) as nat, entries);
}

/// A traversal that can be taken one entry at a time.
///
/// Whoever drives the cursor decides between two steps whether to go on,
/// so a traversal of a large tree can be given up at any entry. What was
/// found up to there stays available.
pub struct EnumerationCursor<'a> {
    walker: RadixPageTableWalker<'a>,
    frames: Vec<Frame>,
    ranges: Vec<MappedRange>,
    diagnostics: Vec<Diagnostic>,
}

impl<'a> EnumerationCursor<'a> {
    /// The invariant of a cursor: its frames lead from the root table
    /// down, one level at a time.
    pub closed spec fn wf(&self) -> bool {
        forall|k: int|
            0 <= k < self.frames@.len() ==> (#[trigger] self.frames@[k]).fits(
                self.walker.mmu.mode,
                k,
            )
    }

    /// The physical memory that holds the tables.
    pub closed spec fn memory(&self) -> MemoryView {
        self.walker.memory@
    }

    /// The paging mode of the tables.
    pub closed spec fn mode(&self) -> MMUMode {
        self.walker.mmu.mode
    }

    /// The merged ranges found so far.
    pub closed spec fn ranges(&self) -> Seq<MappedRange> {
        self.ranges@
    }

    /// The diagnostics recorded so far.
    pub closed spec fn diagnostics(&self) -> Seq<Diagnostic> {
        self.diagnostics@
    }

    /// What the traversal has yet to find.
    pub closed spec fn pending(&self) -> Survey {
        pending_of(self.memory(), self.mode(), self.frames@)
    }

    /// Whether the traversal has come to its end.
    pub closed spec fn spec_is_done(&self) -> bool {
        self.frames@.len() == 0
    }

    /// An upper bound on the number of steps that are left.
    pub closed spec fn remaining_steps(&self) -> nat {
        steps_of(self.frames@)
    }

    /// The ranges that the cursor will hold at the end of the traversal.
    pub open spec fn expected_ranges(&self) -> Seq<MappedRange> {
        coalesce_onto(self.ranges(), self.pending().leaves)
    }

    /// The diagnostics that the cursor will hold at the end of the
    /// traversal.
    pub open spec fn expected_diagnostics(&self) -> Seq<Diagnostic> {
        self.diagnostics() + self.pending().diagnostics
    }

    /// A cursor in front of the first entry of the root table at `root`.
    pub fn new(walker: RadixPageTableWalker<'a>, root: u64) -> (cursor: Self)
        ensures
            cursor.wf(),
            cursor.memory() == walker.memory(),
            cursor.mode() == walker.mode(),
            cursor.ranges() == Seq::<MappedRange>::empty(),
            cursor.diagnostics() == Seq::<Diagnostic>::empty(),
            cursor.pending().leaves == spec_survey(walker.memory(), walker.mode(), root).leaves,
            cursor.pending().diagnostics == spec_survey(
                walker.memory(),
                walker.mode(),
                root,
            ).diagnostics,
    {
        let count = walker.mmu.entry_count();
        EnumerationCursor::for_shard(walker, root, 0, count)
    }

    /// A cursor for a part of the tree: in front of entry `first` of the
    /// root table at `root`, and coming to its end before entry `until`.
    ///
    /// The parts of a tree under stretches of the root table that follow
    /// each other can be traversed independently of each other, and what
    /// was found in them put together afterwards.
    pub fn for_shard(walker: RadixPageTableWalker<'a>, root: u64, first: u64, until: u64) -> (cursor:
        Self)
        requires
            first <= until <= walker.mode().entry_count(),
        ensures
            cursor.wf(),
            cursor.memory() == walker.memory(),
            cursor.mode() == walker.mode(),
            cursor.ranges() == Seq::<MappedRange>::empty(),
            cursor.diagnostics() == Seq::<Diagnostic>::empty(),
            cursor.pending().leaves == spec_survey_shard(
                walker.memory(),
                walker.mode(),
                root,
                first as nat,
                until as nat,
            ).leaves,
            cursor.pending().diagnostics == spec_survey_shard(
                walker.memory(),
                walker.mode(),
                root,
                first as nat,
                until as nat,
            ).diagnostics,
    {
        let level = walker.mmu.level_count() - 1;
        let span = walker.mmu.span(level);
        proof {
            let mode = walker.mmu.mode;
            lemma_span_step(mode, level as nat);
            lemma_span_bounds(mode, level as nat + 1);
            assert(first * span + (until - first) * span == until * span) by (nonlinear_arith);
            assert(until * span <= mode.entry_count() * span) by (nonlinear_arith)
                requires
                    until <= mode.entry_count(),
                    span >= 0,
            ;
            assert((until - first) * span >= 0) by (nonlinear_arith)
                requires
                    until >= first,
                    span >= 0,
            ;
        }
        let frame = Frame { table: root, level, next: first, until, virtual_address: first * span };
        let mut frames = Vec::new();
        frames.push(frame);
        proof {
            let mode = walker.mmu.mode;
            assert(frames@.drop_last() =~= Seq::<Frame>::empty());
            assert(pending_of(walker.memory@, mode, frames@.drop_last()) == Survey::empty());
            let survey = spec_survey_shard(
                walker.memory(),
                walker.mode(),
                root,
                first as nat,
                until as nat,
            );
            assert(survey.leaves + Seq::<MappedRange>::empty() =~= survey.leaves);
            assert(survey.diagnostics + Seq::<Diagnostic>::empty() =~= survey.diagnostics);
        }
        EnumerationCursor { walker, frames, ranges: Vec::new(), diagnostics: Vec::new() }
    }

    /// Whether the traversal has come to its end.
    #[verifier::when_used_as_spec(spec_is_done)]
    pub fn is_done(&self) -> (done: bool)
        ensures
            done == self.spec_is_done(),
            done ==> self.pending() == Survey::empty(),
    {
        self.frames.len() == 0
    }

    /// Takes the traversal one step further: examines the next entry, or
    /// leaves a table whose entries are used up.
    ///
    /// What the cursor holds together with what it has yet to find stays
    /// the same, and the number of steps left goes down.
    pub fn step(&mut self)
        requires
            old(self).wf(),
        ensures
            final(self).wf(),
            final(self).memory() == old(self).memory(),
            final(self).mode() == old(self).mode(),
            final(self).expected_ranges() == old(self).expected_ranges(),
            final(self).expected_diagnostics() == old(self).expected_diagnostics(),
            old(self).spec_is_done() ==> final(self).spec_is_done(),
            !old(self).spec_is_done() ==> final(self).remaining_steps() < old(
                self,
            ).remaining_steps(),
    {
        let depth = self.frames.len();
        if depth == 0 {
            return ;
        }
        let top = self.frames[depth - 1];
        let mmu = self.walker.mmu;
        let count = mmu.entry_count();
        let ghost memory = self.walker.memory@;
        let ghost mode = mmu.mode;
        let ghost below = self.frames@.drop_last();
        proof {
            assert(top.fits(mode, depth - 1));
            assert(self.frames@ =~= below.push(top));
        }
        if top.next >= top.until {
            self.frames.pop();
            proof {
                let rest = pending_of(memory, mode, below);
                assert(self.frames@ =~= below);
                lemma_pending_push(memory, mode, below, top);
                assert(top.survey(memory, mode) == Survey::empty());
                assert(Seq::<MappedRange>::empty() + rest.leaves =~= rest.leaves);
                assert(Seq::<Diagnostic>::empty() + rest.diagnostics =~= rest.diagnostics);
            }
            return ;
        }
        let span = mmu.span(top.level);
        proof {
            let left = top.until - top.next;
            assert(left * span == span + (left - 1) * span) by (nonlinear_arith);
            assert((left - 1) * span >= 0) by (nonlinear_arith)
                requires
                    left >= 1,
                    span >= 0,
            ;
        }
        let finding = examine_entry(&self.walker, top.table, top.level, top.next, top.virtual_address);
        let advanced = Frame {
            table: top.table,
            level: top.level,
            next: top.next + 1,
            until: top.until,
            virtual_address: top.virtual_address + span,
        };
        self.frames.set(depth - 1, advanced);
        let ghost later = pending_of(memory, mode, below.push(advanced));
        proof {
            assert(self.frames@ =~= below.push(advanced));
            assert(advanced.fits(mode, depth - 1));
            lemma_pending_advance(memory, mode, below, top, advanced);
        }
        match finding {
            Finding::Nothing => {
                proof {
                    assert(Seq::<MappedRange>::empty() + later.leaves =~= later.leaves);
                    assert(Seq::<Diagnostic>::empty() + later.diagnostics =~= later.diagnostics);
                }
            },
            Finding::Leaf(range) => {
                absorb_leaf(&mut self.ranges, range);
                proof {
                    lemma_coalesce_first(old(self).ranges@, range, later.leaves);
                    assert(Seq::<Diagnostic>::empty() + later.diagnostics =~= later.diagnostics);
                }
            },
            Finding::Problem(diagnostic) => {
                self.diagnostics.push(diagnostic);
                proof {
                    assert(Seq::<MappedRange>::empty() + later.leaves =~= later.leaves);
                    assert(old(self).diagnostics@ + (seq![diagnostic] + later.diagnostics)
                        =~= self.diagnostics@ + later.diagnostics);
                }
            },
            Finding::Descend(table) => {
                let inner = Frame {
                    table,
                    level: top.level - 1,
                    next: 0,
                    until: count,
                    virtual_address: top.virtual_address,
                };
                self.frames.push(inner);
                proof {
                    lemma_span_step(mode, (top.level - 1) as nat);
                    assert(inner.fits(mode, depth as int));
                    assert(self.frames@ =~= below.push(advanced).push(inner));
                    lemma_pending_push(memory, mode, below.push(advanced), inner);
                    lemma_descend_steps(top.level as nat, count as nat);
                }
            },
        }
    }

    /// Takes the traversal to its end and gives what it found.
    pub fn finish(self) -> (parts: (Vec<MappedRange>, Vec<Diagnostic>))
        requires
            self.wf(),
        ensures
            parts.0@ == self.expected_ranges(),
            parts.1@ == self.expected_diagnostics(),
    {
        let mut cursor = self;
        while !cursor.is_done()
            invariant
                cursor.wf(),
                cursor.expected_ranges() == self.expected_ranges(),
                cursor.expected_diagnostics() == self.expected_diagnostics(),
            decreases cursor.remaining_steps(),
        {
            cursor.step();
        }
        assert(cursor.expected_diagnostics() =~= cursor.diagnostics());
        cursor.into_parts()
    }

    /// Gives up the cursor for what it has found so far.
    pub fn into_parts(self) -> (parts: (Vec<MappedRange>, Vec<Diagnostic>))
        ensures
            parts.0@ == self.ranges(),
            parts.1@ == self.diagnostics(),
    {
        (self.ranges, self.diagnostics)
    }
}

} // verus!
