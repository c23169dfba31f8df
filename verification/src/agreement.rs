//! What the listing of a tree of page tables says of translation: every
//! address in a listed range translates as the range says, every address
//! that the tables map lies in a listed range, and every address under an
//! entry that gave rise to a diagnostic fails to translate as the
//! diagnostic says.

use crate::architecture::generic::Access;
use crate::architecture::riscv::{
    lemma_address_in_entry, lemma_index_of_address, lemma_span_bounds, lemma_span_step, EntryKind,
    MMUMode, PageTableEntry,
};
use crate::enumeration::{
    entry_finding, lemma_survey_split, spec_survey, survey_entry, survey_table, Finding,
    VIRTUAL_LIMIT,
};
use crate::memory::MemoryView;
use crate::ranges::{
    coalesce, holds, lemma_leaf_is_merged, lemma_merged_source, proper, MappedRange, Source,
};
use crate::translation::{
    in_same_span, landing, lemma_landing_same_span, spec_translate, table_entry, walk,
    Translation, TranslationError, TranslationFault,
};
use vstd::arithmetic::power2::lemma2_to64;
use vstd::prelude::*;

verus! {

/// What an access to `virtual_address` comes to if `range` says how the
/// address is mapped.
pub open spec fn mapped_by(range: MappedRange, virtual_address: u64, access: Access) -> Result<
    Translation,
    TranslationError,
> {
    if range.permissions.spec_allows(access) {
        Ok(
            Translation {
                physical_address: (range.physical_start + (virtual_address
                    - range.virtual_start)) as u64,
                permissions: range.permissions,
            },
        )
    } else {
        Err(TranslationError::Fault(TranslationFault::PermissionDenied))
    }
}

/// The leaves found in a stretch of a table lie, each with at least one
/// address, among the addresses that the stretch stands for.
pub proof fn lemma_leaf_place(
    memory: MemoryView,
    mode: MMUMode,
    table: u64,
    level: nat,
    from: nat,
    until: nat,
    table_start: nat,
    position: int,
)
    requires
        level < mode.level_count(),
        from <= until <= mode.entry_count(),
        table_start + mode.span(level + 1) <= VIRTUAL_LIMIT,
        0 <= position < survey_table(
            memory,
            mode,
            table,
            level,
            from,
            until,
            table_start + from * mode.span(level),
        ).leaves.len(),
    ensures
        ({
            let leaf = survey_table(
                memory,
                mode,
                table,
                level,
                from,
                until,
                table_start + from * mode.span(level),
            ).leaves[position];
            &&& table_start + from * mode.span(level) <= leaf.virtual_start
            &&& leaf.virtual_start < leaf.virtual_end
            &&& leaf.virtual_end <= table_start + until * mode.span(level)
        }),
    decreases level, until - from,
{
    let span = mode.span(level);
    let start = table_start + from * span;
    let here = survey_entry(memory, mode, table, level, from, start);
    let later = survey_table(memory, mode, table, level, from + 1, until, start + span);
    lemma_span_step(mode, level);
    assert(start + span == table_start + (from + 1) * span) by (nonlinear_arith)
        requires
            start == table_start + from * span,
    ;
    assert((from + 1) * span <= until * span <= mode.entry_count() * span) by (nonlinear_arith)
        requires
            from + 1 <= until <= mode.entry_count(),
            span >= 0,
    ;
    if position < here.leaves.len() {
        match entry_finding(memory, mode, table, level, from, start) {
            Finding::Descend(below) => {
                let inner = (level - 1) as nat;
                lemma_span_step(mode, inner);
                assert(start + 0 * mode.span(inner) == start) by (nonlinear_arith);
                assert(start + mode.entry_count() * mode.span(inner) == start + span);
                lemma_leaf_place(memory, mode, below, inner, 0, mode.entry_count(), start, position);
            },
            _ => {},
        }
    } else {
        lemma_leaf_place(
            memory,
            mode,
            table,
            level,
            from + 1,
            until,
            table_start,
            position - here.leaves.len(),
        );
    }
}

/// An address in a leaf that was found in a stretch of a table translates,
/// by the walk that starts in that table, as the leaf says.
pub proof fn lemma_leaf_translates(
    memory: MemoryView,
    mode: MMUMode,
    table: u64,
    level: nat,
    from: nat,
    until: nat,
    table_start: nat,
    position: int,
    virtual_address: u64,
    access: Access,
)
    requires
        level < mode.level_count(),
        from <= until <= mode.entry_count(),
        table_start % mode.span(level + 1) == 0,
        table_start + mode.span(level + 1) <= VIRTUAL_LIMIT,
        0 <= position < survey_table(
            memory,
            mode,
            table,
            level,
            from,
            until,
            table_start + from * mode.span(level),
        ).leaves.len(),
        holds(
            survey_table(
                memory,
                mode,
                table,
                level,
                from,
                until,
                table_start + from * mode.span(level),
            ).leaves[position],
            virtual_address,
        ),
    ensures
        walk(memory, mode, table, level, virtual_address, access) == mapped_by(
            survey_table(
                memory,
                mode,
                table,
                level,
                from,
                until,
                table_start + from * mode.span(level),
            ).leaves[position],
            virtual_address,
            access,
        ),
    decreases level, until - from,
{
    let span = mode.span(level);
    let start = table_start + from * span;
    let here = survey_entry(memory, mode, table, level, from, start);
    lemma_span_step(mode, level);
    assert(start + span == table_start + (from + 1) * span) by (nonlinear_arith)
        requires
            start == table_start + from * span,
    ;
    assert((from + 1) * span <= mode.entry_count() * span) by (nonlinear_arith)
        requires
            from + 1 <= mode.entry_count(),
            span >= 0,
    ;
    if position < here.leaves.len() {
        let raw = table_entry(memory, mode, table, from)->Ok_0;
        let entry = PageTableEntry::spec_decode(raw, mode);
        match entry_finding(memory, mode, table, level, from, start) {
            Finding::Leaf(leaf) => {
                lemma_index_of_address(mode, level, table_start, from, virtual_address);
                lemma2_to64();
            },
            Finding::Descend(below) => {
                let inner = (level - 1) as nat;
                lemma_span_step(mode, inner);
                assert(start + 0 * mode.span(inner) == start) by (nonlinear_arith);
                lemma_index_of_address(mode, level, table_start, from, start as u64);
                lemma_leaf_place(memory, mode, below, inner, 0, mode.entry_count(), start, position);
                lemma_leaf_translates(
                    memory,
                    mode,
                    below,
                    inner,
                    0,
                    mode.entry_count(),
                    start,
                    position,
                    virtual_address,
                    access,
                );
                lemma_index_of_address(mode, level, table_start, from, virtual_address);
                assert(entry.spec_kind() == EntryKind::Pointer);
            },
            _ => {},
        }
    } else {
        lemma_leaf_translates(
            memory,
            mode,
            table,
            level,
            from + 1,
            until,
            table_start,
            position - here.leaves.len(),
            virtual_address,
            access,
        );
    }
}

/// An address in a leaf of a tree translates as the leaf says.
pub proof fn lemma_listed_leaf_translates(
    memory: MemoryView,
    mode: MMUMode,
    root: u64,
    position: int,
    virtual_address: u64,
    access: Access,
)
    requires
        0 <= position < spec_survey(memory, mode, root).leaves.len(),
        holds(spec_survey(memory, mode, root).leaves[position], virtual_address),
    ensures
        spec_translate(memory, mode, root, virtual_address, access) == mapped_by(
            spec_survey(memory, mode, root).leaves[position],
            virtual_address,
            access,
        ),
{
    let top = (mode.level_count() - 1) as nat;
    lemma_span_bounds(mode, top + 1);
    assert(0 * mode.span(top) == 0) by (nonlinear_arith);
    lemma_leaf_translates(
        memory,
        mode,
        root,
        top,
        0,
        mode.entry_count(),
        0,
        position,
        virtual_address,
        access,
    );
}

/// An address in a range that the listing of a tree gives translates as
/// the range says: to the physical address as far from the start of the
/// range in physical memory as the address is in virtual memory, with the
/// permissions of the range, unless these refuse the access.
pub proof fn lemma_listed_range_translates(
    memory: MemoryView,
    mode: MMUMode,
    root: u64,
    position: int,
    virtual_address: u64,
    access: Access,
)
    requires
        0 <= position < coalesce(spec_survey(memory, mode, root).leaves).len(),
        holds(coalesce(spec_survey(memory, mode, root).leaves)[position], virtual_address),
    ensures
        spec_translate(memory, mode, root, virtual_address, access) == mapped_by(
            coalesce(spec_survey(memory, mode, root).leaves)[position],
            virtual_address,
            access,
        ),
{
    let top = (mode.level_count() - 1) as nat;
    let leaves = spec_survey(memory, mode, root).leaves;
    lemma_span_bounds(mode, top + 1);
    assert(0 * mode.span(top) == 0) by (nonlinear_arith);
    assert(proper(leaves)) by {
        assert forall|i: int| 0 <= i < leaves.len() implies (#[trigger] leaves[i]).virtual_start
            < leaves[i].virtual_end by {
            lemma_leaf_place(memory, mode, root, top, 0, mode.entry_count(), 0, i);
        }
    }
    match lemma_merged_source(Seq::empty(), leaves, position, virtual_address) {
        Source::Leaf(j) => {
            lemma_listed_leaf_translates(memory, mode, root, j, virtual_address, access);
        },
        Source::Range(_) => {},
    }
}

/// Whether a walk came to rest at a leaf that maps the address: it
/// resolved the address, or found the access denied.
pub open spec fn reaches_leaf(result: Result<Translation, TranslationError>) -> bool {
    result is Ok || result == Err::<Translation, TranslationError>(
        TranslationError::Fault(TranslationFault::PermissionDenied),
    )
}

/// An address that the walk from a table takes to a leaf lies in one of
/// the leaves found in that table. Its position is handed back.
pub proof fn lemma_mapped_is_found(
    memory: MemoryView,
    mode: MMUMode,
    table: u64,
    level: nat,
    table_start: nat,
    virtual_address: u64,
    access: Access,
) -> (position: int)
    requires
        level < mode.level_count(),
        table_start % mode.span(level + 1) == 0,
        table_start <= virtual_address < table_start + mode.span(level + 1),
        table_start + mode.span(level + 1) <= VIRTUAL_LIMIT,
        reaches_leaf(walk(memory, mode, table, level, virtual_address, access)),
    ensures
        0 <= position < survey_table(
            memory,
            mode,
            table,
            level,
            0,
            mode.entry_count(),
            table_start,
        ).leaves.len(),
        holds(
            survey_table(
                memory,
                mode,
                table,
                level,
                0,
                mode.entry_count(),
                table_start,
            ).leaves[position],
            virtual_address,
        ),
    decreases level,
{
    let span = mode.span(level);
    let count = mode.entry_count();
    let index = mode.table_index(virtual_address, level);
    lemma_address_in_entry(mode, level, table_start, virtual_address);
    lemma_index_of_address(mode, level, table_start, index, virtual_address);
    lemma_span_step(mode, level);
    let start = (table_start + index * span) as nat;
    assert(start + span <= table_start + count * span) by (nonlinear_arith)
        requires
            start == table_start + index * span,
            index + 1 <= count,
            span >= 0,
    ;
    lemma_survey_split(memory, mode, table, level, 0, index, count, table_start);
    let before = survey_table(memory, mode, table, level, 0, index, table_start);
    let here = survey_entry(memory, mode, table, level, index, start);
    let after = survey_table(memory, mode, table, level, index + 1, count, start + span);
    assert(survey_table(memory, mode, table, level, index, count, start) == here.followed_by(after));
    let leaves = survey_table(memory, mode, table, level, 0, count, table_start).leaves;
    assert(leaves == before.leaves + (here.leaves + after.leaves));
    let within: int = match entry_finding(memory, mode, table, level, index, start) {
        Finding::Descend(below) => {
            let inner = (level - 1) as nat;
            lemma_span_step(mode, inner);
            lemma_mapped_is_found(memory, mode, below, inner, start, virtual_address, access)
        },
        _ => 0,
    };
    assert(0 <= within < here.leaves.len() && holds(here.leaves[within], virtual_address));
    assert(leaves[before.leaves.len() + within] == here.leaves[within]);
    before.leaves.len() + within
}

/// An address within the virtual address space of the mode that the page
/// tables map lies in one of the ranges that the listing of the tree
/// gives. The position of the range is handed back.
pub proof fn lemma_mapped_address_is_listed(
    memory: MemoryView,
    mode: MMUMode,
    root: u64,
    virtual_address: u64,
    access: Access,
) -> (position: int)
    requires
        virtual_address < mode.span(mode.level_count()),
        reaches_leaf(spec_translate(memory, mode, root, virtual_address, access)),
    ensures
        0 <= position < coalesce(spec_survey(memory, mode, root).leaves).len(),
        holds(coalesce(spec_survey(memory, mode, root).leaves)[position], virtual_address),
{
    let top = (mode.level_count() - 1) as nat;
    let leaves = spec_survey(memory, mode, root).leaves;
    lemma_span_bounds(mode, top + 1);
    assert(0 * mode.span(top) == 0) by (nonlinear_arith);
    let found = lemma_mapped_is_found(memory, mode, root, top, 0, virtual_address, access);
    assert(proper(leaves)) by {
        assert forall|i: int| 0 <= i < leaves.len() implies (#[trigger] leaves[i]).virtual_start
            < leaves[i].virtual_end by {
            lemma_leaf_place(memory, mode, root, top, 0, mode.entry_count(), 0, i);
        }
    }
    lemma_leaf_is_merged(Seq::empty(), leaves, found, virtual_address)
}

/// The first address of a diagnostic found in a stretch of a table lies
/// among the addresses that the stretch stands for.
pub proof fn lemma_diagnostic_place(
    memory: MemoryView,
    mode: MMUMode,
    table: u64,
    level: nat,
    from: nat,
    until: nat,
    table_start: nat,
    position: int,
)
    requires
        level < mode.level_count(),
        from <= until <= mode.entry_count(),
        table_start + mode.span(level + 1) <= VIRTUAL_LIMIT,
        0 <= position < survey_table(
            memory,
            mode,
            table,
            level,
            from,
            until,
            table_start + from * mode.span(level),
        ).diagnostics.len(),
    ensures
        ({
            let diagnostic = survey_table(
                memory,
                mode,
                table,
                level,
                from,
                until,
                table_start + from * mode.span(level),
            ).diagnostics[position];
            table_start + from * mode.span(level) <= diagnostic.virtual_address < table_start
                + until * mode.span(level)
        }),
    decreases level, until - from,
{
    let span = mode.span(level);
    let start = table_start + from * span;
    let here = survey_entry(memory, mode, table, level, from, start);
    lemma_span_step(mode, level);
    assert(start + span == table_start + (from + 1) * span) by (nonlinear_arith)
        requires
            start == table_start + from * span,
    ;
    assert((from + 1) * span <= until * span <= mode.entry_count() * span) by (nonlinear_arith)
        requires
            from + 1 <= until <= mode.entry_count(),
            span >= 0,
    ;
    if position < here.diagnostics.len() {
        match entry_finding(memory, mode, table, level, from, start) {
            Finding::Descend(below) => {
                let inner = (level - 1) as nat;
                lemma_span_step(mode, inner);
                assert(start + 0 * mode.span(inner) == start) by (nonlinear_arith);
                assert(start + mode.entry_count() * mode.span(inner) == start + span);
                lemma_diagnostic_place(
                    memory,
                    mode,
                    below,
                    inner,
                    0,
                    mode.entry_count(),
                    start,
                    position,
                );
            },
            _ => {},
        }
    } else {
        lemma_diagnostic_place(
            memory,
            mode,
            table,
            level,
            from + 1,
            until,
            table_start,
            position - here.diagnostics.len(),
        );
    }
}

/// The walk from a table for the first address of a diagnostic found in a
/// stretch of that table comes to rest in a table of the level that the
/// diagnostic names, and fails as the diagnostic says, whatever the
/// access.
pub proof fn lemma_diagnostic_translates(
    memory: MemoryView,
    mode: MMUMode,
    table: u64,
    level: nat,
    from: nat,
    until: nat,
    table_start: nat,
    position: int,
    access: Access,
)
    requires
        level < mode.level_count(),
        from <= until <= mode.entry_count(),
        table_start % mode.span(level + 1) == 0,
        table_start + mode.span(level + 1) <= VIRTUAL_LIMIT,
        0 <= position < survey_table(
            memory,
            mode,
            table,
            level,
            from,
            until,
            table_start + from * mode.span(level),
        ).diagnostics.len(),
    ensures
        ({
            let diagnostic = survey_table(
                memory,
                mode,
                table,
                level,
                from,
                until,
                table_start + from * mode.span(level),
            ).diagnostics[position];
            &&& walk(memory, mode, table, level, diagnostic.virtual_address, access) == Err::<
                Translation,
                TranslationError,
            >(diagnostic.error)
            &&& landing(memory, mode, table, diagnostic.virtual_address, level).level()
                == diagnostic.level
        }),
    decreases level, until - from,
{
    let span = mode.span(level);
    let start = table_start + from * span;
    let here = survey_entry(memory, mode, table, level, from, start);
    lemma_span_step(mode, level);
    assert(start + span == table_start + (from + 1) * span) by (nonlinear_arith)
        requires
            start == table_start + from * span,
    ;
    assert((from + 1) * span <= mode.entry_count() * span) by (nonlinear_arith)
        requires
            from + 1 <= mode.entry_count(),
            span >= 0,
    ;
    if position < here.diagnostics.len() {
        match entry_finding(memory, mode, table, level, from, start) {
            Finding::Problem(diagnostic) => {
                lemma_index_of_address(mode, level, table_start, from, start as u64);
            },
            Finding::Descend(below) => {
                let inner = (level - 1) as nat;
                let entry = PageTableEntry::spec_decode(
                    table_entry(memory, mode, table, from)->Ok_0,
                    mode,
                );
                lemma_span_step(mode, inner);
                assert(start + 0 * mode.span(inner) == start) by (nonlinear_arith);
                lemma_index_of_address(mode, level, table_start, from, start as u64);
                lemma_diagnostic_place(
                    memory,
                    mode,
                    below,
                    inner,
                    0,
                    mode.entry_count(),
                    start,
                    position,
                );
                lemma_diagnostic_translates(
                    memory,
                    mode,
                    below,
                    inner,
                    0,
                    mode.entry_count(),
                    start,
                    position,
                    access,
                );
                lemma_index_of_address(
                    mode,
                    level,
                    table_start,
                    from,
                    here.diagnostics[position].virtual_address,
                );
                assert(entry.spec_kind() == EntryKind::Pointer);
            },
            _ => {},
        }
    } else {
        lemma_diagnostic_translates(
            memory,
            mode,
            table,
            level,
            from + 1,
            until,
            table_start,
            position - here.diagnostics.len(),
            access,
        );
    }
}

/// Every address under an entry that gave rise to a diagnostic fails to
/// translate as the diagnostic says, whatever the access.
pub proof fn lemma_listed_diagnostic_translates(
    memory: MemoryView,
    mode: MMUMode,
    root: u64,
    position: int,
    virtual_address: u64,
    access: Access,
)
    requires
        0 <= position < spec_survey(memory, mode, root).diagnostics.len(),
        in_same_span(
            mode,
            spec_survey(memory, mode, root).diagnostics[position].level as nat,
            spec_survey(memory, mode, root).diagnostics[position].virtual_address,
            virtual_address,
        ),
    ensures
        spec_translate(memory, mode, root, virtual_address, access) == Err::<
            Translation,
            TranslationError,
        >(spec_survey(memory, mode, root).diagnostics[position].error),
{
    let top = (mode.level_count() - 1) as nat;
    let diagnostic = spec_survey(memory, mode, root).diagnostics[position];
    lemma_span_bounds(mode, top + 1);
    assert(0 * mode.span(top) == 0) by (nonlinear_arith);
    lemma_diagnostic_translates(
        memory,
        mode,
        root,
        top,
        0,
        mode.entry_count(),
        0,
        position,
        access,
    );
    lemma_landing_same_span(
        memory,
        mode,
        root,
        top,
        diagnostic.virtual_address,
        virtual_address,
    );
}

} // verus!
