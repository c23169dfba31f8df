//! The order of a listing: its ranges come in ascending order of virtual
//! address, apart from each other, and no range continues the one before
//! it.

use crate::agreement::lemma_leaf_place;
use crate::architecture::riscv::{lemma_span_bounds, lemma_span_step, MMUMode};
use crate::enumeration::{
    entry_finding, spec_survey, survey_entry, survey_table, Finding, VIRTUAL_LIMIT,
};
use crate::memory::MemoryView;
use crate::ranges::{
    ascending, coalesce, lemma_coalesce_ascending, lemma_coalesce_minimal, minimal, proper,
    MappedRange,
};
use vstd::prelude::*;

verus! {

/// The leaves found in a stretch of a table come in ascending order.
pub proof fn lemma_leaves_ascend(
    memory: MemoryView,
    mode: MMUMode,
    table: u64,
    level: nat,
    from: nat,
    until: nat,
    table_start: nat,
    earlier: int,
    later: int,
)
    requires
        level < mode.level_count(),
        from <= until <= mode.entry_count(),
        table_start + mode.span(level + 1) <= VIRTUAL_LIMIT,
        0 <= earlier < later < survey_table(
            memory,
            mode,
            table,
            level,
            from,
            until,
            table_start + from * mode.span(level),
        ).leaves.len(),
    ensures
        ({
            let leaves = survey_table(
                memory,
                mode,
                table,
                level,
                from,
                until,
                table_start + from * mode.span(level),
            ).leaves;
            leaves[earlier].virtual_end <= leaves[later].virtual_start
        }),
    decreases level, until - from,
{
    let span = mode.span(level);
    let start = table_start + from * span;
    let here = survey_entry(memory, mode, table, level, from, start);
    lemma_span_step(mode, level);
    assert(start + span == table_start + (from + 1) * span) by (nonlinear_arith)
        requires
            start == table_start + from * span,
    ;
    assert((from + 1) * span <= mode.entry_count() * span) by (nonlinear_arith)
        requires
            from + 1 <= mode.entry_count(),
            span >= 0,
    ;
    let inner = (level - 1) as nat;
    if later < here.leaves.len() {
        match entry_finding(memory, mode, table, level, from, start) {
            Finding::Descend(below) => {
                lemma_span_step(mode, inner);
                assert(start + 0 * mode.span(inner) == start) by (nonlinear_arith);
                lemma_leaves_ascend(
                    memory,
                    mode,
                    below,
                    inner,
                    0,
                    mode.entry_count(),
                    start,
                    earlier,
                    later,
                );
            },
            _ => {},
        }
    } else if earlier < here.leaves.len() {
        match entry_finding(memory, mode, table, level, from, start) {
            Finding::Descend(below) => {
                lemma_span_step(mode, inner);
                assert(start + 0 * mode.span(inner) == start) by (nonlinear_arith);
                lemma_leaf_place(memory, mode, below, inner, 0, mode.entry_count(), start, earlier);
            },
            _ => {},
        }
        lemma_leaf_place(
            memory,
            mode,
            table,
            level,
            from + 1,
            until,
            table_start,
            later - here.leaves.len(),
        );
    } else {
        lemma_leaves_ascend(
            memory,
            mode,
            table,
            level,
            from + 1,
            until,
            table_start,
            earlier - here.leaves.len(),
            later - here.leaves.len(),
        );
    }
}

/// The listing of a tree is ordered and minimal: its ranges hold at least
/// one address each, come in ascending order without overlap, and none of
/// them continues the one before it.
pub proof fn lemma_listing_ordered_and_minimal(memory: MemoryView, mode: MMUMode, root: u64)
    ensures
        proper(coalesce(spec_survey(memory, mode, root).leaves)),
        ascending(coalesce(spec_survey(memory, mode, root).leaves)),
        minimal(coalesce(spec_survey(memory, mode, root).leaves)),
{
    let top = (mode.level_count() - 1) as nat;
    let leaves = spec_survey(memory, mode, root).leaves;
    let none = Seq::<MappedRange>::empty();
    lemma_span_bounds(mode, top + 1);
    assert(0 * mode.span(top) == 0) by (nonlinear_arith);
    assert(none + leaves =~= leaves);
    assert forall|i: int| 0 <= i < leaves.len() implies (#[trigger] leaves[i]).virtual_start
        < leaves[i].virtual_end by {
        lemma_leaf_place(memory, mode, root, top, 0, mode.entry_count(), 0, i);
    }
    assert forall|i: int, j: int|
        #![trigger leaves[i], leaves[j]]
        0 <= i < j < leaves.len() implies leaves[i].virtual_end <= leaves[j].virtual_start by {
        lemma_leaves_ascend(memory, mode, root, top, 0, mode.entry_count(), 0, i, j);
    }
    lemma_coalesce_ascending(none, leaves);
    lemma_coalesce_minimal(none, leaves);
}

} // verus!
