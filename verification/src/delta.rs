//! Result deltas between installed calculations.
use vstd::prelude::*;

use crate::calculation::{CalculationCellResult, MaterializedCalculationCell, MaterializedResultOrigin};
use crate::cell::{CalculationCellId, cell_key_spec};
use crate::session::{CalculationDecisionReason, CalculationExecutionMode, SessionError, SessionErrorCode};
use crate::snapshot::{CalculationSnapshot, owned};
use crate::store::{
    CalculationStore, cell_keys, has_key, holds_entry, is_key_position, key_position, keys_increasing, lemma_entries_extensional,
    lemma_get_after_insert, lemma_key_position_exists, lemma_value_at, lists_entries, value_at,
};
use crate::text::{decimal_spec, push_decimal, push_str};

verus! {

/// One changed direct or materialized calculation result.
#[derive(Debug)]
pub struct CalculationDeltaCell {
    cell: CalculationCellId,
    origin: MaterializedResultOrigin,
    result: CalculationCellResult,
}

impl CalculationDeltaCell {
    pub closed spec fn cell_spec(self) -> CalculationCellId {
        self.cell
    }

    pub closed spec fn origin_spec(self) -> MaterializedResultOrigin {
        self.origin
    }

    pub closed spec fn result_spec(self) -> CalculationCellResult {
        self.result
    }

    /// Builds one changed result.
    pub fn new(cell: CalculationCellId, origin: MaterializedResultOrigin, result: CalculationCellResult) -> (r: Self)
        ensures
            r.cell_spec() == cell,
            r.origin_spec() == origin,
            r.result_spec() == result,
    {
        CalculationDeltaCell { cell, origin, result }
    }

    /// Returns the changed workbook-local cell.
    pub fn cell(&self) -> (r: CalculationCellId)
        ensures
            r == self.cell_spec(),
    {
        self.cell
    }

    /// Returns why the result is present in the materialization view.
    pub fn origin(&self) -> (r: MaterializedResultOrigin)
        ensures
            r == self.origin_spec(),
    {
        self.origin
    }

    /// Returns the new typed result or calculation issue.
    pub fn result(&self) -> (r: &CalculationCellResult)
        ensures
            *r == self.result_spec(),
    {
        &self.result
    }

}

/// Bounded, deterministically ordered result changes from one installed calculation.
#[derive(Debug)]
pub struct CalculationDelta {
    cursor: u64,
    base_revision: u64,
    result_revision: u64,
    mode: CalculationExecutionMode,
    reason: CalculationDecisionReason,
    dirty_count: usize,
    evaluated_count: usize,
    parsed_formula_count: usize,
    changed_cells: Vec<CalculationDeltaCell>,
    removed_materialized_cells: Vec<CalculationCellId>,
}

impl CalculationDelta {
    pub closed spec fn cursor_spec(self) -> u64 {
        self.cursor
    }

    pub closed spec fn base_revision_spec(self) -> u64 {
        self.base_revision
    }

    pub closed spec fn result_revision_spec(self) -> u64 {
        self.result_revision
    }

    pub closed spec fn mode_spec(self) -> CalculationExecutionMode {
        self.mode
    }

    pub closed spec fn reason_spec(self) -> CalculationDecisionReason {
        self.reason
    }

    pub closed spec fn dirty_count_spec(self) -> usize {
        self.dirty_count
    }

    pub closed spec fn evaluated_count_spec(self) -> usize {
        self.evaluated_count
    }

    pub closed spec fn parsed_formula_count_spec(self) -> usize {
        self.parsed_formula_count
    }

    pub closed spec fn changed_cells_spec(self) -> Vec<CalculationDeltaCell> {
        self.changed_cells
    }

    pub closed spec fn removed_materialized_cells_spec(self) -> Vec<CalculationCellId> {
        self.removed_materialized_cells
    }

    /// Returns the monotonically increasing installed-delta cursor.
    pub fn cursor(&self) -> (r: u64)
        ensures
            r == self.cursor_spec(),
    {
        self.cursor
    }

    /// Returns the prior installed result revision, or the current revision for the first result.
    pub fn base_revision(&self) -> (r: u64)
        ensures
            r == self.base_revision_spec(),
    {
        self.base_revision
    }

    /// Returns the workbook revision calculated by this delta.
    pub fn result_revision(&self) -> (r: u64)
        ensures
            r == self.result_revision_spec(),
    {
        self.result_revision
    }

    /// Returns whether this pass evaluated a full or incremental schedule.
    pub fn mode(&self) -> (r: CalculationExecutionMode)
        ensures
            r == self.mode_spec(),
    {
        self.mode
    }

    /// Returns the deterministic reason for the selected execution mode.
    pub fn reason(&self) -> (r: CalculationDecisionReason)
        ensures
            r == self.reason_spec(),
    {
        self.reason
    }

    /// Returns the number of formulas invalidated before the pass.
    pub fn dirty_count(&self) -> (r: usize)
        ensures
            r == self.dirty_count_spec(),
    {
        self.dirty_count
    }

    /// Returns the number of formula cells whose evaluator ran.
    pub fn evaluated_count(&self) -> (r: usize)
        ensures
            r == self.evaluated_count_spec(),
    {
        self.evaluated_count
    }

    /// Returns the number of formulas parsed while preparing this pass.
    pub fn parsed_formula_count(&self) -> (r: usize)
        ensures
            r == self.parsed_formula_count_spec(),
    {
        self.parsed_formula_count
    }

    /// Returns cells whose typed result, issue, or materialization origin changed.
    pub fn changed_cells(&self) -> (r: &[CalculationDeltaCell])
        ensures
            r@ == self.changed_cells_spec()@,
    {
        self.changed_cells.as_slice()
    }

    /// Returns cells that were present in the prior materialization view but no longer exist.
    pub fn removed_materialized_cells(&self) -> (r: &[CalculationCellId])
        ensures
            r@ == self.removed_materialized_cells_spec()@,
    {
        self.removed_materialized_cells.as_slice()
    }

}

/// One cursor page of complete, individually bounded calculation deltas.
#[derive(Debug)]
pub struct CalculationDeltaPage {
    requested_cursor: u64,
    next_cursor: Option<u64>,
    deltas: Vec<CalculationDelta>,
}

impl CalculationDeltaPage {
    pub closed spec fn requested_cursor_spec(self) -> u64 {
        self.requested_cursor
    }

    pub closed spec fn next_cursor_spec(self) -> Option<u64> {
        self.next_cursor
    }

    pub closed spec fn deltas_spec(self) -> Vec<CalculationDelta> {
        self.deltas
    }

    /// Builds one page of deltas.
    pub fn new(requested_cursor: u64, next_cursor: Option<u64>, deltas: Vec<CalculationDelta>) -> (r: Self)
        ensures
            r.requested_cursor_spec() == requested_cursor,
            r.next_cursor_spec() == next_cursor,
            r.deltas_spec() == deltas,
    {
        CalculationDeltaPage { requested_cursor, next_cursor, deltas }
    }

    /// Returns the exclusive cursor supplied by the caller.
    pub fn requested_cursor(&self) -> (r: u64)
        ensures
            r == self.requested_cursor_spec(),
    {
        self.requested_cursor
    }

    /// Returns the cursor for the next page, or `None` when caught up.
    pub fn next_cursor(&self) -> (r: Option<u64>)
        ensures
            r == self.next_cursor_spec(),
    {
        self.next_cursor
    }

    /// Returns complete deltas in ascending cursor order.
    pub fn deltas(&self) -> (r: &[CalculationDelta])
        ensures
            r@ == self.deltas_spec()@,
    {
        self.deltas.as_slice()
    }

}

impl CalculationDeltaCell {
    /// Whether two changed results record the same cell, origin and result.
    pub open spec fn same_delta_cell(self, other: CalculationDeltaCell) -> bool {
        &&& self.cell_spec() == other.cell_spec()
        &&& self.origin_spec() == other.origin_spec()
        &&& self.result_spec().same_result(other.result_spec())
    }

    /// Returns an equal copy of the changed result.
    pub fn duplicate(&self) -> (r: CalculationDeltaCell)
        ensures
            r.same_delta_cell(*self),
    {
        CalculationDeltaCell { cell: self.cell, origin: self.origin, result: self.result.duplicate() }
    }
}

/// Calculation metadata copied into every delta built for one pass.
#[derive(Debug, Clone, Copy)]
pub struct DeltaMetadata {
    pub base_revision: u64,
    pub result_revision: u64,
    pub mode: CalculationExecutionMode,
    pub reason: CalculationDecisionReason,
    pub dirty_count: usize,
    pub evaluated_count: usize,
    pub parsed_formula_count: usize,
}

impl CalculationDelta {
    /// Whether the delta carries `metadata` and `cursor`.
    pub open spec fn carries(self, cursor: u64, metadata: DeltaMetadata) -> bool {
        &&& self.cursor_spec() == cursor
        &&& self.base_revision_spec() == metadata.base_revision
        &&& self.result_revision_spec() == metadata.result_revision
        &&& self.mode_spec() == metadata.mode
        &&& self.reason_spec() == metadata.reason
        &&& self.dirty_count_spec() == metadata.dirty_count
        &&& self.evaluated_count_spec() == metadata.evaluated_count
        &&& self.parsed_formula_count_spec() == metadata.parsed_formula_count
    }

    /// The metadata a delta carries.
    pub open spec fn metadata_spec(self) -> DeltaMetadata {
        DeltaMetadata {
            base_revision: self.base_revision_spec(),
            result_revision: self.result_revision_spec(),
            mode: self.mode_spec(),
            reason: self.reason_spec(),
            dirty_count: self.dirty_count_spec(),
            evaluated_count: self.evaluated_count_spec(),
            parsed_formula_count: self.parsed_formula_count_spec(),
        }
    }

    /// Whether two deltas have the same contents apart from their cursors.
    pub open spec fn same_changes(self, other: CalculationDelta) -> bool {
        &&& self.metadata_spec() == other.metadata_spec()
        &&& self.changed_cells_spec()@.len() == other.changed_cells_spec()@.len()
        &&& forall|i: int| 0 <= i < self.changed_cells_spec()@.len()
            ==> (#[trigger] self.changed_cells_spec()@[i]).same_delta_cell(other.changed_cells_spec()@[i])
        &&& self.removed_materialized_cells_spec()@ == other.removed_materialized_cells_spec()@
    }

    /// Whether two deltas are equal, cursor included.
    pub open spec fn same_delta(self, other: CalculationDelta) -> bool {
        self.cursor_spec() == other.cursor_spec() && self.same_changes(other)
    }

    /// Copies the delta, polling `cancelled` before each copied cell; returns `Err(())` as soon as
    /// the poll reports cancellation.
    pub fn clone_cancellable<F: Fn() -> bool>(&self, cancelled: &F) -> (r: Result<Self, ()>)
        requires
            call_requires(*cancelled, ()),
        ensures
            r matches Ok(d) ==> d.same_delta(*self),
            r is Err ==> call_ensures(*cancelled, (), true),
    {
        let mut changed_cells: Vec<CalculationDeltaCell> = Vec::new();
        let mut i: usize = 0;
        while i < self.changed_cells.len()
            invariant
                i <= self.changed_cells@.len(),
                call_requires(*cancelled, ()),
                changed_cells@.len() == i,
                forall|j: int| 0 <= j < i ==> (#[trigger] changed_cells@[j]).same_delta_cell(self.changed_cells@[j]),
            decreases self.changed_cells.len() - i,
        {
            if cancelled() {
                return Err(());
            }
            changed_cells.push(self.changed_cells[i].duplicate());
            i = i + 1;
        }
        let mut removed_materialized_cells: Vec<CalculationCellId> = Vec::new();
        let mut k: usize = 0;
        while k < self.removed_materialized_cells.len()
            invariant
                k <= self.removed_materialized_cells@.len(),
                call_requires(*cancelled, ()),
                removed_materialized_cells@ == self.removed_materialized_cells@.take(k as int),
            decreases self.removed_materialized_cells.len() - k,
        {
            if cancelled() {
                return Err(());
            }
            removed_materialized_cells.push(self.removed_materialized_cells[k]);
            k = k + 1;
            assert(removed_materialized_cells@ =~= self.removed_materialized_cells@.take(k as int));
        }
        assert(removed_materialized_cells@ =~= self.removed_materialized_cells@);
        Ok(CalculationDelta {
            cursor: self.cursor,
            base_revision: self.base_revision,
            result_revision: self.result_revision,
            mode: self.mode,
            reason: self.reason,
            dirty_count: self.dirty_count,
            evaluated_count: self.evaluated_count,
            parsed_formula_count: self.parsed_formula_count,
            changed_cells,
            removed_materialized_cells,
        })
    }

    /// Returns an equal copy of the delta.
    pub fn duplicate(&self) -> (r: Self)
        ensures
            r.same_delta(*self),
    {
        let mut changed_cells: Vec<CalculationDeltaCell> = Vec::new();
        let mut i: usize = 0;
        while i < self.changed_cells.len()
            invariant
                i <= self.changed_cells@.len(),
                changed_cells@.len() == i,
                forall|j: int| 0 <= j < i ==> (#[trigger] changed_cells@[j]).same_delta_cell(self.changed_cells@[j]),
            decreases self.changed_cells.len() - i,
        {
            changed_cells.push(self.changed_cells[i].duplicate());
            i = i + 1;
        }
        let removed_materialized_cells = self.removed_materialized_cells.clone();
        assert(removed_materialized_cells@ =~= self.removed_materialized_cells@);
        CalculationDelta {
            cursor: self.cursor,
            base_revision: self.base_revision,
            result_revision: self.result_revision,
            mode: self.mode,
            reason: self.reason,
            dirty_count: self.dirty_count,
            evaluated_count: self.evaluated_count,
            parsed_formula_count: self.parsed_formula_count,
            changed_cells,
            removed_materialized_cells,
        }
    }

    /// Returns the delta with its cursor replaced.
    pub fn with_cursor(self, cursor: u64) -> (r: Self)
        ensures
            r.cursor_spec() == cursor,
            r.metadata_spec() == self.metadata_spec(),
            r.changed_cells_spec() == self.changed_cells_spec(),
            r.removed_materialized_cells_spec() == self.removed_materialized_cells_spec(),
    {
        CalculationDelta { cursor, ..self }
    }
}

/// Whether `previous` holds an equal result for `key`.
pub open spec fn unchanged_entry(
    previous: Option<Seq<(u128, MaterializedCalculationCell)>>,
    key: int,
    value: MaterializedCalculationCell,
) -> bool {
    match previous {
        Some(entries) => exists|i: int| #![trigger entries[i]]
            0 <= i < entries.len() && entries[i].0 == key && entries[i].1.same_cell(value),
        None => false,
    }
}

/// The entries of `current` that are new or differ from `previous`, in order.
pub open spec fn changed_entries(
    previous: Option<Seq<(u128, MaterializedCalculationCell)>>,
    current: Seq<(u128, MaterializedCalculationCell)>,
) -> Seq<(u128, MaterializedCalculationCell)>
    decreases current.len(),
{
    if current.len() == 0 {
        Seq::empty()
    } else {
        let rest = changed_entries(previous, current.drop_last());
        if unchanged_entry(previous, current.last().0 as int, current.last().1) {
            rest
        } else {
            rest.push(current.last())
        }
    }
}

/// The keys of `previous` that `current` no longer holds, in order.
pub open spec fn removed_keys(
    previous: Seq<(u128, MaterializedCalculationCell)>,
    current: Seq<(u128, MaterializedCalculationCell)>,
) -> Seq<u128>
    decreases previous.len(),
{
    if previous.len() == 0 {
        Seq::empty()
    } else {
        let rest = removed_keys(previous.drop_last(), current);
        if has_key(current, previous.last().0 as int) {
            rest
        } else {
            rest.push(previous.last().0)
        }
    }
}

/// Whether a changed result records the materialized entry `entry`.
pub open spec fn records_entry(cell: CalculationDeltaCell, entry: (u128, MaterializedCalculationCell)) -> bool {
    &&& cell_key_spec(cell.cell_spec()@) == entry.0
    &&& cell.origin_spec() == entry.1.origin_spec()
    &&& cell.result_spec().same_result(entry.1.result_spec())
}

/// The materialization view of an optional snapshot.
pub open spec fn materialized_view(snapshot: Option<&CalculationSnapshot>) -> Option<Seq<(u128, MaterializedCalculationCell)>> {
    match snapshot {
        Some(s) => Some(s.materialized_spec()),
        None => None,
    }
}

/// The removed keys between an optional previous snapshot and the current one.
pub open spec fn removed_view(
    previous: Option<&CalculationSnapshot>,
    current: &CalculationSnapshot,
) -> Seq<u128> {
    match previous {
        Some(p) => removed_keys(p.materialized_spec(), current.materialized_spec()),
        None => Seq::empty(),
    }
}

/// `n` saturated to the `usize` range.
pub open spec fn saturated(n: int) -> int {
    if n > usize::MAX { usize::MAX as int } else { n }
}

/// Whether `delta` lists exactly the changed entries and removed keys given.
pub open spec fn lists_changes(
    delta: CalculationDelta,
    changed: Seq<(u128, MaterializedCalculationCell)>,
    removed: Seq<u128>,
) -> bool {
    &&& delta.changed_cells_spec()@.len() == changed.len()
    &&& forall|i: int| 0 <= i < changed.len() ==> records_entry(#[trigger] delta.changed_cells_spec()@[i], changed[i])
    &&& delta.removed_materialized_cells_spec()@.len() == removed.len()
    &&& forall|i: int| 0 <= i < removed.len()
        ==> cell_key_spec((#[trigger] delta.removed_materialized_cells_spec()@[i])@) == removed[i]
}

/// The detail text of a delta that exceeds its cell limit.
pub open spec fn delta_limit_detail_spec(cells: nat, limit: nat) -> Seq<char> {
    "cells="@ + decimal_spec(cells) + ", limit="@ + decimal_spec(limit)
}

fn delta_limit_detail(cells: usize, limit: usize) -> (r: String)
    ensures
        r@ == delta_limit_detail_spec(cells as nat, limit as nat),
{
    let mut s = String::new();
    push_str(&mut s, "cells=");
    push_decimal(&mut s, cells as u64);
    push_str(&mut s, ", limit=");
    push_decimal(&mut s, limit as u64);
    s
}

proof fn lemma_unique_key_entry(
    entries: Seq<(u128, MaterializedCalculationCell)>,
    key: int,
    value: MaterializedCalculationCell,
    found: MaterializedCalculationCell,
)
    requires
        keys_increasing(entries),
        holds_entry(entries, key, found),
    ensures
        unchanged_entry(Some(entries), key, value) == found.same_cell(value),
{
    let j = choose|j: int| 0 <= j < entries.len() && #[trigger] entries[j].0 == key && entries[j].1 == found;
    assert(0 <= j < entries.len() && entries[j].0 == key && entries[j].1 == found);
    if unchanged_entry(Some(entries), key, value) {
        let i = choose|i: int| #![trigger entries[i]] 0 <= i < entries.len() && entries[i].0 == key && entries[i].1.same_cell(value);
        assert(0 <= i < entries.len() && entries[i].0 == key && entries[i].1.same_cell(value));
        if i < j {
            assert(entries[i].0 < entries[j].0);
        } else if j < i {
            assert(entries[j].0 < entries[i].0);
        }
        assert(i == j);
        assert(found.same_cell(value));
    }
    if found.same_cell(value) {
        assert(entries[j].0 == key && entries[j].1.same_cell(value));
        assert(exists|i: int| #![trigger entries[i]] 0 <= i < entries.len() && entries[i].0 == key && entries[i].1.same_cell(value));
        let opt = Some(entries);
        assert(opt matches Some(e) && e == entries);
        assert(unchanged_entry(opt, key, value));
    }
}

/// Compares the materialization view of `current` with that of `previous` (all of it counts as
/// changed when there is none), polling `cancelled` before each compared cell.
///
/// Returns the changed cells in ascending cell order followed by the removed cells in ascending
/// cell order, or `DeltaLimitExceeded` when their total exceeds `max_delta_cells`.
pub fn build_delta<F: Fn() -> bool>(
    previous: Option<&CalculationSnapshot>,
    current: &CalculationSnapshot,
    metadata: DeltaMetadata,
    max_delta_cells: usize,
    cancelled: &F,
) -> (r: Result<CalculationDelta, SessionError>)
    requires
        call_requires(*cancelled, ()),
    ensures
        ({
            let changed = changed_entries(materialized_view(previous), current.materialized_spec());
            let removed = removed_view(previous, current);
            let total = saturated((changed.len() + removed.len()) as int);
            match r {
                Ok(d) => {
                    &&& d.carries(0, metadata)
                    &&& lists_changes(d, changed, removed)
                    &&& total <= max_delta_cells
                },
                Err(e) => {
                    ||| {
                        &&& e.code_spec() == SessionErrorCode::Cancelled
                        &&& e.detail_spec() is None
                        &&& call_ensures(*cancelled, (), true)
                    }
                    ||| {
                        &&& e.code_spec() == SessionErrorCode::DeltaLimitExceeded
                        &&& total > max_delta_cells
                        &&& e.detail_spec() matches Some(text)
                        &&& text@ == delta_limit_detail_spec(total as nat, max_delta_cells as nat)
                    }
                },
            }
        }),
{
    let ghost prev_view = materialized_view(previous);
    let ghost cur_view = current.materialized_spec();
    match previous {
        Some(p) => {
            p.check_sorted();
        },
        None => {},
    }
    let current_cells = current.materialized_cells();
    let mut changed_cells: Vec<CalculationDeltaCell> = Vec::new();
    let mut i: usize = 0;
    while i < current_cells.len()
        invariant
            i <= current_cells@.len(),
            lists_entries(current_cells@, cur_view),
            cur_view == current.materialized_spec(),
            prev_view == materialized_view(previous),
            previous matches Some(p) ==> keys_increasing(p.materialized_spec()),
            call_requires(*cancelled, ()),
            ({
                let expected = changed_entries(prev_view, cur_view.take(i as int));
                &&& changed_cells@.len() == expected.len()
                &&& forall|j: int| 0 <= j < expected.len() ==> records_entry(#[trigger] changed_cells@[j], expected[j])
            }),
        decreases current_cells.len() - i,
    {
        if cancelled() {
            return Err(SessionError::new(SessionErrorCode::Cancelled, None));
        }
        let cell = current_cells[i].0;
        let value = current_cells[i].1;
        let ghost key = cell_key_spec(cell@);
        let unchanged = match previous {
            Some(p) => match p.materialized_cell(cell) {
                Some(found) => {
                    proof {
                        lemma_unique_key_entry(p.materialized_spec(), key, *value, *found);
                    }
                    found.same_as(value)
                },
                None => false,
            },
            None => false,
        };
        assert(unchanged == unchanged_entry(prev_view, key, *value));
        assert(cur_view.take(i + 1).drop_last() =~= cur_view.take(i as int));
        assert(cur_view.take(i + 1).last() == cur_view[i as int]);
        if !unchanged {
            let result = value.result().duplicate();
            changed_cells.push(CalculationDeltaCell::new(cell, value.origin(), result));
        }
        i = i + 1;
    }
    assert(cur_view.take(cur_view.len() as int) =~= cur_view);
    let mut removed_materialized_cells: Vec<CalculationCellId> = Vec::new();
    match previous {
        Some(p) => {
            let ghost old_view = p.materialized_spec();
            let previous_cells = p.materialized_cells();
            let mut k: usize = 0;
            while k < previous_cells.len()
                invariant
                    k <= previous_cells@.len(),
                    lists_entries(previous_cells@, old_view),
                    old_view == p.materialized_spec(),
                    cur_view == current.materialized_spec(),
                    call_requires(*cancelled, ()),
                    ({
                        let expected = removed_keys(old_view.take(k as int), cur_view);
                        &&& removed_materialized_cells@.len() == expected.len()
                        &&& forall|j: int| 0 <= j < expected.len() ==> cell_key_spec((#[trigger] removed_materialized_cells@[j])@) == expected[j]
                    }),
                decreases previous_cells.len() - k,
            {
                if cancelled() {
                    return Err(SessionError::new(SessionErrorCode::Cancelled, None));
                }
                let cell = previous_cells[k].0;
                assert(old_view.take(k + 1).drop_last() =~= old_view.take(k as int));
                assert(old_view.take(k + 1).last() == old_view[k as int]);
                if current.materialized_cell(cell).is_none() {
                    removed_materialized_cells.push(cell);
                }
                k = k + 1;
            }
            assert(old_view.take(old_view.len() as int) =~= old_view);
        },
        None => {},
    }
    let total = changed_cells.len().saturating_add(removed_materialized_cells.len());
    if total > max_delta_cells {
        let detail = delta_limit_detail(total, max_delta_cells);
        return Err(SessionError::new(SessionErrorCode::DeltaLimitExceeded, Some(detail)));
    }
    Ok(CalculationDelta {
        cursor: 0,
        base_revision: metadata.base_revision,
        result_revision: metadata.result_revision,
        mode: metadata.mode,
        reason: metadata.reason,
        dirty_count: metadata.dirty_count,
        evaluated_count: metadata.evaluated_count,
        parsed_formula_count: metadata.parsed_formula_count,
        changed_cells,
        removed_materialized_cells,
    })
}

/// Whether `key` is owned, in `previous` or in `current`, by one of the owners `dirty`.
pub open spec fn owned_by_dirty(
    previous: Seq<(u128, Seq<u128>)>,
    current: Seq<(u128, Seq<u128>)>,
    dirty: Seq<u128>,
    key: u128,
) -> bool {
    exists|j: int| 0 <= j < dirty.len() && (owned(previous, #[trigger] dirty[j] as int).contains(key)
        || owned(current, dirty[j] as int).contains(key))
}

/// Stores `keys` one by one into `candidates`, polling `cancelled` before each.
fn add_candidates<F: Fn() -> bool>(
    candidates: &mut CalculationStore<()>,
    keys: &[CalculationCellId],
    cancelled: &F,
) -> (r: Result<(), ()>)
    requires
        call_requires(*cancelled, ()),
    ensures
        r is Ok ==> forall|k: u128| has_key(final(candidates).entries_spec(), k as int)
            <==> (has_key(old(candidates).entries_spec(), k as int) || cell_keys(keys@).contains(k)),
        r is Err ==> call_ensures(*cancelled, (), true),
{
    let ghost start = candidates.entries_spec();
    let ghost all = cell_keys(keys@);
    let mut a: usize = 0;
    while a < keys.len()
        invariant
            a <= keys@.len(),
            all == cell_keys(keys@),
            call_requires(*cancelled, ()),
            forall|k: u128| has_key(candidates.entries_spec(), k as int)
                <==> (has_key(start, k as int) || all.take(a as int).contains(k)),
        decreases keys@.len() - a,
    {
        if cancelled() {
            return Err(());
        }
        let cell = keys[a];
        candidates.check_sorted();
        let ghost before = candidates.entries_spec();
        let ghost key = cell_key_spec(cell@) as u128;
        match candidates.insert_cancellable(cell, (), cancelled) {
            Ok(_) => {},
            Err(()) => return Err(()),
        }
        proof {
            assert(all[a as int] == key);
            let shorter = all.take(a as int);
            let longer = all.take(a + 1);
            assert(longer[a as int] == key);
            assert forall|k: u128| has_key(candidates.entries_spec(), k as int)
                <==> (has_key(start, k as int) || longer.contains(k)) by {
                lemma_get_after_insert(before, key, (), k as int, ());
                if longer.contains(k) && !shorter.contains(k) {
                    let i = choose|i: int| 0 <= i < longer.len() && longer[i] == k;
                    if i < a {
                        assert(shorter[i] == k);
                    }
                }
                if shorter.contains(k) {
                    let i = choose|i: int| 0 <= i < shorter.len() && shorter[i] == k;
                    assert(longer[i] == k);
                }
            }
        }
        a = a + 1;
    }
    assert(all.take(keys@.len() as int) =~= all);
    Ok(())
}

/// Collects, in ascending cell order and without repeats, every materialized cell that a
/// dirty owner owns in `previous` or in `current`, polling `cancelled` once per owner.
fn collect_candidates<F: Fn() -> bool>(
    previous: &CalculationSnapshot,
    current: &CalculationSnapshot,
    dirty: &Vec<CalculationCellId>,
    cancelled: &F,
) -> (r: Result<CalculationStore<()>, ()>)
    requires
        call_requires(*cancelled, ()),
    ensures
        r matches Ok(c) ==> forall|k: u128| has_key(c.entries_spec(), k as int)
            <==> owned_by_dirty(previous.owners_spec(), current.owners_spec(), cell_keys(dirty@), k),
        r is Err ==> call_ensures(*cancelled, (), true),
{
    let ghost before_owners = previous.owners_spec();
    let ghost after_owners = current.owners_spec();
    let ghost dirty_keys = cell_keys(dirty@);
    let mut candidates: CalculationStore<()> = CalculationStore::new();
    let mut j: usize = 0;
    while j < dirty.len()
        invariant
            j <= dirty@.len(),
            dirty_keys == cell_keys(dirty@),
            before_owners == previous.owners_spec(),
            after_owners == current.owners_spec(),
            call_requires(*cancelled, ()),
            forall|k: u128| has_key(candidates.entries_spec(), k as int)
                <==> owned_by_dirty(before_owners, after_owners, dirty_keys.take(j as int), k),
        decreases dirty@.len() - j,
    {
        if cancelled() {
            return Err(());
        }
        let owner = dirty[j];
        owner.check_valid();
        let ghost owner_key = cell_key_spec(owner@) as u128;
        let earlier = previous.materialized_cells_owned_by(owner);
        let ghost mid_start = candidates.entries_spec();
        match add_candidates(&mut candidates, earlier, cancelled) {
            Ok(()) => {},
            Err(()) => return Err(()),
        }
        let ghost mid = candidates.entries_spec();
        let later = current.materialized_cells_owned_by(owner);
        match add_candidates(&mut candidates, later, cancelled) {
            Ok(()) => {},
            Err(()) => return Err(()),
        }
        proof {
            crate::cell::lemma_cell_key_round_trip(owner);
            assert(dirty_keys[j as int] == owner_key);
            assert(owner_key as int == cell_key_spec(owner@));
            assert(cell_keys(earlier@) == owned(before_owners, owner_key as int));
            assert(cell_keys(later@) == owned(after_owners, owner_key as int));
            assert forall|k: u128| has_key(candidates.entries_spec(), k as int)
                <==> owned_by_dirty(before_owners, after_owners, dirty_keys.take(j + 1), k) by {
                let prefix = dirty_keys.take(j as int);
                let longer = dirty_keys.take(j + 1);
                assert(longer[j as int] == owner_key);
                if owned_by_dirty(before_owners, after_owners, prefix, k) {
                    let i = choose|i: int| 0 <= i < prefix.len() && (owned(before_owners, #[trigger] prefix[i] as int).contains(k)
                        || owned(after_owners, prefix[i] as int).contains(k));
                    assert(longer[i] == prefix[i]);
                }
                if owned_by_dirty(before_owners, after_owners, longer, k) {
                    let i = choose|i: int| 0 <= i < longer.len() && (owned(before_owners, #[trigger] longer[i] as int).contains(k)
                        || owned(after_owners, longer[i] as int).contains(k));
                    if i < j {
                        assert(prefix[i] == longer[i]);
                    }
                }
            }
        }
        j = j + 1;
    }
    assert(dirty_keys.take(dirty@.len() as int) =~= dirty_keys);
    Ok(candidates)
}

/// The entries of `current` under `keys` that are new or differ from `previous`, in key order.
pub open spec fn changed_under(
    previous: Seq<(u128, MaterializedCalculationCell)>,
    current: Seq<(u128, MaterializedCalculationCell)>,
    keys: Seq<u128>,
) -> Seq<(u128, MaterializedCalculationCell)>
    decreases keys.len(),
{
    if keys.len() == 0 {
        Seq::empty()
    } else {
        let rest = changed_under(previous, current, keys.drop_last());
        let key = keys.last();
        match value_at(current, key as int) {
            Some(value) => if unchanged_entry(Some(previous), key as int, value) {
                rest
            } else {
                rest.push((key, value))
            },
            None => rest,
        }
    }
}

/// The keys among `keys` that `previous` holds and `current` no longer does, in key order.
pub open spec fn removed_under(
    previous: Seq<(u128, MaterializedCalculationCell)>,
    current: Seq<(u128, MaterializedCalculationCell)>,
    keys: Seq<u128>,
) -> Seq<u128>
    decreases keys.len(),
{
    if keys.len() == 0 {
        Seq::empty()
    } else {
        let rest = removed_under(previous, current, keys.drop_last());
        let key = keys.last();
        if has_key(previous, key as int) && !has_key(current, key as int) {
            rest.push(key)
        } else {
            rest
        }
    }
}

/// Whether `keys` lists in strictly ascending order exactly the cells that one of the owners
/// `dirty` owns in `previous` or in `current`.
pub open spec fn lists_candidates(
    keys: Seq<u128>,
    previous: &CalculationSnapshot,
    current: &CalculationSnapshot,
    dirty: Seq<u128>,
) -> bool {
    &&& strictly_increasing(keys)
    &&& forall|k: u128| keys.contains(k) <==> owned_by_dirty(previous.owners_spec(), current.owners_spec(), dirty, k)
}

/// Compares, between `previous` and `current`, only the materialized cells that a dirty owner
/// owns in either, polling `cancelled` once per owner and per compared cell.
///
/// Returns the changed cells in ascending cell order followed by the removed cells in ascending
/// cell order, or `DeltaLimitExceeded` when their total exceeds `max_delta_cells`.
pub fn build_incremental_delta<F: Fn() -> bool>(
    previous: &CalculationSnapshot,
    current: &CalculationSnapshot,
    dirty: &Vec<CalculationCellId>,
    metadata: DeltaMetadata,
    max_delta_cells: usize,
    cancelled: &F,
) -> (r: Result<CalculationDelta, SessionError>)
    requires
        call_requires(*cancelled, ()),
    ensures
        match r {
            Ok(d) => {
                &&& d.carries(0, metadata)
                &&& exists|keys: Seq<u128>| {
                    let changed = changed_under(previous.materialized_spec(), current.materialized_spec(), keys);
                    let removed = removed_under(previous.materialized_spec(), current.materialized_spec(), keys);
                    &&& #[trigger] lists_candidates(keys, previous, current, cell_keys(dirty@))
                    &&& lists_changes(d, changed, removed)
                    &&& saturated((changed.len() + removed.len()) as int) <= max_delta_cells
                }
            },
            Err(e) => {
                ||| {
                    &&& e.code_spec() == SessionErrorCode::Cancelled
                    &&& e.detail_spec() is None
                    &&& call_ensures(*cancelled, (), true)
                }
                ||| {
                    &&& e.code_spec() == SessionErrorCode::DeltaLimitExceeded
                    &&& exists|keys: Seq<u128>| {
                        let changed = changed_under(previous.materialized_spec(), current.materialized_spec(), keys);
                        let removed = removed_under(previous.materialized_spec(), current.materialized_spec(), keys);
                        let total = saturated((changed.len() + removed.len()) as int);
                        &&& #[trigger] lists_candidates(keys, previous, current, cell_keys(dirty@))
                        &&& total > max_delta_cells
                        &&& e.detail_spec() matches Some(text)
                        &&& text@ == delta_limit_detail_spec(total as nat, max_delta_cells as nat)
                    }
                }
            },
        },
{
    let candidates = match collect_candidates(previous, current, dirty, cancelled) {
        Ok(c) => c,
        Err(()) => return Err(SessionError::new(SessionErrorCode::Cancelled, None)),
    };
    candidates.check_sorted();
    previous.check_sorted();
    current.check_sorted();
    let ghost prev_view = previous.materialized_spec();
    let ghost cur_view = current.materialized_spec();
    let ghost entries = candidates.entries_spec();
    let ghost keys = entries.map_values(|e: (u128, ())| e.0);
    proof {
        assert forall|i: int| 0 <= i < entries.len() implies #[trigger] keys[i] == entries[i].0 by {}
        assert forall|k: u128| keys.contains(k) <==> has_key(entries, k as int) by {
            if keys.contains(k) {
                let i = choose|i: int| 0 <= i < keys.len() && keys[i] == k;
                assert(entries[i].0 == k);
            }
            if has_key(entries, k as int) {
                let i = choose|i: int| 0 <= i < entries.len() && #[trigger] entries[i].0 == k;
                assert(keys[i] == k);
            }
        }
        assert(lists_candidates(keys, previous, current, cell_keys(dirty@)));
    }
    let cells = candidates.cells();
    let mut changed_cells: Vec<CalculationDeltaCell> = Vec::new();
    let mut removed_materialized_cells: Vec<CalculationCellId> = Vec::new();
    let mut i: usize = 0;
    while i < cells.len()
        invariant
            i <= cells@.len(),
            lists_entries(cells@, entries),
            keys.len() == entries.len(),
            forall|a: int| 0 <= a < entries.len() ==> #[trigger] keys[a] == entries[a].0,
            prev_view == previous.materialized_spec(),
            cur_view == current.materialized_spec(),
            keys_increasing(prev_view),
            keys_increasing(cur_view),
            call_requires(*cancelled, ()),
            ({
                let expected = changed_under(prev_view, cur_view, keys.take(i as int));
                &&& changed_cells@.len() == expected.len()
                &&& forall|j: int| 0 <= j < expected.len() ==> records_entry(#[trigger] changed_cells@[j], expected[j])
            }),
            ({
                let expected = removed_under(prev_view, cur_view, keys.take(i as int));
                &&& removed_materialized_cells@.len() == expected.len()
                &&& forall|j: int| 0 <= j < expected.len() ==> cell_key_spec((#[trigger] removed_materialized_cells@[j])@) == expected[j]
            }),
        decreases cells.len() - i,
    {
        if cancelled() {
            return Err(SessionError::new(SessionErrorCode::Cancelled, None));
        }
        let cell = cells[i].0;
        let ghost key = keys[i as int];
        assert(cell_key_spec(cell@) == key);
        assert(keys.take(i + 1).drop_last() =~= keys.take(i as int));
        assert(keys.take(i + 1).last() == key);
        match current.materialized_cell(cell) {
            Some(value) => {
                proof {
                    lemma_value_at(cur_view, key, *value);
                }
                let unchanged = match previous.materialized_cell(cell) {
                    Some(found) => {
                        proof {
                            lemma_unique_key_entry(prev_view, key as int, *value, *found);
                        }
                        found.same_as(value)
                    },
                    None => {
                        assert(!unchanged_entry(Some(prev_view), key as int, *value));
                        false
                    },
                };
                if !unchanged {
                    let result = value.result().duplicate();
                    changed_cells.push(CalculationDeltaCell::new(cell, value.origin(), result));
                }
            },
            None => {
                assert(value_at(cur_view, key as int) is None);
                if previous.materialized_cell(cell).is_some() {
                    removed_materialized_cells.push(cell);
                }
            },
        }
        i = i + 1;
    }
    assert(keys.take(cells@.len() as int) =~= keys);
    let total = changed_cells.len().saturating_add(removed_materialized_cells.len());
    if total > max_delta_cells {
        let detail = delta_limit_detail(total, max_delta_cells);
        return Err(SessionError::new(SessionErrorCode::DeltaLimitExceeded, Some(detail)));
    }
    Ok(CalculationDelta {
        cursor: 0,
        base_revision: metadata.base_revision,
        result_revision: metadata.result_revision,
        mode: metadata.mode,
        reason: metadata.reason,
        dirty_count: metadata.dirty_count,
        evaluated_count: metadata.evaluated_count,
        parsed_formula_count: metadata.parsed_formula_count,
        changed_cells,
        removed_materialized_cells,
    })
}

/// Whether `previous` and `current` disagree under `key`: a new or different current result, or
/// a previous result that is gone.
pub open spec fn disagree(
    previous: Seq<(u128, MaterializedCalculationCell)>,
    current: Seq<(u128, MaterializedCalculationCell)>,
    key: int,
) -> bool {
    ||| (value_at(current, key) matches Some(c) && !unchanged_entry(Some(previous), key, c))
    ||| (has_key(previous, key) && !has_key(current, key))
}

proof fn lemma_value_at_holds(entries: Seq<(u128, MaterializedCalculationCell)>, key: u128)
    requires
        keys_increasing(entries),
    ensures
        value_at(entries, key as int) matches Some(v) ==> holds_entry(entries, key as int, v),
        value_at(entries, key as int) is None <==> !has_key(entries, key as int),
{
    if has_key(entries, key as int) {
        lemma_key_position_exists(entries, key);
        let p = key_position(entries, key);
        let i = choose|i: int| 0 <= i < entries.len() && #[trigger] entries[i].0 == key;
        if i < p {
            assert(entries[i].0 < key);
        }
        if p == entries.len() {
            assert(false);
        }
        if entries[p].0 != key {
            assert(entries[p].0 >= key);
            assert(i > p);
            assert(entries[p].0 < entries[i].0);
            assert(entries[p].0 > key);
            assert(is_key_position(entries, key, p));
            assert(entries[i].0 >= key);
        }
        assert(entries[p].0 == key);
    }
}

proof fn lemma_changed_entries_shape(
    previous: Seq<(u128, MaterializedCalculationCell)>,
    current: Seq<(u128, MaterializedCalculationCell)>,
)
    requires
        keys_increasing(current),
    ensures
        keys_increasing(changed_entries(Some(previous), current)),
        forall|k: int, v: MaterializedCalculationCell| #[trigger] holds_entry(changed_entries(Some(previous), current), k, v)
            <==> (holds_entry(current, k, v) && !unchanged_entry(Some(previous), k, v)),
        forall|i: int| 0 <= i < changed_entries(Some(previous), current).len()
            ==> has_key(current, #[trigger] changed_entries(Some(previous), current)[i].0 as int),
    decreases current.len(),
{
    let out = changed_entries(Some(previous), current);
    if current.len() > 0 {
        let init = current.drop_last();
        let last = current.last();
        assert forall|a: int, b: int| 0 <= a < b < init.len() implies init[a].0 < init[b].0 by {
            assert(init[a] == current[a] && init[b] == current[b]);
        }
        lemma_changed_entries_shape(previous, init);
        let rest = changed_entries(Some(previous), init);
        assert forall|i: int| 0 <= i < rest.len() implies (#[trigger] rest[i]).0 < last.0 by {
            assert(has_key(init, rest[i].0 as int));
            let j = choose|j: int| 0 <= j < init.len() && #[trigger] init[j].0 == rest[i].0;
            assert(current[j] == init[j]);
            assert(current[j].0 < current[current.len() - 1].0);
        }
        assert forall|k: int, v: MaterializedCalculationCell| #[trigger] holds_entry(out, k, v)
            <==> (holds_entry(current, k, v) && !unchanged_entry(Some(previous), k, v)) by {
            if holds_entry(current, k, v) {
                let j = choose|j: int| 0 <= j < current.len() && #[trigger] current[j].0 == k && current[j].1 == v;
                if j < current.len() - 1 {
                    assert(init[j] == current[j]);
                    assert(holds_entry(init, k, v));
                }
            }
            if holds_entry(init, k, v) {
                let j = choose|j: int| 0 <= j < init.len() && #[trigger] init[j].0 == k && init[j].1 == v;
                assert(current[j] == init[j]);
            }
            if holds_entry(out, k, v) && !holds_entry(rest, k, v) {
                let j = choose|j: int| 0 <= j < out.len() && #[trigger] out[j].0 == k && out[j].1 == v;
                if j < rest.len() {
                    assert(out[j] == rest[j]);
                }
            }
            if holds_entry(rest, k, v) {
                let j = choose|j: int| 0 <= j < rest.len() && #[trigger] rest[j].0 == k && rest[j].1 == v;
                assert(out[j] == rest[j]);
            }
            if k == last.0 && v == last.1 && !unchanged_entry(Some(previous), k, v) {
                assert(out[out.len() - 1] == last);
            }
            if holds_entry(current, k, v) && !holds_entry(init, k, v) {
                let j = choose|j: int| 0 <= j < current.len() && #[trigger] current[j].0 == k && current[j].1 == v;
                assert(j == current.len() - 1);
            }
            if holds_entry(out, k, v) && !holds_entry(rest, k, v) {
                let j = choose|j: int| 0 <= j < out.len() && #[trigger] out[j].0 == k && out[j].1 == v;
                assert(j == rest.len());
            }
        }
        assert forall|i: int| 0 <= i < out.len() implies has_key(current, #[trigger] out[i].0 as int) by {
            if i < rest.len() {
                assert(out[i] == rest[i]);
                let j = choose|j: int| 0 <= j < init.len() && #[trigger] init[j].0 == rest[i].0;
                assert(current[j] == init[j]);
            } else {
                assert(current[current.len() - 1].0 == out[i].0);
            }
        }
        assert forall|a: int, b: int| 0 <= a < b < out.len() implies out[a].0 < out[b].0 by {
            if b < rest.len() {
                assert(out[a] == rest[a] && out[b] == rest[b]);
            } else {
                assert(out[a] == rest[a]);
            }
        }
    }
}

proof fn lemma_changed_under_shape(
    previous: Seq<(u128, MaterializedCalculationCell)>,
    current: Seq<(u128, MaterializedCalculationCell)>,
    keys: Seq<u128>,
)
    requires
        keys_increasing(current),
        forall|a: int, b: int| 0 <= a < b < keys.len() ==> keys[a] < keys[b],
    ensures
        keys_increasing(changed_under(previous, current, keys)),
        forall|k: u128, v: MaterializedCalculationCell| #[trigger] holds_entry(changed_under(previous, current, keys), k as int, v)
            <==> (keys.contains(k) && value_at(current, k as int) == Some(v)
                && !unchanged_entry(Some(previous), k as int, v)),
        forall|i: int| 0 <= i < changed_under(previous, current, keys).len()
            ==> keys.contains(#[trigger] changed_under(previous, current, keys)[i].0),
    decreases keys.len(),
{
    let out = changed_under(previous, current, keys);
    if keys.len() > 0 {
        let init = keys.drop_last();
        let last = keys.last();
        lemma_changed_under_shape(previous, current, init);
        let rest = changed_under(previous, current, init);
        assert forall|i: int| 0 <= i < rest.len() implies (#[trigger] rest[i]).0 < last by {
            assert(init.contains(rest[i].0));
            let j = choose|j: int| 0 <= j < init.len() && init[j] == rest[i].0;
            assert(keys[j] == init[j]);
        }
        assert(keys[keys.len() - 1] == last);
        assert forall|k: u128, v: MaterializedCalculationCell| #[trigger] holds_entry(out, k as int, v)
            <==> (keys.contains(k) && value_at(current, k as int) == Some(v)
                && !unchanged_entry(Some(previous), k as int, v)) by {
            let wanted = keys.contains(k) && value_at(current, k as int) == Some(v)
                && !unchanged_entry(Some(previous), k as int, v);
            let in_rest = holds_entry(rest, k as int, v);
            let from_init = init.contains(k) && value_at(current, k as int) == Some(v)
                && !unchanged_entry(Some(previous), k as int, v);
            assert(in_rest == from_init);
            if init.contains(k) {
                let j = choose|j: int| 0 <= j < init.len() && init[j] == k;
                assert(keys[j] == init[j]);
                assert(k < last);
            }
            if keys.contains(k) && k != last {
                let j = choose|j: int| 0 <= j < keys.len() && keys[j] == k;
                assert(j != keys.len() - 1);
                assert(init[j] == keys[j]);
                assert(init.contains(k));
            }
            if in_rest {
                let j = choose|j: int| 0 <= j < rest.len() && #[trigger] rest[j].0 == k && rest[j].1 == v;
                assert(out[j] == rest[j]);
                assert(holds_entry(out, k as int, v));
            }
            match value_at(current, last as int) {
                Some(value) => {
                    if unchanged_entry(Some(previous), last as int, value) {
                        assert(out == rest);
                        if k == last && value_at(current, k as int) == Some(v) {
                            assert(v == value);
                        }
                    } else {
                        assert(out == rest.push((last, value)));
                        if k == last && value_at(current, k as int) == Some(v) && !unchanged_entry(Some(previous), k as int, v) {
                            assert(out[rest.len() as int] == (last, v));
                            assert(out[rest.len() as int].0 == k && out[rest.len() as int].1 == v);
                            assert(holds_entry(out, k as int, v));
                        }
                        if holds_entry(out, k as int, v) && !in_rest {
                            let j = choose|j: int| 0 <= j < out.len() && #[trigger] out[j].0 == k && out[j].1 == v;
                            if j < rest.len() {
                                assert(out[j] == rest[j]);
                            }
                            assert(j == rest.len());
                            assert(k == last && v == value);
                        }
                    }
                },
                None => {
                    assert(out == rest);
                },
            }
        }
        assert forall|i: int| 0 <= i < out.len() implies keys.contains(#[trigger] out[i].0) by {
            if i < rest.len() {
                assert(out[i] == rest[i]);
                let j = choose|j: int| 0 <= j < init.len() && init[j] == rest[i].0;
                assert(keys[j] == init[j]);
            } else {
                assert(keys[keys.len() - 1] == out[i].0);
            }
        }
        assert forall|a: int, b: int| 0 <= a < b < out.len() implies out[a].0 < out[b].0 by {
            if b < rest.len() {
                assert(out[a] == rest[a] && out[b] == rest[b]);
            } else {
                assert(out[a] == rest[a]);
            }
        }
    }
}

/// Whether the keys strictly increase.
pub open spec fn strictly_increasing(keys: Seq<u128>) -> bool {
    forall|a: int, b: int| 0 <= a < b < keys.len() ==> keys[a] < keys[b]
}

proof fn lemma_keys_extensional(a: Seq<u128>, b: Seq<u128>)
    requires
        strictly_increasing(a),
        strictly_increasing(b),
        forall|k: u128| #![trigger a.contains(k)] #![trigger b.contains(k)] a.contains(k) <==> b.contains(k),
    ensures
        a == b,
    decreases a.len(),
{
    if a.len() == 0 {
        if b.len() > 0 {
            assert(b.contains(b[0]));
        }
        assert(a =~= b);
    } else {
        assert(a.contains(a[0]));
        let j = choose|j: int| 0 <= j < b.len() && b[j] == a[0];
        if j > 0 {
            assert(b.contains(b[0]));
            let i = choose|i: int| 0 <= i < a.len() && a[i] == b[0];
            assert(b[0] < b[j]);
            if i > 0 {
                assert(a[0] < a[i]);
            }
        }
        assert(b[0] == a[0]);
        let ta = a.drop_first();
        let tb = b.drop_first();
        assert forall|k: u128| #![trigger ta.contains(k)] #![trigger tb.contains(k)] ta.contains(k) <==> tb.contains(k) by {
            if ta.contains(k) {
                let i = choose|i: int| 0 <= i < ta.len() && ta[i] == k;
                assert(a[i + 1] == ta[i]);
                assert(a[0] < a[i + 1]);
                assert(a.contains(k));
                let m = choose|m: int| 0 <= m < b.len() && b[m] == k;
                assert(m != 0);
                assert(tb[m - 1] == b[m]);
            }
            if tb.contains(k) {
                let i = choose|i: int| 0 <= i < tb.len() && tb[i] == k;
                assert(b[i + 1] == tb[i]);
                assert(b[0] < b[i + 1]);
                assert(b.contains(k));
                let m = choose|m: int| 0 <= m < a.len() && a[m] == k;
                assert(m != 0);
                assert(ta[m - 1] == a[m]);
            }
        }
        lemma_keys_extensional(ta, tb);
        assert(a =~= seq![a[0]] + ta);
        assert(b =~= seq![b[0]] + tb);
    }
}

proof fn lemma_removed_keys_shape(
    previous: Seq<(u128, MaterializedCalculationCell)>,
    current: Seq<(u128, MaterializedCalculationCell)>,
)
    requires
        keys_increasing(previous),
    ensures
        strictly_increasing(removed_keys(previous, current)),
        forall|k: u128| #[trigger] removed_keys(previous, current).contains(k)
            <==> (has_key(previous, k as int) && !has_key(current, k as int)),
    decreases previous.len(),
{
    let out = removed_keys(previous, current);
    if previous.len() > 0 {
        let init = previous.drop_last();
        let last = previous.last();
        assert forall|a: int, b: int| 0 <= a < b < init.len() implies init[a].0 < init[b].0 by {
            assert(init[a] == previous[a] && init[b] == previous[b]);
        }
        lemma_removed_keys_shape(init, current);
        let rest = removed_keys(init, current);
        assert forall|k: u128| has_key(init, k as int) <==> (has_key(previous, k as int) && k != last.0) by {
            if has_key(init, k as int) {
                let j = choose|j: int| 0 <= j < init.len() && #[trigger] init[j].0 == k;
                assert(previous[j] == init[j]);
                assert(previous[j].0 < previous[previous.len() - 1].0);
            }
            if has_key(previous, k as int) && k != last.0 {
                let j = choose|j: int| 0 <= j < previous.len() && #[trigger] previous[j].0 == k;
                assert(j != previous.len() - 1);
                assert(init[j] == previous[j]);
            }
        }
        assert(has_key(previous, last.0 as int)) by {
            assert(previous[previous.len() - 1].0 == last.0);
        }
        assert forall|i: int| 0 <= i < rest.len() implies rest[i] < last.0 by {
            assert(rest.contains(rest[i]));
            assert(has_key(init, rest[i] as int));
            let j = choose|j: int| 0 <= j < init.len() && #[trigger] init[j].0 == rest[i];
            assert(previous[j] == init[j]);
            assert(previous[j].0 < previous[previous.len() - 1].0);
        }
        assert forall|k: u128| #[trigger] out.contains(k) <==> (has_key(previous, k as int) && !has_key(current, k as int)) by {
            if rest.contains(k) {
                let j = choose|j: int| 0 <= j < rest.len() && rest[j] == k;
                assert(out[j] == rest[j]);
            }
            if out.contains(k) && !rest.contains(k) {
                let j = choose|j: int| 0 <= j < out.len() && out[j] == k;
                if j < rest.len() {
                    assert(out[j] == rest[j]);
                }
                assert(j == rest.len());
            }
            if k == last.0 && !has_key(current, k as int) {
                assert(out[rest.len() as int] == k);
            }
        }
        assert forall|a: int, b: int| 0 <= a < b < out.len() implies out[a] < out[b] by {
            if b < rest.len() {
                assert(out[a] == rest[a] && out[b] == rest[b]);
            } else {
                assert(out[a] == rest[a]);
            }
        }
    }
}

proof fn lemma_removed_under_shape(
    previous: Seq<(u128, MaterializedCalculationCell)>,
    current: Seq<(u128, MaterializedCalculationCell)>,
    keys: Seq<u128>,
)
    requires
        strictly_increasing(keys),
    ensures
        strictly_increasing(removed_under(previous, current, keys)),
        forall|k: u128| #[trigger] removed_under(previous, current, keys).contains(k)
            <==> (keys.contains(k) && has_key(previous, k as int) && !has_key(current, k as int)),
    decreases keys.len(),
{
    let out = removed_under(previous, current, keys);
    if keys.len() > 0 {
        let init = keys.drop_last();
        let last = keys.last();
        lemma_removed_under_shape(previous, current, init);
        let rest = removed_under(previous, current, init);
        assert(keys[keys.len() - 1] == last);
        assert forall|k: u128| init.contains(k) <==> (keys.contains(k) && k != last) by {
            if init.contains(k) {
                let j = choose|j: int| 0 <= j < init.len() && init[j] == k;
                assert(keys[j] == init[j]);
                assert(keys[j] < keys[keys.len() - 1]);
            }
            if keys.contains(k) && k != last {
                let j = choose|j: int| 0 <= j < keys.len() && keys[j] == k;
                assert(j != keys.len() - 1);
                assert(init[j] == keys[j]);
            }
        }
        assert forall|i: int| 0 <= i < rest.len() implies rest[i] < last by {
            assert(rest.contains(rest[i]));
            assert(init.contains(rest[i]));
            let j = choose|j: int| 0 <= j < init.len() && init[j] == rest[i];
            assert(keys[j] == init[j]);
        }
        assert forall|k: u128| #[trigger] out.contains(k)
            <==> (keys.contains(k) && has_key(previous, k as int) && !has_key(current, k as int)) by {
            if rest.contains(k) {
                let j = choose|j: int| 0 <= j < rest.len() && rest[j] == k;
                assert(out[j] == rest[j]);
            }
            if out.contains(k) && !rest.contains(k) {
                let j = choose|j: int| 0 <= j < out.len() && out[j] == k;
                if j < rest.len() {
                    assert(out[j] == rest[j]);
                }
                assert(j == rest.len());
            }
            if k == last && has_key(previous, k as int) && !has_key(current, k as int) {
                assert(out[rest.len() as int] == k);
            }
        }
        assert forall|a: int, b: int| 0 <= a < b < out.len() implies out[a] < out[b] by {
            if b < rest.len() {
                assert(out[a] == rest[a] && out[b] == rest[b]);
            } else {
                assert(out[a] == rest[a]);
            }
        }
    }
}

/// Comparing two materializations only under `keys` finds the same changed and removed cells as
/// comparing all of them, whenever every key under which they disagree is among `keys`.
pub proof fn lemma_candidate_keys_find_every_change(
    previous: Seq<(u128, MaterializedCalculationCell)>,
    current: Seq<(u128, MaterializedCalculationCell)>,
    keys: Seq<u128>,
)
    requires
        keys_increasing(previous),
        keys_increasing(current),
        strictly_increasing(keys),
        forall|k: u128| #[trigger] disagree(previous, current, k as int) ==> keys.contains(k),
    ensures
        changed_under(previous, current, keys) == changed_entries(Some(previous), current),
        removed_under(previous, current, keys) == removed_keys(previous, current),
{
    let partial = changed_under(previous, current, keys);
    let full = changed_entries(Some(previous), current);
    lemma_changed_under_shape(previous, current, keys);
    lemma_changed_entries_shape(previous, current);
    assert forall|k: int, v: MaterializedCalculationCell| #![trigger holds_entry(partial, k, v)] #![trigger holds_entry(full, k, v)]
        holds_entry(partial, k, v) <==> holds_entry(full, k, v) by {
        if holds_entry(partial, k, v) {
            let i = choose|i: int| 0 <= i < partial.len() && #[trigger] partial[i].0 == k && partial[i].1 == v;
            let key = partial[i].0;
            assert(holds_entry(partial, key as int, v));
            assert(value_at(current, key as int) == Some(v));
            lemma_value_at_holds(current, key);
        }
        if holds_entry(full, k, v) {
            let i = choose|i: int| 0 <= i < full.len() && #[trigger] full[i].0 == k && full[i].1 == v;
            let key = full[i].0;
            assert(holds_entry(full, key as int, v));
            assert(holds_entry(current, key as int, v));
            lemma_value_at(current, key, v);
            assert(disagree(previous, current, key as int));
            assert(keys.contains(key));
            assert(holds_entry(partial, key as int, v));
        }
    }
    lemma_entries_extensional(partial, full);

    let removed_partial = removed_under(previous, current, keys);
    let removed_full = removed_keys(previous, current);
    lemma_removed_under_shape(previous, current, keys);
    lemma_removed_keys_shape(previous, current);
    assert forall|k: u128| #![trigger removed_partial.contains(k)] #![trigger removed_full.contains(k)]
        removed_partial.contains(k) <==> removed_full.contains(k) by {
        if has_key(previous, k as int) && !has_key(current, k as int) {
            assert(disagree(previous, current, k as int));
        }
    }
    lemma_keys_extensional(removed_partial, removed_full);
}

/// An incremental delta over the cells that dirty owners own, before or after, lists exactly
/// what the full delta between the two calculations lists, whenever the calculations disagree
/// only in cells that those owners own.
pub proof fn lemma_incremental_delta_matches_full_delta(
    previous: &CalculationSnapshot,
    current: &CalculationSnapshot,
    dirty: Seq<u128>,
    keys: Seq<u128>,
)
    requires
        keys_increasing(previous.materialized_spec()),
        keys_increasing(current.materialized_spec()),
        lists_candidates(keys, previous, current, dirty),
        forall|k: u128| #[trigger] disagree(previous.materialized_spec(), current.materialized_spec(), k as int)
            ==> owned_by_dirty(previous.owners_spec(), current.owners_spec(), dirty, k),
    ensures
        changed_under(previous.materialized_spec(), current.materialized_spec(), keys)
            == changed_entries(materialized_view(Some(previous)), current.materialized_spec()),
        removed_under(previous.materialized_spec(), current.materialized_spec(), keys)
            == removed_view(Some(previous), current),
{
    lemma_candidate_keys_find_every_change(previous.materialized_spec(), current.materialized_spec(), keys);
}

/// Builds a delta that records no changed or removed cell.
pub fn build_empty_delta(metadata: DeltaMetadata) -> (r: CalculationDelta)
    ensures
        r.carries(0, metadata),
        r.changed_cells_spec()@.len() == 0,
        r.removed_materialized_cells_spec()@.len() == 0,
{
    CalculationDelta {
        cursor: 0,
        base_revision: metadata.base_revision,
        result_revision: metadata.result_revision,
        mode: metadata.mode,
        reason: metadata.reason,
        dirty_count: metadata.dirty_count,
        evaluated_count: metadata.evaluated_count,
        parsed_formula_count: metadata.parsed_formula_count,
        changed_cells: Vec::new(),
        removed_materialized_cells: Vec::new(),
    }
}

} // verus!
