//! Building the retained detail sections of a transaction report under a shared item budget.
use vstd::prelude::*;

use crate::calculation::{
    CalculationCellResult, CalculationIssue, CalculationOptions, MaterializedCalculationCell, MaterializedResultOrigin,
};
use crate::calculation::CalculationIssueCode;
use crate::cell::{CalculationCellId, cell_key_spec};
use crate::text::{char_from_ascii, decimal_spec, push_char, push_decimal, push_str};
use crate::delta::{CalculationDelta, CalculationDeltaCell, saturated};
use crate::history::{detail_pair, detail_text};
use crate::report::{
    InstallDeltaBasisReason, TransactionAffectedFormula, TransactionDetailItem, TransactionImpactCause,
    TransactionInstallResultChange, TransactionIssueChange, TransactionIssueChangeKind, TransactionResultChange,
};
use crate::session::{CancellationToken, SessionError, SessionErrorCode};
use crate::snapshot::CalculationSnapshot;
use crate::store::{CalculationStore, has_key, holds_entry, inserted_all, keys_increasing, lemma_value_at, lists_entries, value_at};

verus! {

/// Count of retained detail items against the configured limit.
pub struct DetailBudget {
    used: usize,
    limit: usize,
}

/// The error a budget answers when `requested` items exceed `limit`.
pub open spec fn budget_exceeded(e: SessionError, requested: int, limit: int) -> bool {
    &&& e.code_spec() == SessionErrorCode::TransactionDetailLimitExceeded
    &&& e.detail_spec() matches Some(text)
    &&& text@ == detail_pair("items="@, requested as nat, ", limit="@, limit as nat)
}

impl DetailBudget {
    #[verifier::type_invariant]
    spec fn within_limit(self) -> bool {
        self.used <= self.limit
    }

    pub closed spec fn used_spec(self) -> usize {
        self.used
    }

    pub closed spec fn limit_spec(self) -> usize {
        self.limit
    }

    /// Items in use after reserving `items` more.
    pub open spec fn requested(self, items: int) -> int {
        saturated(self.used_spec() + items)
    }

    /// Whether `items` more fit within the limit.
    pub open spec fn admits(self, items: int) -> bool {
        self.requested(items) <= self.limit_spec()
    }

    /// Starts an empty budget of `limit` items.
    pub fn new(limit: usize) -> (r: Self)
        ensures
            r.used_spec() == 0,
            r.limit_spec() == limit,
    {
        DetailBudget { used: 0, limit }
    }

    /// Every budget stays within its limit.
    pub fn check_within_limit(&self)
        ensures
            self.used_spec() <= self.limit_spec(),
    {
        proof {
            use_type_invariant(self);
        }
    }

    /// Reserves `items` more retained items, or reports the requested total when it exceeds the
    /// limit and leaves the budget as it was.
    pub fn reserve(&mut self, items: usize) -> (r: Result<(), SessionError>)
        ensures
            final(self).limit_spec() == old(self).limit_spec(),
            match r {
                Ok(()) => old(self).admits(items as int) && final(self).used_spec() == old(self).requested(items as int),
                Err(e) => {
                    &&& !old(self).admits(items as int)
                    &&& final(self).used_spec() == old(self).used_spec()
                    &&& budget_exceeded(e, old(self).requested(items as int), old(self).limit_spec() as int)
                },
            },
    {
        let requested = self.used.saturating_add(items);
        if requested > self.limit {
            let detail = detail_text("items=", requested as u64, ", limit=", self.limit as u64);
            return Err(SessionError::new(SessionErrorCode::TransactionDetailLimitExceeded, Some(detail)));
        }
        self.used = requested;
        Ok(())
    }
}

fn cancelled_error() -> (e: SessionError)
    ensures
        e.code_spec() == SessionErrorCode::Cancelled,
        e.detail_spec() is None,
{
    SessionError::new(SessionErrorCode::Cancelled, None)
}

/// Whether `e` reports cancellation.
pub open spec fn is_cancellation(e: SessionError) -> bool {
    e.code_spec() == SessionErrorCode::Cancelled && e.detail_spec() is None
}

/// Lists the evaluated formula cells, in the order given, after reserving one item for each.
pub fn build_evaluated_details(
    evaluated: &[CalculationCellId],
    cancellation: &CancellationToken,
    budget: &mut DetailBudget,
) -> (r: Result<Vec<TransactionDetailItem>, SessionError>)
    ensures
        final(budget).limit_spec() == old(budget).limit_spec(),
        match r {
            Ok(items) => {
                &&& old(budget).admits(evaluated@.len() as int)
                &&& final(budget).used_spec() == old(budget).requested(evaluated@.len() as int)
                &&& items@.len() == evaluated@.len()
                &&& forall|i: int| 0 <= i < evaluated@.len() ==> #[trigger] items@[i] == TransactionDetailItem::Evaluated(evaluated@[i])
            },
            Err(e) => {
                ||| {
                    &&& !old(budget).admits(evaluated@.len() as int)
                    &&& final(budget).used_spec() == old(budget).used_spec()
                    &&& budget_exceeded(e, old(budget).requested(evaluated@.len() as int), old(budget).limit_spec() as int)
                }
                ||| {
                    &&& old(budget).admits(evaluated@.len() as int)
                    &&& final(budget).used_spec() == old(budget).requested(evaluated@.len() as int)
                    &&& is_cancellation(e)
                }
            },
        },
{
    match budget.reserve(evaluated.len()) {
        Ok(()) => {},
        Err(e) => return Err(e),
    }
    let mut details: Vec<TransactionDetailItem> = Vec::new();
    let mut i: usize = 0;
    while i < evaluated.len()
        invariant
            i <= evaluated@.len(),
            old(budget).admits(evaluated@.len() as int),
            budget.used_spec() == old(budget).requested(evaluated@.len() as int),
            budget.limit_spec() == old(budget).limit_spec(),
            details@.len() == i,
            forall|j: int| 0 <= j < i ==> #[trigger] details@[j] == TransactionDetailItem::Evaluated(evaluated@[j]),
        decreases evaluated@.len() - i,
    {
        if cancellation.is_cancelled() {
            return Err(cancelled_error());
        }
        details.push(TransactionDetailItem::Evaluated(evaluated[i]));
        i = i + 1;
    }
    Ok(details)
}

/// `cells` each paired with `tag` under its packed key.
pub open spec fn tagged<T>(cells: Seq<CalculationCellId>, tag: T) -> Seq<(u128, T)> {
    cells.map_values(|c: CalculationCellId| (cell_key_spec(c@) as u128, tag))
}

/// Stores `tag` for each cell of `cells` in turn, stopping when cancellation is requested;
/// a stop leaves the cells stored before it, a proper prefix of `cells`.
fn store_tagged<T: Copy>(
    store: &mut CalculationStore<T>,
    cells: &[CalculationCellId],
    tag: T,
    cancellation: &CancellationToken,
) -> (r: Result<(), ()>)
    ensures
        r is Ok ==> final(store).entries_spec() == inserted_all(old(store).entries_spec(), tagged(cells@, tag)),
        r is Err ==> exists|k: int|
            0 <= k < cells@.len()
                && final(store).entries_spec() == #[trigger] inserted_all(
                old(store).entries_spec(),
                tagged(cells@, tag).take(k),
            ),
{
    let ghost start = store.entries_spec();
    let ghost items = tagged(cells@, tag);
    assert(items.take(0) =~= Seq::<(u128, T)>::empty());
    let mut i: usize = 0;
    while i < cells.len()
        invariant
            i <= cells@.len(),
            items == tagged(cells@, tag),
            start == old(store).entries_spec(),
            store.entries_spec() == inserted_all(start, items.take(i as int)),
        decreases cells@.len() - i,
    {
        if cancellation.is_cancelled() {
            assert(store.entries_spec() == inserted_all(old(store).entries_spec(), tagged(cells@, tag).take(i as int)));
            return Err(());
        }
        store.insert(cells[i], tag);
        assert(items.take(i + 1).drop_last() =~= items.take(i as int));
        i = i + 1;
    }
    assert(items.take(cells@.len() as int) =~= items);
    Ok(())
}

/// Each affected formula with the last cause it was listed under, in ascending cell order.
pub open spec fn classified_spec(
    direct: Seq<CalculationCellId>,
    transitive: Seq<CalculationCellId>,
    conservative: Seq<CalculationCellId>,
) -> Seq<(u128, TransactionImpactCause)> {
    inserted_all(
        inserted_all(
            inserted_all(Seq::empty(), tagged(direct, TransactionImpactCause::Direct)),
            tagged(transitive, TransactionImpactCause::Transitive),
        ),
        tagged(conservative, TransactionImpactCause::Conservative),
    )
}

/// Whether `item` records the affected formula `entry`.
pub open spec fn records_affected(item: TransactionDetailItem, entry: (u128, TransactionImpactCause)) -> bool {
    &&& item matches TransactionDetailItem::Affected(f)
    &&& cell_key_spec(f.cell_spec()@) == entry.0
    &&& f.cause_spec() == entry.1
}

/// Total items reserved for the affected section.
pub open spec fn affected_total(direct: int, transitive: int, conservative: int) -> int {
    saturated(saturated(direct + transitive) + conservative)
}

/// Lists the affected formulas in ascending cell order, each under the last of direct,
/// transitive and conservative that lists it, after reserving one item per listed cell.
pub fn build_affected_details(
    direct: &[CalculationCellId],
    transitive: &[CalculationCellId],
    conservative: &[CalculationCellId],
    cancellation: &CancellationToken,
    budget: &mut DetailBudget,
) -> (r: Result<Vec<TransactionDetailItem>, SessionError>)
    ensures
        final(budget).limit_spec() == old(budget).limit_spec(),
        ({
            let total = affected_total(direct@.len() as int, transitive@.len() as int, conservative@.len() as int);
            let classified = classified_spec(direct@, transitive@, conservative@);
            match r {
                Ok(items) => {
                    &&& old(budget).admits(total)
                    &&& final(budget).used_spec() == old(budget).requested(total)
                    &&& items@.len() == classified.len()
                    &&& forall|i: int| 0 <= i < classified.len() ==> #[trigger] records_affected(items@[i], classified[i])
                },
                Err(e) => {
                    ||| {
                        &&& !old(budget).admits(total)
                        &&& final(budget).used_spec() == old(budget).used_spec()
                        &&& budget_exceeded(e, old(budget).requested(total), old(budget).limit_spec() as int)
                    }
                    ||| {
                        &&& old(budget).admits(total)
                        &&& final(budget).used_spec() == old(budget).requested(total)
                        &&& is_cancellation(e)
                    }
                },
            }
        }),
{
    let total = direct.len().saturating_add(transitive.len()).saturating_add(conservative.len());
    match budget.reserve(total) {
        Ok(()) => {},
        Err(e) => return Err(e),
    }
    let mut classified: CalculationStore<TransactionImpactCause> = CalculationStore::new();
    match store_tagged(&mut classified, direct, TransactionImpactCause::Direct, cancellation) {
        Ok(()) => {},
        Err(()) => return Err(cancelled_error()),
    }
    match store_tagged(&mut classified, transitive, TransactionImpactCause::Transitive, cancellation) {
        Ok(()) => {},
        Err(()) => return Err(cancelled_error()),
    }
    match store_tagged(&mut classified, conservative, TransactionImpactCause::Conservative, cancellation) {
        Ok(()) => {},
        Err(()) => return Err(cancelled_error()),
    }
    let ghost entries = classified.entries_spec();
    let cells = classified.cells();
    let mut details: Vec<TransactionDetailItem> = Vec::new();
    let mut i: usize = 0;
    while i < cells.len()
        invariant
            i <= cells@.len(),
            lists_entries(cells@, entries),
            entries == classified_spec(direct@, transitive@, conservative@),
            total == affected_total(direct@.len() as int, transitive@.len() as int, conservative@.len() as int),
            old(budget).admits(total as int),
            budget.used_spec() == old(budget).requested(total as int),
            budget.limit_spec() == old(budget).limit_spec(),
            details@.len() == i,
            forall|j: int| 0 <= j < i ==> #[trigger] records_affected(details@[j], entries[j]),
        decreases cells@.len() - i,
    {
        if cancellation.is_cancelled() {
            return Err(cancelled_error());
        }
        let formula = TransactionAffectedFormula::new(cells[i].0, *cells[i].1);
        assert(cell_key_spec(formula.cell_spec()@) == entries[i as int].0);
        assert(formula.cause_spec() == entries[i as int].1);
        details.push(TransactionDetailItem::Affected(formula));
        assert(details@[i as int] == TransactionDetailItem::Affected(formula));
        assert(records_affected(details@[i as int], entries[i as int]));
        i = i + 1;
    }
    Ok(details)
}

/// What installation stores for a cell: its new origin and result, or nothing when removed.
pub type InstallOutcome = Option<(MaterializedResultOrigin, CalculationCellResult)>;

/// Each changed cell of a delta with its new origin and result, under its packed key.
pub open spec fn changed_outcomes(changed: Seq<CalculationDeltaCell>) -> Seq<(u128, InstallOutcome)> {
    changed.map_values(
        |c: CalculationDeltaCell| (cell_key_spec(c.cell_spec()@) as u128, Some((c.origin_spec(), c.result_spec()))),
    )
}

/// Each cell a delta changes or removes with what installation stores for it, in ascending
/// cell order, a removal taking the place of a change of the same cell.
pub open spec fn install_outcomes(delta: CalculationDelta) -> Seq<(u128, InstallOutcome)> {
    inserted_all(
        inserted_all(Seq::empty(), changed_outcomes(delta.changed_cells_spec()@)),
        tagged(delta.removed_materialized_cells_spec()@, None),
    )
}

/// Whether `item` records the install outcome `entry`.
pub open spec fn records_install(item: TransactionDetailItem, entry: (u128, InstallOutcome)) -> bool {
    &&& item matches TransactionDetailItem::InstallResult(x)
    &&& cell_key_spec(x.cell_spec()@) == entry.0
    &&& match entry.1 {
        Some((origin, result)) => x.origin_spec() == Some(origin) && x.result_spec() == Some(result),
        None => x.origin_spec() is None && x.result_spec() is None,
    }
}

/// Lists every cell the install delta changes or removes, in ascending cell order, after
/// reserving one item per changed and per removed cell.
pub fn build_install_details(
    delta: &CalculationDelta,
    cancellation: &CancellationToken,
    budget: &mut DetailBudget,
) -> (r: Result<Vec<TransactionDetailItem>, SessionError>)
    ensures
        final(budget).limit_spec() == old(budget).limit_spec(),
        ({
            let total = saturated((delta.changed_cells_spec()@.len() + delta.removed_materialized_cells_spec()@.len()) as int);
            let outcomes = install_outcomes(*delta);
            match r {
                Ok(items) => {
                    &&& old(budget).admits(total)
                    &&& final(budget).used_spec() == old(budget).requested(total)
                    &&& items@.len() == outcomes.len()
                    &&& forall|i: int| 0 <= i < outcomes.len() ==> #[trigger] records_install(items@[i], outcomes[i])
                },
                Err(e) => {
                    ||| {
                        &&& !old(budget).admits(total)
                        &&& final(budget).used_spec() == old(budget).used_spec()
                        &&& budget_exceeded(e, old(budget).requested(total), old(budget).limit_spec() as int)
                    }
                    ||| {
                        &&& old(budget).admits(total)
                        &&& final(budget).used_spec() == old(budget).requested(total)
                        &&& is_cancellation(e)
                    }
                },
            }
        }),
{
    let changed = delta.changed_cells();
    let removed = delta.removed_materialized_cells();
    let total = changed.len().saturating_add(removed.len());
    match budget.reserve(total) {
        Ok(()) => {},
        Err(e) => return Err(e),
    }
    let ghost changed_items = changed_outcomes(delta.changed_cells_spec()@);
    let mut outcomes: CalculationStore<InstallOutcome> = CalculationStore::new();
    assert(changed_items.take(0) =~= Seq::<(u128, InstallOutcome)>::empty());
    let mut i: usize = 0;
    while i < changed.len()
        invariant
            i <= changed@.len(),
            changed@ == delta.changed_cells_spec()@,
            changed_items == changed_outcomes(delta.changed_cells_spec()@),
            total == saturated((delta.changed_cells_spec()@.len() + delta.removed_materialized_cells_spec()@.len()) as int),
            old(budget).admits(total as int),
            budget.used_spec() == old(budget).requested(total as int),
            budget.limit_spec() == old(budget).limit_spec(),
            outcomes.entries_spec() == inserted_all(Seq::<(u128, InstallOutcome)>::empty(), changed_items.take(i as int)),
        decreases changed@.len() - i,
    {
        if cancellation.is_cancelled() {
            return Err(cancelled_error());
        }
        let change = &changed[i];
        let result = change.result().duplicate();
        outcomes.insert(change.cell(), Some((change.origin(), result)));
        assert(changed_items.take(i + 1).drop_last() =~= changed_items.take(i as int));
        i = i + 1;
    }
    assert(changed_items.take(changed@.len() as int) =~= changed_items);
    let ghost start = outcomes.entries_spec();
    let ghost removed_items: Seq<(u128, InstallOutcome)> = tagged(removed@, None);
    assert(removed_items.take(0) =~= Seq::<(u128, InstallOutcome)>::empty());
    let mut a: usize = 0;
    while a < removed.len()
        invariant
            a <= removed@.len(),
            removed_items == tagged(removed@, None::<(MaterializedResultOrigin, CalculationCellResult)>),
            removed@ == delta.removed_materialized_cells_spec()@,
            total == saturated((delta.changed_cells_spec()@.len() + delta.removed_materialized_cells_spec()@.len()) as int),
            old(budget).admits(total as int),
            budget.used_spec() == old(budget).requested(total as int),
            budget.limit_spec() == old(budget).limit_spec(),
            outcomes.entries_spec() == inserted_all(start, removed_items.take(a as int)),
        decreases removed@.len() - a,
    {
        if cancellation.is_cancelled() {
            return Err(cancelled_error());
        }
        outcomes.insert(removed[a], None);
        assert(removed_items.take(a + 1).drop_last() =~= removed_items.take(a as int));
        a = a + 1;
    }
    assert(removed_items.take(removed@.len() as int) =~= removed_items);
    let ghost entries = outcomes.entries_spec();
    let cells = outcomes.cells();
    let mut details: Vec<TransactionDetailItem> = Vec::new();
    let mut k: usize = 0;
    while k < cells.len()
        invariant
            k <= cells@.len(),
            lists_entries(cells@, entries),
            entries == install_outcomes(*delta),
            total == saturated((delta.changed_cells_spec()@.len() + delta.removed_materialized_cells_spec()@.len()) as int),
            old(budget).admits(total as int),
            budget.used_spec() == old(budget).requested(total as int),
            budget.limit_spec() == old(budget).limit_spec(),
            details@.len() == k,
            forall|j: int| 0 <= j < k ==> #[trigger] records_install(details@[j], entries[j]),
        decreases cells@.len() - k,
    {
        if cancellation.is_cancelled() {
            return Err(cancelled_error());
        }
        let cell = cells[k].0;
        let outcome: &InstallOutcome = cells[k].1;
        assert(cell_key_spec(cells@[k as int].0@) == entries[k as int].0);
        assert(*outcome == entries[k as int].1);
        let change = match outcome {
            Some(pair) => {
                let result = pair.1.duplicate();
                let c = TransactionInstallResultChange::new(cell, Some(pair.0), Some(result));
                assert(c.origin_spec() == Some(pair.0) && c.result_spec() == Some(pair.1));
                c
            },
            None => TransactionInstallResultChange::new(cell, None, None),
        };
        details.push(TransactionDetailItem::InstallResult(change));
        assert(details@[k as int] == TransactionDetailItem::InstallResult(change));
        assert(records_install(details@[k as int], entries[k as int]));
        k = k + 1;
    }
    Ok(details)
}

/// Every cell a delta changes or removes, once each, in ascending cell order.
pub open spec fn preview_cells(delta: CalculationDelta) -> Seq<(u128, ())> {
    inserted_all(
        inserted_all(
            Seq::empty(),
            tagged(delta.changed_cells_spec()@.map_values(|c: CalculationDeltaCell| c.cell_spec()), ()),
        ),
        tagged(delta.removed_materialized_cells_spec()@, ()),
    )
}

/// Whether the materialized results under `key` differ between `base` and `candidate`.
pub open spec fn differs(
    base: Seq<(u128, MaterializedCalculationCell)>,
    candidate: Seq<(u128, MaterializedCalculationCell)>,
    key: int,
) -> bool {
    match (value_at(base, key), value_at(candidate, key)) {
        (None, None) => false,
        (Some(a), Some(b)) => !a.same_cell(b),
        _ => true,
    }
}

/// The keys among `cells` whose materialized results differ, in order.
pub open spec fn preview_keys(
    base: Seq<(u128, MaterializedCalculationCell)>,
    candidate: Seq<(u128, MaterializedCalculationCell)>,
    cells: Seq<(u128, ())>,
) -> Seq<u128>
    decreases cells.len(),
{
    if cells.len() == 0 {
        Seq::empty()
    } else {
        let rest = preview_keys(base, candidate, cells.drop_last());
        if differs(base, candidate, cells.last().0 as int) {
            rest.push(cells.last().0)
        } else {
            rest
        }
    }
}

proof fn lemma_preview_keys_grow(
    base: Seq<(u128, MaterializedCalculationCell)>,
    candidate: Seq<(u128, MaterializedCalculationCell)>,
    cells: Seq<(u128, ())>,
    n: int,
)
    requires
        0 <= n <= cells.len(),
    ensures
        preview_keys(base, candidate, cells.take(n)).len() <= preview_keys(base, candidate, cells).len(),
    decreases cells.len() - n,
{
    if n < cells.len() {
        lemma_preview_keys_grow(base, candidate, cells, n + 1);
        assert(cells.take(n + 1).drop_last() =~= cells.take(n));
    } else {
        assert(cells.take(n) =~= cells);
    }
}

/// Whether `item` records the result change under `key` between `base` and `candidate`.
pub open spec fn records_preview(
    item: TransactionDetailItem,
    key: u128,
    base: Seq<(u128, MaterializedCalculationCell)>,
    candidate: Seq<(u128, MaterializedCalculationCell)>,
) -> bool {
    &&& item matches TransactionDetailItem::PreviewResult(x)
    &&& cell_key_spec(x.cell_spec()@) == key
    &&& match value_at(base, key as int) {
        Some(v) => x.previous_origin_spec() == Some(v.origin_spec()) && x.previous_result_spec() == Some(v.result_spec()),
        None => x.previous_origin_spec() is None && x.previous_result_spec() is None,
    }
    &&& match value_at(candidate, key as int) {
        Some(v) => x.result_origin_spec() == Some(v.origin_spec()) && x.result_spec() == Some(v.result_spec()),
        None => x.result_origin_spec() is None && x.result_spec() is None,
    }
}

fn origin_and_result(
    found: Option<&MaterializedCalculationCell>,
) -> (r: (Option<MaterializedResultOrigin>, Option<CalculationCellResult>))
    ensures
        match found {
            Some(v) => r.0 == Some(v.origin_spec()) && r.1 == Some(v.result_spec()),
            None => r.0 is None && r.1 is None,
        },
{
    match found {
        Some(v) => (Some(v.origin()), Some(v.result().duplicate())),
        None => (None, None),
    }
}

/// Lists, in ascending cell order, every cell the delta changes or removes whose materialized
/// result differs between `base` and `candidate`, reserving one item for each as it is found.
pub fn build_preview_result_details(
    base: &CalculationSnapshot,
    candidate: &CalculationSnapshot,
    delta: &CalculationDelta,
    cancellation: &CancellationToken,
    budget: &mut DetailBudget,
) -> (r: Result<Vec<TransactionDetailItem>, SessionError>)
    ensures
        final(budget).limit_spec() == old(budget).limit_spec(),
        ({
            let keys = preview_keys(base.materialized_spec(), candidate.materialized_spec(), preview_cells(*delta));
            match r {
                Ok(items) => {
                    &&& old(budget).admits(keys.len() as int)
                    &&& final(budget).used_spec() == old(budget).requested(keys.len() as int)
                    &&& items@.len() == keys.len()
                    &&& forall|i: int| 0 <= i < keys.len() ==> #[trigger] records_preview(
                        items@[i],
                        keys[i],
                        base.materialized_spec(),
                        candidate.materialized_spec(),
                    )
                },
                Err(e) => {
                    ||| {
                        &&& !old(budget).admits(keys.len() as int)
                        &&& final(budget).used_spec() == old(budget).limit_spec()
                        &&& budget_exceeded(e, old(budget).limit_spec() + 1, old(budget).limit_spec() as int)
                    }
                    ||| is_cancellation(e)
                },
            }
        }),
{
    budget.check_within_limit();
    let changed = delta.changed_cells();
    let removed = delta.removed_materialized_cells();
    let ghost changed_ids = delta.changed_cells_spec()@.map_values(|c: CalculationDeltaCell| c.cell_spec());
    let mut ids: Vec<CalculationCellId> = Vec::new();
    let mut i: usize = 0;
    while i < changed.len()
        invariant
            i <= changed@.len(),
            changed@ == delta.changed_cells_spec()@,
            changed_ids == delta.changed_cells_spec()@.map_values(|c: CalculationDeltaCell| c.cell_spec()),
            ids@ == changed_ids.take(i as int),
            budget.limit_spec() == old(budget).limit_spec(),
            budget.used_spec() == old(budget).used_spec(),
        decreases changed@.len() - i,
    {
        if cancellation.is_cancelled() {
            return Err(cancelled_error());
        }
        ids.push(changed[i].cell());
        assert(ids@ =~= changed_ids.take(i + 1));
        i = i + 1;
    }
    assert(changed_ids.take(changed@.len() as int) =~= changed_ids);
    let mut cells: CalculationStore<()> = CalculationStore::new();
    match store_tagged(&mut cells, ids.as_slice(), (), cancellation) {
        Ok(()) => {},
        Err(()) => return Err(cancelled_error()),
    }
    match store_tagged(&mut cells, removed, (), cancellation) {
        Ok(()) => {},
        Err(()) => return Err(cancelled_error()),
    }
    base.check_sorted();
    candidate.check_sorted();
    let ghost entries = cells.entries_spec();
    let ghost base_view = base.materialized_spec();
    let ghost candidate_view = candidate.materialized_spec();
    assert(entries == preview_cells(*delta));
    let list = cells.cells();
    let mut details: Vec<TransactionDetailItem> = Vec::new();
    let mut k: usize = 0;
    while k < list.len()
        invariant
            k <= list@.len(),
            lists_entries(list@, entries),
            entries == preview_cells(*delta),
            base_view == base.materialized_spec(),
            candidate_view == candidate.materialized_spec(),
            keys_increasing(base_view),
            keys_increasing(candidate_view),
            budget.limit_spec() == old(budget).limit_spec(),
            old(budget).used_spec() <= old(budget).limit_spec(),
            ({
                let expected = preview_keys(base_view, candidate_view, entries.take(k as int));
                &&& details@.len() == expected.len()
                &&& budget.used_spec() == old(budget).requested(expected.len() as int)
                &&& forall|j: int| 0 <= j < expected.len() ==> #[trigger] records_preview(details@[j], expected[j], base_view, candidate_view)
            }),
        decreases list@.len() - k,
    {
        if cancellation.is_cancelled() {
            return Err(cancelled_error());
        }
        let cell = list[k].0;
        let ghost key = entries[k as int].0;
        assert(cell_key_spec(list@[k as int].0@) == key);
        assert(entries.take(k + 1).drop_last() =~= entries.take(k as int));
        assert(entries.take(k + 1).last() == entries[k as int]);
        let previous = base.materialized_cell(cell);
        let current = candidate.materialized_cell(cell);
        proof {
            match previous {
                Some(v) => lemma_value_at(base_view, key, *v),
                None => {},
            }
            match current {
                Some(v) => lemma_value_at(candidate_view, key, *v),
                None => {},
            }
        }
        let same = match (previous, current) {
            (None, None) => true,
            (Some(a), Some(b)) => a.same_as(b),
            _ => false,
        };
        assert(same == !differs(base_view, candidate_view, key as int));
        if !same {
            budget.check_within_limit();
            match budget.reserve(1) {
                Ok(()) => {},
                Err(e) => {
                    proof {
                        lemma_preview_keys_grow(base_view, candidate_view, entries, k + 1);
                    }
                    return Err(e);
                },
            }
            let (previous_origin, previous_result) = origin_and_result(previous);
            let (result_origin, result) = origin_and_result(current);
            let change = TransactionResultChange::new(cell, previous_origin, previous_result, result_origin, result);
            let ghost before = details@;
            details.push(TransactionDetailItem::PreviewResult(change));
            assert(details@[before.len() as int] == TransactionDetailItem::PreviewResult(change));
            assert(records_preview(details@[before.len() as int], key, base_view, candidate_view));
        }
        k = k + 1;
    }
    assert(entries.take(list@.len() as int) =~= entries);
    budget.check_within_limit();
    Ok(details)
}

/// The issue a result reports, when it is unavailable.
pub open spec fn issue_of(result: Option<CalculationCellResult>) -> Option<CalculationIssue> {
    match result {
        Some(CalculationCellResult::Unavailable(issue)) => Some(issue),
        _ => None,
    }
}

/// Returns the issue an optional result reports, when it is unavailable.
pub fn issue(result: Option<&CalculationCellResult>) -> (r: Option<&CalculationIssue>)
    ensures
        match result {
            Some(v) => match r {
                Some(i) => issue_of(Some(*v)) == Some(*i),
                None => issue_of(Some(*v)) is None,
            },
            None => r is None,
        },
{
    match result {
        Some(CalculationCellResult::Unavailable(issue)) => Some(issue),
        _ => None,
    }
}

/// How the issue changes from `previous` to `current`, if it does.
pub open spec fn issue_change_kind(
    previous: Option<CalculationIssue>,
    current: Option<CalculationIssue>,
) -> Option<TransactionIssueChangeKind> {
    match (previous, current) {
        (None, Some(_)) => Some(TransactionIssueChangeKind::Introduced),
        (Some(_), None) => Some(TransactionIssueChangeKind::Resolved),
        (Some(p), Some(c)) => if p.same_issue(c) {
            None
        } else {
            Some(TransactionIssueChangeKind::Changed)
        },
        (None, None) => None,
    }
}

/// The issue changes among preview result items, in order: the cell, the kind of change, and
/// the issue before and after.
pub open spec fn issue_changes(
    results: Seq<TransactionDetailItem>,
) -> Seq<(CalculationCellId, TransactionIssueChangeKind, Option<CalculationIssue>, Option<CalculationIssue>)>
    decreases results.len(),
{
    if results.len() == 0 {
        Seq::empty()
    } else {
        let rest = issue_changes(results.drop_last());
        match results.last() {
            TransactionDetailItem::PreviewResult(x) => {
                let previous = issue_of(x.previous_result_spec());
                let current = issue_of(x.result_spec());
                match issue_change_kind(previous, current) {
                    Some(kind) => rest.push((x.cell_spec(), kind, previous, current)),
                    None => rest,
                }
            },
            _ => rest,
        }
    }
}

/// Whether `item` records the issue change `change`.
pub open spec fn records_issue(
    item: TransactionDetailItem,
    change: (CalculationCellId, TransactionIssueChangeKind, Option<CalculationIssue>, Option<CalculationIssue>),
) -> bool {
    &&& item matches TransactionDetailItem::PreviewIssue(x)
    &&& x.cell_spec() == change.0
    &&& x.kind_spec() == change.1
    &&& x.previous_spec() == change.2
    &&& x.current_spec() == change.3
}

proof fn lemma_issue_changes_grow(results: Seq<TransactionDetailItem>, n: int)
    requires
        0 <= n <= results.len(),
    ensures
        issue_changes(results.take(n)).len() <= issue_changes(results).len(),
    decreases results.len() - n,
{
    if n < results.len() {
        lemma_issue_changes_grow(results, n + 1);
        assert(results.take(n + 1).drop_last() =~= results.take(n));
    } else {
        assert(results.take(n) =~= results);
    }
}

fn copy_issue(issue: Option<&CalculationIssue>) -> (r: Option<CalculationIssue>)
    ensures
        match issue {
            Some(i) => r == Some(*i),
            None => r is None,
        },
{
    match issue {
        Some(i) => Some(i.duplicate()),
        None => None,
    }
}

/// Lists the issue introduced, resolved or changed by each preview result item, in order,
/// reserving one item for each as it is found.
pub fn build_issue_details(
    results: &[TransactionDetailItem],
    cancellation: &CancellationToken,
    budget: &mut DetailBudget,
) -> (r: Result<Vec<TransactionDetailItem>, SessionError>)
    ensures
        final(budget).limit_spec() == old(budget).limit_spec(),
        ({
            let changes = issue_changes(results@);
            match r {
                Ok(items) => {
                    &&& old(budget).admits(changes.len() as int)
                    &&& final(budget).used_spec() == old(budget).requested(changes.len() as int)
                    &&& items@.len() == changes.len()
                    &&& forall|i: int| 0 <= i < changes.len() ==> #[trigger] records_issue(items@[i], changes[i])
                },
                Err(e) => {
                    ||| {
                        &&& !old(budget).admits(changes.len() as int)
                        &&& final(budget).used_spec() == old(budget).limit_spec()
                        &&& budget_exceeded(e, old(budget).limit_spec() + 1, old(budget).limit_spec() as int)
                    }
                    ||| is_cancellation(e)
                },
            }
        }),
{
    budget.check_within_limit();
    let ghost all = results@;
    let mut details: Vec<TransactionDetailItem> = Vec::new();
    let mut i: usize = 0;
    while i < results.len()
        invariant
            i <= results@.len(),
            all == results@,
            budget.limit_spec() == old(budget).limit_spec(),
            old(budget).used_spec() <= old(budget).limit_spec(),
            ({
                let expected = issue_changes(all.take(i as int));
                &&& details@.len() == expected.len()
                &&& budget.used_spec() == old(budget).requested(expected.len() as int)
                &&& forall|j: int| 0 <= j < expected.len() ==> #[trigger] records_issue(details@[j], expected[j])
            }),
        decreases results@.len() - i,
    {
        if cancellation.is_cancelled() {
            return Err(cancelled_error());
        }
        assert(all.take(i + 1).drop_last() =~= all.take(i as int));
        assert(all.take(i + 1).last() == all[i as int]);
        match &results[i] {
            TransactionDetailItem::PreviewResult(result) => {
                let previous = issue(result.previous_result());
                let current = issue(result.result());
                let ghost previous_spec = issue_of(result.previous_result_spec());
                let ghost current_spec = issue_of(result.result_spec());
                let kind = match (previous, current) {
                    (None, Some(_)) => Some(TransactionIssueChangeKind::Introduced),
                    (Some(_), None) => Some(TransactionIssueChangeKind::Resolved),
                    (Some(p), Some(c)) => if p.same_as(c) {
                        None
                    } else {
                        Some(TransactionIssueChangeKind::Changed)
                    },
                    (None, None) => None,
                };
                assert(kind == issue_change_kind(previous_spec, current_spec));
                match kind {
                    Some(kind) => {
                        budget.check_within_limit();
                        match budget.reserve(1) {
                            Ok(()) => {},
                            Err(e) => {
                                proof {
                                    lemma_issue_changes_grow(all, i + 1);
                                }
                                return Err(e);
                            },
                        }
                        let change = TransactionIssueChange::new(result.cell(), kind, copy_issue(previous), copy_issue(current));
                        let ghost before = details@;
                        details.push(TransactionDetailItem::PreviewIssue(change));
                        assert(details@[before.len() as int] == TransactionDetailItem::PreviewIssue(change));
                    },
                    None => {},
                }
            },
            _ => {},
        }
        i = i + 1;
    }
    assert(all.take(results@.len() as int) =~= all);
    budget.check_within_limit();
    Ok(details)
}

/// Column letters of a one-based column number: A to Z, then AA, AB and so on.
pub open spec fn column_letters(column: nat) -> Seq<char>
    decreases column,
{
    if column <= 26 {
        seq![((column + 64) as u32) as char]
    } else {
        column_letters(((column - 1) / 26) as nat).push(((((column - 1) % 26) + 65) as u32) as char)
    }
}

fn push_column_letters(s: &mut String, column: u32)
    requires
        column >= 1,
    ensures
        final(s)@ == old(s)@ + column_letters(column as nat),
    decreases column,
{
    if column <= 26 {
        push_char(s, char_from_ascii(column + 64));
        assert(final(s)@ =~= old(s)@ + column_letters(column as nat));
    } else {
        let rest = (column - 1) / 26;
        push_column_letters(s, rest);
        push_char(s, char_from_ascii((column - 1) % 26 + 65));
        assert(final(s)@ =~= old(s)@ + column_letters(column as nat));
    }
}

/// Whether `cells` holds an unavailable result under `key` that exceeded a resource limit.
pub open spec fn over_resource_limit(cells: Seq<(u128, CalculationCellResult)>, key: int) -> bool {
    value_at(cells, key) matches Some(CalculationCellResult::Unavailable(i))
        && i.code_spec() == CalculationIssueCode::ResourceLimitExceeded
}

/// Detail text naming the phase, the cell as sheet and A1 address, and the calculation detail.
pub open spec fn resource_limit_detail(phase: Seq<char>, cell: CalculationCellId, detail: Option<String>) -> Seq<char> {
    "phase="@ + phase + ", cell="@ + decimal_spec(cell@.sheet as nat) + ":"@ + column_letters(cell@.column as nat)
        + decimal_spec(cell@.row as nat) + ", calculation_detail="@ + match detail {
        Some(d) => d@,
        None => "unspecified"@,
    }
}

/// Checks the evaluated cells in order and fails on the first whose result exceeded a
/// calculation resource limit, naming the phase, the cell and the calculation detail.
pub fn ensure_evaluated_resource_limits(
    calculation: &CalculationSnapshot,
    evaluated: &[CalculationCellId],
    phase: &str,
    cancellation: &CancellationToken,
) -> (r: Result<(), SessionError>)
    ensures
        match r {
            Ok(()) => forall|i: int| 0 <= i < evaluated@.len() ==> !over_resource_limit(
                calculation.cells_spec(),
                cell_key_spec(#[trigger] evaluated@[i]@),
            ),
            Err(e) => is_cancellation(e) || exists|j: int| {
                &&& 0 <= j < evaluated@.len()
                &&& over_resource_limit(calculation.cells_spec(), cell_key_spec(#[trigger] evaluated@[j]@))
                &&& forall|i: int| 0 <= i < j ==> !over_resource_limit(calculation.cells_spec(), cell_key_spec(#[trigger] evaluated@[i]@))
                &&& e.code_spec() == SessionErrorCode::TransactionResourceLimitExceeded
                &&& value_at(calculation.cells_spec(), cell_key_spec(evaluated@[j]@)) matches Some(
                    CalculationCellResult::Unavailable(issue),
                )
                &&& e.detail_spec() matches Some(text)
                &&& text@ == resource_limit_detail(phase@, evaluated@[j], issue.detail_spec())
            },
        },
{
    calculation.check_sorted();
    let ghost cells = calculation.cells_spec();
    let mut i: usize = 0;
    while i < evaluated.len()
        invariant
            i <= evaluated@.len(),
            cells == calculation.cells_spec(),
            crate::store::keys_increasing(cells),
            forall|j: int| 0 <= j < i ==> !over_resource_limit(cells, cell_key_spec(#[trigger] evaluated@[j]@)),
        decreases evaluated@.len() - i,
    {
        if cancellation.is_cancelled() {
            return Err(cancelled_error());
        }
        let cell = evaluated[i];
        let ghost key = cell_key_spec(cell@);
        cell.check_valid();
        proof {
            crate::cell::lemma_cell_key_round_trip(cell);
        }
        match calculation.cell(cell) {
            Some(CalculationCellResult::Unavailable(issue)) => {
                proof {
                    lemma_value_at(cells, key as u128, CalculationCellResult::Unavailable(*issue));
                }
                if issue.code() == CalculationIssueCode::ResourceLimitExceeded {
                    let mut text = String::new();
                    push_str(&mut text, "phase=");
                    push_str(&mut text, phase);
                    push_str(&mut text, ", cell=");
                    push_decimal(&mut text, cell.sheet_id().get() as u64);
                    push_str(&mut text, ":");
                    let address = cell.address();
                    push_column_letters(&mut text, address.column());
                    push_decimal(&mut text, address.row() as u64);
                    push_str(&mut text, ", calculation_detail=");
                    match issue.detail() {
                        Some(d) => push_str(&mut text, d),
                        None => push_str(&mut text, "unspecified"),
                    }
                    assert(text@ =~= resource_limit_detail(phase@, cell, issue.detail_spec()));
                    return Err(SessionError::new(SessionErrorCode::TransactionResourceLimitExceeded, Some(text)));
                }
            },
            Some(other) => {
                proof {
                    lemma_value_at(cells, key as u128, *other);
                }
            },
            None => {},
        }
        i = i + 1;
    }
    Ok(())
}

/// Whether two arrays of fingerprint bytes are equal.
fn same_fingerprint(a: &[u8; 32], b: &[u8; 32]) -> (r: bool)
    ensures
        r == (a@ == b@),
{
    let mut i: usize = 0;
    while i < 32
        invariant
            i <= 32,
            a@.len() == 32,
            b@.len() == 32,
            forall|j: int| 0 <= j < i ==> a@[j] == b@[j],
        decreases 32 - i,
    {
        if a[i] != b[i] {
            return false;
        }
        i = i + 1;
    }
    assert(a@ =~= b@);
    true
}

/// Why installation compares against a different basis than the preview, in order.
pub open spec fn basis_reasons_spec(
    installed: Option<(u64, [u8; 32], CalculationOptions)>,
    installed_options: Option<CalculationOptions>,
    base_revision: u64,
    base_fingerprint: [u8; 32],
    options: CalculationOptions,
) -> Seq<InstallDeltaBasisReason> {
    match installed {
        None => seq![InstallDeltaBasisReason::NoInstalledCalculation],
        Some((revision, fingerprint, snapshot_options)) => {
            let pending = if revision != base_revision {
                seq![InstallDeltaBasisReason::PriorPendingEdits]
            } else {
                Seq::empty()
            };
            let changed = if installed_options != Some(options) || snapshot_options != options {
                seq![InstallDeltaBasisReason::CalculationOptionsChanged]
            } else {
                Seq::empty()
            };
            let mismatch = if revision == base_revision && fingerprint@ != base_fingerprint@ {
                seq![InstallDeltaBasisReason::InstalledCalculationIdentityMismatch]
            } else {
                Seq::empty()
            };
            pending + changed + mismatch
        },
    }
}

/// The identity of an optional installed calculation.
pub open spec fn installed_identity(installed: Option<&CalculationSnapshot>) -> Option<(u64, [u8; 32], CalculationOptions)> {
    match installed {
        Some(s) => Some((s.source_revision_spec(), s.source_fingerprint_spec(), s.options_spec())),
        None => None,
    }
}

/// Lists why installing against `installed` differs from previewing against the transaction base.
pub fn install_basis_reasons(
    installed: Option<&CalculationSnapshot>,
    installed_options: Option<CalculationOptions>,
    base_revision: u64,
    base_fingerprint: [u8; 32],
    options: CalculationOptions,
) -> (r: Vec<InstallDeltaBasisReason>)
    ensures
        r@ == basis_reasons_spec(installed_identity(installed), installed_options, base_revision, base_fingerprint, options),
{
    let mut reasons: Vec<InstallDeltaBasisReason> = Vec::new();
    let installed = match installed {
        Some(s) => s,
        None => {
            reasons.push(InstallDeltaBasisReason::NoInstalledCalculation);
            assert(reasons@ =~= seq![InstallDeltaBasisReason::NoInstalledCalculation]);
            return reasons;
        },
    };
    let ghost expected_pending: Seq<InstallDeltaBasisReason> = if installed.source_revision_spec() != base_revision {
        seq![InstallDeltaBasisReason::PriorPendingEdits]
    } else {
        Seq::empty()
    };
    if installed.source_revision() != base_revision {
        reasons.push(InstallDeltaBasisReason::PriorPendingEdits);
    }
    assert(reasons@ =~= expected_pending);
    let same_installed = match installed_options {
        Some(o) => o == options,
        None => false,
    };
    let ghost after_pending = reasons@;
    if !same_installed || installed.options() != options {
        reasons.push(InstallDeltaBasisReason::CalculationOptionsChanged);
    }
    let ghost after_options = reasons@;
    if installed.source_revision() == base_revision && !same_fingerprint(installed.source_fingerprint(), &base_fingerprint) {
        reasons.push(InstallDeltaBasisReason::InstalledCalculationIdentityMismatch);
    }
    proof {
        let changed: Seq<InstallDeltaBasisReason> = if installed_options != Some(options) || installed.options_spec() != options {
            seq![InstallDeltaBasisReason::CalculationOptionsChanged]
        } else {
            Seq::empty()
        };
        assert(after_options =~= after_pending + changed);
        let mismatch: Seq<InstallDeltaBasisReason> = if installed.source_revision_spec() == base_revision
            && installed.source_fingerprint_spec()@ != base_fingerprint@ {
            seq![InstallDeltaBasisReason::InstalledCalculationIdentityMismatch]
        } else {
            Seq::empty()
        };
        assert(reasons@ =~= after_options + mismatch);
    }
    reasons
}

} // verus!
