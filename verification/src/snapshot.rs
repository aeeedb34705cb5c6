//! Immutable formula results of one calculation.
use vstd::prelude::*;

use crate::calculation::{
    CalculationCellResult, CalculationIssue, CalculationIssueCode, CalculationOptions, CellValue, CellValueModel,
    MaterializedCalculationCell, MaterializedResultOrigin,
};
use crate::value::ErrorKind;
use crate::cell::{CalculationCellId, cell_before, cell_key_spec};
use crate::store::{
    CalculationStore, cell_keys, has_key, holds_entry, inserted_all, is_key_position, key_position, keys_increasing,
    lemma_get_after_insert, lemma_get_after_remove, lemma_key_position_exists, lemma_key_position_unique, lemma_value_at,
    lists_entries, removed_all, value_at, with_entry, without_entry,
};

verus! {

/// Key of the cell that owns a materialized result: the formula itself, or the anchor of the
/// array the result belongs to.
pub open spec fn owner_key_spec(key: u128, cell: MaterializedCalculationCell) -> u128 {
    match cell.origin_spec() {
        MaterializedResultOrigin::DirectFormula => key,
        MaterializedResultOrigin::LegacyArray { anchor, .. } => cell_key_spec(anchor@) as u128,
        MaterializedResultOrigin::DynamicSpill { anchor, .. } => cell_key_spec(anchor@) as u128,
    }
}

/// Returns the cell that owns a materialized result.
pub fn materialized_owner(cell: CalculationCellId, materialized: &MaterializedCalculationCell) -> (r: CalculationCellId)
    ensures
        cell_key_spec(r@) as u128 == owner_key_spec(cell_key_spec(cell@) as u128, *materialized),
        materialized.origin_spec() is DirectFormula ==> r == cell,
{
    match materialized.origin() {
        MaterializedResultOrigin::DirectFormula => cell,
        MaterializedResultOrigin::LegacyArray { anchor, .. } => anchor,
        MaterializedResultOrigin::DynamicSpill { anchor, .. } => anchor,
    }
}

/// Owner entries with each list of owned cells taken by key.
pub open spec fn index_view(entries: Seq<(u128, Vec<CalculationCellId>)>) -> Seq<(u128, Seq<u128>)> {
    entries.map_values(|e: (u128, Vec<CalculationCellId>)| (e.0, cell_keys(e.1@)))
}

/// `index` with `key` appended to the keys `owner` owns.
pub open spec fn appended(index: Seq<(u128, Seq<u128>)>, owner: u128, key: u128) -> Seq<(u128, Seq<u128>)> {
    with_entry(index, owner, match value_at(index, owner as int) {
        Some(owned) => owned.push(key),
        None => seq![key],
    })
}

/// Every owner of a materialized entry with the keys it owns, in entry order.
pub open spec fn owner_index_spec(entries: Seq<(u128, MaterializedCalculationCell)>) -> Seq<(u128, Seq<u128>)>
    decreases entries.len(),
{
    if entries.len() == 0 {
        Seq::empty()
    } else {
        appended(owner_index_spec(entries.drop_last()), owner_key_spec(entries.last().0, entries.last().1), entries.last().0)
    }
}

proof fn lemma_index_view_positions(entries: Seq<(u128, Vec<CalculationCellId>)>, key: u128)
    requires
        keys_increasing(entries),
    ensures
        index_view(entries).len() == entries.len(),
        forall|i: int| 0 <= i < entries.len() ==> #[trigger] index_view(entries)[i] == (entries[i].0, cell_keys(entries[i].1@)),
        key_position(index_view(entries), key) == key_position(entries, key),
        has_key(index_view(entries), key as int) == has_key(entries, key as int),
        keys_increasing(index_view(entries)),
{
    let view = index_view(entries);
    assert forall|i: int| 0 <= i < entries.len() implies #[trigger] view[i] == (entries[i].0, cell_keys(entries[i].1@)) by {}
    lemma_key_position_exists(entries, key);
    let p = key_position(entries, key);
    assert(is_key_position(view, key, p)) by {
        assert forall|i: int| 0 <= i < p implies (#[trigger] view[i]).0 < key by {
            assert(view[i].0 == entries[i].0);
        }
        assert forall|i: int| p <= i < view.len() implies (#[trigger] view[i]).0 >= key by {
            assert(view[i].0 == entries[i].0);
        }
    }
    lemma_key_position_unique(view, key, p);
    if has_key(entries, key as int) {
        let i = choose|i: int| 0 <= i < entries.len() && #[trigger] entries[i].0 == key;
        assert(view[i].0 == key);
    }
    if has_key(view, key as int) {
        let i = choose|i: int| 0 <= i < view.len() && #[trigger] view[i].0 == key;
        assert(entries[i].0 == key);
    }
    assert forall|i: int, j: int| 0 <= i < j < view.len() implies view[i].0 < view[j].0 by {
        assert(view[i].0 == entries[i].0 && view[j].0 == entries[j].0);
    }
}

proof fn lemma_index_view_insert(entries: Seq<(u128, Vec<CalculationCellId>)>, key: u128, list: Vec<CalculationCellId>)
    requires
        keys_increasing(entries),
    ensures
        index_view(with_entry(entries, key, list)) == with_entry(index_view(entries), key, cell_keys(list@)),
{
    lemma_index_view_positions(entries, key);
    let p = key_position(entries, key);
    lemma_key_position_exists(entries, key);
    let view = index_view(entries);
    let after = with_entry(entries, key, list);
    let lhs = index_view(after);
    let rhs = with_entry(view, key, cell_keys(list@));
    let item = (key, cell_keys(list@));
    assert(lhs.len() == after.len());
    assert forall|i: int| 0 <= i < after.len() implies #[trigger] lhs[i] == (after[i].0, cell_keys(after[i].1@)) by {}
    if p < entries.len() && entries[p].0 == key {
        assert(view[p].0 == key);
        assert(rhs == view.update(p, item));
        assert forall|i: int| 0 <= i < lhs.len() implies lhs[i] == rhs[i] by {
            if i != p {
                assert(after[i] == entries[i]);
            }
        }
    } else {
        if p < view.len() {
            assert(view[p].0 == entries[p].0);
        }
        assert(rhs == view.insert(p, item));
        assert forall|i: int| 0 <= i < lhs.len() implies lhs[i] == rhs[i] by {
            if i < p {
                assert(after[i] == entries[i]);
            } else if i > p {
                assert(after[i] == entries[i - 1]);
            }
        }
    }
    assert(lhs =~= rhs);
}

proof fn lemma_index_view_remove(entries: Seq<(u128, Vec<CalculationCellId>)>, key: u128)
    requires
        keys_increasing(entries),
    ensures
        index_view(without_entry(entries, key)) == without_entry(index_view(entries), key),
        keys_increasing(without_entry(entries, key)),
{
    lemma_index_view_positions(entries, key);
    lemma_key_position_exists(entries, key);
    lemma_get_after_remove(entries, key, 0, arbitrary());
    let p = key_position(entries, key);
    let view = index_view(entries);
    let after = without_entry(entries, key);
    let lhs = index_view(after);
    let rhs = without_entry(view, key);
    assert forall|i: int| 0 <= i < after.len() implies #[trigger] lhs[i] == (after[i].0, cell_keys(after[i].1@)) by {}
    if p < entries.len() && entries[p].0 == key {
        assert(view[p].0 == key);
        assert(rhs == view.remove(p));
        assert forall|i: int| 0 <= i < lhs.len() implies lhs[i] == rhs[i] by {
            if i < p {
                assert(after[i] == entries[i]);
            } else {
                assert(after[i] == entries[i + 1]);
            }
        }
    } else {
        if p < view.len() {
            assert(view[p].0 == entries[p].0);
        }
        assert(rhs == view);
    }
    assert(lhs =~= rhs);
}

/// The keys `index` lists for `owner`, none when it lists no such owner.
pub open spec fn owned(index: Seq<(u128, Seq<u128>)>, owner: int) -> Seq<u128> {
    match value_at(index, owner) {
        Some(keys) => keys,
        None => Seq::empty(),
    }
}

/// Keys of the cells owned by each owner in `dirty`, read in turn from `index` as the owners
/// before it have been removed.
pub open spec fn released(index: Seq<(u128, Seq<u128>)>, dirty: Seq<u128>) -> Seq<u128>
    decreases dirty.len(),
{
    if dirty.len() == 0 {
        Seq::empty()
    } else {
        released(index, dirty.drop_last()) + match value_at(removed_all(index, dirty.drop_last()), dirty.last() as int) {
            Some(owned) => owned,
            None => Seq::empty(),
        }
    }
}

fn copy_result(v: &CalculationCellResult) -> (r: CalculationCellResult)
    ensures
        r == *v,
{
    v.duplicate()
}

fn copy_materialized(v: &MaterializedCalculationCell) -> (r: MaterializedCalculationCell)
    ensures
        r == *v,
{
    v.duplicate()
}

fn copy_owned(v: &Vec<CalculationCellId>) -> (r: Vec<CalculationCellId>)
    ensures
        r@ == v@,
{
    let r = v.clone();
    assert(r@ =~= v@);
    r
}

/// Builds the index from owners to the materialized cells they own, polling `cancelled` once per
/// materialized cell.
pub fn build_materialized_owner_index<F: Fn() -> bool>(
    materialized: &CalculationStore<MaterializedCalculationCell>,
    cancelled: &F,
) -> (r: Result<CalculationStore<Vec<CalculationCellId>>, ()>)
    requires
        call_requires(*cancelled, ()),
    ensures
        r matches Ok(index) ==> index_view(index.entries_spec()) == owner_index_spec(materialized.entries_spec()),
        r is Err ==> call_ensures(*cancelled, (), true),
{
    let ghost all = materialized.entries_spec();
    let cells = materialized.cells();
    let mut index: CalculationStore<Vec<CalculationCellId>> = CalculationStore::new();
    assert(index_view(index.entries_spec()) =~= owner_index_spec(all.take(0)));
    let mut i: usize = 0;
    while i < cells.len()
        invariant
            lists_entries(cells@, all),
            all == materialized.entries_spec(),
            i <= cells@.len(),
            call_requires(*cancelled, ()),
            index_view(index.entries_spec()) == owner_index_spec(all.take(i as int)),
        decreases cells@.len() - i,
    {
        if cancelled() {
            return Err(());
        }
        let cell = cells[i].0;
        let value = cells[i].1;
        let owner = materialized_owner(cell, value);
        index.check_sorted();
        let ghost before = index.entries_spec();
        owner.check_valid();
        let ghost owner_key = cell_key_spec(owner@) as u128;
        proof {
            crate::cell::lemma_cell_key_round_trip(owner);
            lemma_index_view_positions(before, owner_key);
        }
        let list = match index.get(owner) {
            Some(owned) => {
                proof {
                    lemma_value_at(before, owner_key, *owned);
                    lemma_key_position_exists(before, owner_key);
                    let q = key_position(before, owner_key);
                    assert(0 <= q < before.len());
                    assert(before[q] == (owner_key, *owned));
                    assert(index_view(before)[q] == (owner_key, cell_keys(owned@)));
                    assert(value_at(index_view(before), owner_key as int) == Some(cell_keys(owned@)));
                }
                let mut copy = owned.clone();
                assert(copy@ =~= owned@);
                copy.push(cell);
                assert(cell_keys(copy@) =~= cell_keys(owned@).push(cell_key_spec(cell@) as u128));
                copy
            },
            None => {
                let mut fresh: Vec<CalculationCellId> = Vec::new();
                fresh.push(cell);
                assert(cell_keys(fresh@) =~= seq![cell_key_spec(cell@) as u128]);
                fresh
            },
        };
        index.insert(owner, list);
        proof {
            lemma_index_view_insert(before, owner_key, list);
            assert(all.take(i + 1).drop_last() =~= all.take(i as int));
            assert(all.take(i + 1).last() == all[i as int]);
        }
        i = i + 1;
    }
    assert(all.take(cells@.len() as int) =~= all);
    Ok(index)
}

/// Immutable formula results, separate from source literals and saved values.
#[derive(Debug)]
pub struct CalculationSnapshot {
    cells: CalculationStore<CalculationCellResult>,
    materialized_cells: CalculationStore<MaterializedCalculationCell>,
    materialized_cells_by_owner: CalculationStore<Vec<CalculationCellId>>,
    options: CalculationOptions,
    source_revision: u64,
    source_fingerprint: [u8; 32],
}

/// Whether `entries` holds exactly `cells`, in order, each under its packed key.
pub open spec fn holds_cells<V>(entries: Seq<(u128, V)>, cells: Seq<(CalculationCellId, V)>) -> bool {
    &&& entries.len() == cells.len()
    &&& forall|i: int| 0 <= i < cells.len() ==> #[trigger] entries[i].0 == cell_key_spec(cells[i].0@)
        && entries[i].1 == cells[i].1
}

/// Whether some neighbouring pair of `cells` is not in strictly ascending cell order.
pub open spec fn out_of_order<V>(cells: Seq<(CalculationCellId, V)>) -> bool {
    exists|i: int| 0 <= i < cells.len() - 1 && !cell_before(#[trigger] cells[i].0@, cells[i + 1].0@)
}

/// Results of an incremental recalculation, to be laid over the previous snapshot.
pub struct IncrementalCalculationPatch {
    dirty: Vec<CalculationCellId>,
    cell_results: CalculationStore<CalculationCellResult>,
    materialized_results: CalculationStore<MaterializedCalculationCell>,
    options: CalculationOptions,
    source_revision: u64,
    source_fingerprint: [u8; 32],
}

impl IncrementalCalculationPatch {
    pub closed spec fn dirty_spec(self) -> Seq<CalculationCellId> {
        self.dirty@
    }

    pub closed spec fn cell_results_spec(self) -> Seq<(u128, CalculationCellResult)> {
        self.cell_results.entries_spec()
    }

    pub closed spec fn materialized_spec(self) -> Seq<(u128, MaterializedCalculationCell)> {
        self.materialized_results.entries_spec()
    }

    pub closed spec fn options_spec(self) -> CalculationOptions {
        self.options
    }

    pub closed spec fn source_revision_spec(self) -> u64 {
        self.source_revision
    }

    pub closed spec fn source_fingerprint_spec(self) -> [u8; 32] {
        self.source_fingerprint
    }

    /// Collects the dirty formula owners, their recalculated results and materialization, and the
    /// source the results were calculated from.
    pub fn new(
        dirty: Vec<CalculationCellId>,
        cell_results: CalculationStore<CalculationCellResult>,
        materialized_results: CalculationStore<MaterializedCalculationCell>,
        options: CalculationOptions,
        source_revision: u64,
        source_fingerprint: [u8; 32],
    ) -> (r: Self)
        ensures
            r.dirty_spec() == dirty@,
            r.cell_results_spec() == cell_results.entries_spec(),
            r.materialized_spec() == materialized_results.entries_spec(),
            r.options_spec() == options,
            r.source_revision_spec() == source_revision,
            r.source_fingerprint_spec() == source_fingerprint,
    {
        IncrementalCalculationPatch {
            dirty,
            cell_results,
            materialized_results,
            options,
            source_revision,
            source_fingerprint,
        }
    }
}

impl CalculationSnapshot {
    pub closed spec fn cells_spec(self) -> Seq<(u128, CalculationCellResult)> {
        self.cells.entries_spec()
    }

    pub closed spec fn materialized_spec(self) -> Seq<(u128, MaterializedCalculationCell)> {
        self.materialized_cells.entries_spec()
    }

    /// Each owner with the keys of the materialized cells it owns.
    pub closed spec fn owners_spec(self) -> Seq<(u128, Seq<u128>)> {
        index_view(self.materialized_cells_by_owner.entries_spec())
    }

    pub closed spec fn options_spec(self) -> CalculationOptions {
        self.options
    }

    pub closed spec fn source_revision_spec(self) -> u64 {
        self.source_revision
    }

    pub closed spec fn source_fingerprint_spec(self) -> [u8; 32] {
        self.source_fingerprint
    }

    /// Builds a snapshot from formula results and the materialization view, each in strictly
    /// ascending cell order, indexing materialized cells by owner and polling `cancelled` once
    /// per materialized cell; `Ok(None)` when either input is out of order.
    pub fn new_cancellable<F: Fn() -> bool>(
        cells: Vec<(CalculationCellId, CalculationCellResult)>,
        materialized_cells: Vec<(CalculationCellId, MaterializedCalculationCell)>,
        options: CalculationOptions,
        source_revision: u64,
        source_fingerprint: [u8; 32],
        cancelled: &F,
    ) -> (r: Result<Option<CalculationSnapshot>, ()>)
        requires
            call_requires(*cancelled, ()),
        ensures
            match r {
                Ok(Some(s)) => {
                    &&& holds_cells(s.cells_spec(), cells@)
                    &&& holds_cells(s.materialized_spec(), materialized_cells@)
                    &&& s.owners_spec() == owner_index_spec(s.materialized_spec())
                    &&& s.options_spec() == options
                    &&& s.source_revision_spec() == source_revision
                    &&& s.source_fingerprint_spec() == source_fingerprint
                },
                Ok(None) => out_of_order(cells@) || out_of_order(materialized_cells@),
                Err(()) => call_ensures(*cancelled, (), true),
            },
    {
        let cells = match CalculationStore::from_sorted(cells) {
            Some(store) => store,
            None => return Ok(None),
        };
        let materialized_cells = match CalculationStore::from_sorted(materialized_cells) {
            Some(store) => store,
            None => return Ok(None),
        };
        let materialized_cells_by_owner = match build_materialized_owner_index(&materialized_cells, cancelled) {
            Ok(index) => index,
            Err(()) => return Err(()),
        };
        Ok(
            Some(
                CalculationSnapshot {
                    cells,
                    materialized_cells,
                    materialized_cells_by_owner,
                    options,
                    source_revision,
                    source_fingerprint,
                },
            ),
        )
    }

    /// Builds a snapshot from formula results and the materialization view, each in strictly
    /// ascending cell order; returns `None` when either is out of order.
    pub fn new(
        cells: Vec<(CalculationCellId, CalculationCellResult)>,
        materialized_cells: Vec<(CalculationCellId, MaterializedCalculationCell)>,
        options: CalculationOptions,
        source_revision: u64,
        source_fingerprint: [u8; 32],
    ) -> (r: Option<CalculationSnapshot>)
        ensures
            match r {
                Some(s) => {
                    &&& holds_cells(s.cells_spec(), cells@)
                    &&& holds_cells(s.materialized_spec(), materialized_cells@)
                    &&& s.owners_spec() == owner_index_spec(s.materialized_spec())
                    &&& s.options_spec() == options
                    &&& s.source_revision_spec() == source_revision
                    &&& s.source_fingerprint_spec() == source_fingerprint
                },
                None => out_of_order(cells@) || out_of_order(materialized_cells@),
            },
    {
        let never = || -> (c: bool)
            ensures
                !c,
        { false };
        match Self::new_cancellable(cells, materialized_cells, options, source_revision, source_fingerprint, &never) {
            Ok(r) => r,
            Err(()) => None,
        }
    }

    /// The same results as `self` under new source identity and options, unless `cancelled`
    /// reports cancellation first.
    pub fn rebase_source_cancellable<F: Fn() -> bool>(
        &self,
        options: CalculationOptions,
        source_revision: u64,
        source_fingerprint: [u8; 32],
        cancelled: &F,
    ) -> (r: Result<CalculationSnapshot, ()>)
        requires
            call_requires(*cancelled, ()),
        ensures
            match r {
                Ok(s) => {
                    &&& s.cells_spec() == self.cells_spec()
                    &&& s.materialized_spec() == self.materialized_spec()
                    &&& s.owners_spec() == self.owners_spec()
                    &&& s.options_spec() == options
                    &&& s.source_revision_spec() == source_revision
                    &&& s.source_fingerprint_spec() == source_fingerprint
                },
                Err(()) => call_ensures(*cancelled, (), true),
            },
    {
        if cancelled() {
            return Err(());
        }
        let owners = self.materialized_cells_by_owner.duplicate_viewed(&copy_owned);
        assert(index_view(owners.entries_spec()) =~= index_view(self.materialized_cells_by_owner.entries_spec()));
        Ok(
            CalculationSnapshot {
                cells: self.cells.duplicate_with(&copy_result),
                materialized_cells: self.materialized_cells.duplicate_with(&copy_materialized),
                materialized_cells_by_owner: owners,
                options,
                source_revision,
                source_fingerprint,
            },
        )
    }

    /// Lays an incremental recalculation over these results: stores the recalculated formula
    /// results, releases the materialized cells of every dirty owner, stores the new
    /// materialization, and indexes it by owner, polling `cancelled` between steps.
    pub fn apply_incremental_patch_cancellable<F: Fn() -> bool>(
        &self,
        patch: IncrementalCalculationPatch,
        cancelled: &F,
    ) -> (r: Result<CalculationSnapshot, ()>)
        requires
            call_requires(*cancelled, ()),
        ensures
            match r {
                Ok(s) => {
                    &&& s.cells_spec() == inserted_all(self.cells_spec(), patch.cell_results_spec())
                    &&& s.materialized_spec() == inserted_all(
                        removed_all(self.materialized_spec(), released(self.owners_spec(), cell_keys(patch.dirty_spec()))),
                        patch.materialized_spec(),
                    )
                    &&& s.owners_spec() == inserted_all(
                        removed_all(self.owners_spec(), cell_keys(patch.dirty_spec())),
                        owner_index_spec(patch.materialized_spec()),
                    )
                    &&& s.options_spec() == patch.options_spec()
                    &&& s.source_revision_spec() == patch.source_revision_spec()
                    &&& s.source_fingerprint_spec() == patch.source_fingerprint_spec()
                },
                Err(()) => call_ensures(*cancelled, (), true),
            },
    {
        if cancelled() {
            return Err(());
        }
        let IncrementalCalculationPatch {
            dirty,
            cell_results,
            materialized_results,
            options,
            source_revision,
            source_fingerprint,
        } = patch;
        let mut cells = self.cells.duplicate_with(&copy_result);
        let results = cell_results.cells();
        let ghost result_entries = cell_results.entries_spec();
        assert(result_entries.take(0) =~= Seq::<(u128, CalculationCellResult)>::empty());
        let mut i: usize = 0;
        while i < results.len()
            invariant
                lists_entries(results@, result_entries),
                i <= results@.len(),
                call_requires(*cancelled, ()),
                cells.entries_spec() == inserted_all(self.cells_spec(), result_entries.take(i as int)),
            decreases results@.len() - i,
        {
            let value = results[i].1.duplicate();
            match cells.insert_cancellable(results[i].0, value, cancelled) {
                Ok(_) => {},
                Err(()) => return Err(()),
            }
            proof {
                assert(result_entries.take(i + 1).drop_last() =~= result_entries.take(i as int));
            }
            i = i + 1;
        }
        assert(result_entries.take(results@.len() as int) =~= result_entries);

        let mut owners = self.materialized_cells_by_owner.duplicate_viewed(&copy_owned);
        let ghost owner_index = self.owners_spec();
        let ghost dirty_keys = cell_keys(dirty@);
        assert(index_view(owners.entries_spec()) =~= owner_index);
        let mut removed: Vec<CalculationCellId> = Vec::new();
        let mut j: usize = 0;
        while j < dirty.len()
            invariant
                j <= dirty@.len(),
                dirty_keys == cell_keys(dirty@),
                call_requires(*cancelled, ()),
                index_view(owners.entries_spec()) == removed_all(owner_index, dirty_keys.take(j as int)),
                cell_keys(removed@) == released(owner_index, dirty_keys.take(j as int)),
            decreases dirty@.len() - j,
        {
            let owner = dirty[j];
            owners.check_sorted();
            owner.check_valid();
            let ghost before = owners.entries_spec();
            let ghost key = cell_key_spec(owner@) as u128;
            proof {
                crate::cell::lemma_cell_key_round_trip(owner);
                lemma_index_view_positions(before, key);
                lemma_index_view_remove(before, key);
                assert(dirty_keys.take(j + 1).drop_last() =~= dirty_keys.take(j as int));
                assert(dirty_keys.take(j + 1).last() == key);
            }
            match owners.remove_cancellable(owner, cancelled) {
                Ok(Some(list)) => {
                    proof {
                        lemma_value_at(before, key, list);
                        lemma_key_position_exists(before, key);
                        let q = key_position(before, key);
                        assert(index_view(before)[q] == (key, cell_keys(list@)));
                    }
                    let ghost prior = removed@;
                    let mut list = list;
                    let ghost owned = list@;
                    removed.append(&mut list);
                    assert(cell_keys(removed@) =~= cell_keys(prior) + cell_keys(owned));
                },
                Ok(None) => {
                    proof {
                        assert(!has_key(index_view(before), key as int));
                        assert(released(owner_index, dirty_keys.take(j + 1)) =~= released(owner_index, dirty_keys.take(j as int)));
                    }
                },
                Err(()) => return Err(()),
            }
            j = j + 1;
        }
        assert(dirty_keys.take(dirty@.len() as int) =~= dirty_keys);

        let mut materialized = self.materialized_cells.duplicate_with(&copy_materialized);
        let ghost released_keys = cell_keys(removed@);
        assert(released_keys.take(0) =~= Seq::<u128>::empty());
        let mut k: usize = 0;
        while k < removed.len()
            invariant
                k <= removed@.len(),
                released_keys == cell_keys(removed@),
                call_requires(*cancelled, ()),
                materialized.entries_spec() == removed_all(self.materialized_spec(), released_keys.take(k as int)),
            decreases removed@.len() - k,
        {
            match materialized.remove_cancellable(removed[k], cancelled) {
                Ok(_) => {},
                Err(()) => return Err(()),
            }
            proof {
                assert(released_keys.take(k + 1).drop_last() =~= released_keys.take(k as int));
            }
            k = k + 1;
        }
        assert(released_keys.take(removed@.len() as int) =~= released_keys);

        let ghost cleared = materialized.entries_spec();
        let added = materialized_results.cells();
        let ghost added_entries = materialized_results.entries_spec();
        assert(added_entries.take(0) =~= Seq::<(u128, MaterializedCalculationCell)>::empty());
        let mut m: usize = 0;
        while m < added.len()
            invariant
                lists_entries(added@, added_entries),
                m <= added@.len(),
                call_requires(*cancelled, ()),
                materialized.entries_spec() == inserted_all(cleared, added_entries.take(m as int)),
            decreases added@.len() - m,
        {
            if cancelled() {
                return Err(());
            }
            let value = added[m].1.duplicate();
            match materialized.insert_cancellable(added[m].0, value, cancelled) {
                Ok(_) => {},
                Err(()) => return Err(()),
            }
            proof {
                assert(added_entries.take(m + 1).drop_last() =~= added_entries.take(m as int));
            }
            m = m + 1;
        }
        assert(added_entries.take(added@.len() as int) =~= added_entries);

        let index = match build_materialized_owner_index(&materialized_results, cancelled) {
            Ok(index) => index,
            Err(()) => return Err(()),
        };
        let lists = index.cells();
        let ghost list_entries = index.entries_spec();
        let ghost cleared_owners = index_view(owners.entries_spec());
        index.check_sorted();
        assert(index_view(list_entries).take(0) =~= Seq::<(u128, Seq<u128>)>::empty());
        let mut n: usize = 0;
        while n < lists.len()
            invariant
                lists_entries(lists@, list_entries),
                keys_increasing(list_entries),
                n <= lists@.len(),
                call_requires(*cancelled, ()),
                index_view(owners.entries_spec()) == inserted_all(cleared_owners, index_view(list_entries).take(n as int)),
            decreases lists@.len() - n,
        {
            let owned = copy_owned(lists[n].1);
            owners.check_sorted();
            let ghost before = owners.entries_spec();
            let ghost key = cell_key_spec(lists[n as int].0@) as u128;
            proof {
                lemma_index_view_insert(before, key, owned);
                lemma_index_view_positions(list_entries, key);
                assert(index_view(list_entries)[n as int] == (list_entries[n as int].0, cell_keys(list_entries[n as int].1@)));
                assert(index_view(list_entries).take(n + 1).drop_last() =~= index_view(list_entries).take(n as int));
            }
            match owners.insert_cancellable(lists[n].0, owned, cancelled) {
                Ok(_) => {},
                Err(()) => return Err(()),
            }
            n = n + 1;
        }
        assert(index_view(list_entries).take(lists@.len() as int) =~= index_view(list_entries));
        Ok(
            CalculationSnapshot {
                cells,
                materialized_cells: materialized,
                materialized_cells_by_owner: owners,
                options,
                source_revision,
                source_fingerprint,
            },
        )
    }

    /// Returns the cells whose materialized results `owner` owns, in ascending cell order.
    pub fn materialized_cells_owned_by(&self, owner: CalculationCellId) -> (r: &[CalculationCellId])
        ensures
            cell_keys(r@) == owned(self.owners_spec(), cell_key_spec(owner@)),
    {
        self.materialized_cells_by_owner.check_sorted();
        owner.check_valid();
        let ghost entries = self.materialized_cells_by_owner.entries_spec();
        let ghost key = cell_key_spec(owner@) as u128;
        proof {
            crate::cell::lemma_cell_key_round_trip(owner);
            lemma_index_view_positions(entries, key);
        }
        match self.materialized_cells_by_owner.get(owner) {
            Some(owned) => {
                proof {
                    lemma_value_at(entries, key, *owned);
                    lemma_key_position_exists(entries, key);
                }
                owned.as_slice()
            },
            None => {
                assert(cell_keys(Seq::<CalculationCellId>::empty()) =~= Seq::<u128>::empty());
                &[]
            },
        }
    }

    /// Returns one calculated formula result.
    pub fn cell(&self, cell: CalculationCellId) -> (r: Option<&CalculationCellResult>)
        ensures
            match r {
                Some(v) => holds_entry(self.cells_spec(), cell_key_spec(cell@), *v),
                None => !has_key(self.cells_spec(), cell_key_spec(cell@)),
            },
    {
        self.cells.get(cell)
    }

    /// Returns formula results in sheet-ID and row-major address order.
    pub fn cells(&self) -> (r: Vec<(CalculationCellId, &CalculationCellResult)>)
        ensures
            lists_entries(r@, self.cells_spec()),
    {
        self.cells.cells()
    }

    /// Returns one result from the complete formula and array materialization view.
    pub fn materialized_cell(&self, cell: CalculationCellId) -> (r: Option<&MaterializedCalculationCell>)
        ensures
            match r {
                Some(v) => holds_entry(self.materialized_spec(), cell_key_spec(cell@), *v),
                None => !has_key(self.materialized_spec(), cell_key_spec(cell@)),
            },
    {
        self.materialized_cells.get(cell)
    }

    /// Returns the complete materialization view in sheet-ID and row-major address order.
    pub fn materialized_cells(&self) -> (r: Vec<(CalculationCellId, &MaterializedCalculationCell)>)
        ensures
            lists_entries(r@, self.materialized_spec()),
    {
        self.materialized_cells.cells()
    }

    /// Every snapshot keeps its materialization view in strictly ascending key order.
    pub fn check_sorted(&self)
        ensures
            crate::store::keys_increasing(self.materialized_spec()),
            crate::store::keys_increasing(self.cells_spec()),
    {
        self.materialized_cells.check_sorted();
        self.cells.check_sorted();
    }

    /// Returns the number of formula results.
    pub fn len(&self) -> (r: usize)
        ensures
            r == self.cells_spec().len(),
    {
        self.cells.len()
    }

    /// Returns whether no formula results are present.
    pub fn is_empty(&self) -> (r: bool)
        ensures
            r == (self.cells_spec().len() == 0),
    {
        self.cells.is_empty()
    }

    /// Returns the deterministic policy inputs used for this calculation.
    pub fn options(&self) -> (r: CalculationOptions)
        ensures
            r == self.options_spec(),
    {
        self.options
    }

    /// Returns the workbook semantic revision used to produce this result.
    pub fn source_revision(&self) -> (r: u64)
        ensures
            r == self.source_revision_spec(),
    {
        self.source_revision
    }

    /// Returns the semantic fingerprint of the workbook used to produce this result.
    pub fn source_fingerprint(&self) -> (r: &[u8; 32])
        ensures
            *r == self.source_fingerprint_spec(),
    {
        &self.source_fingerprint
    }
}


/// Whether `r` is an unavailable result with issue `code` and no detail.
pub open spec fn unavailable_without_detail(r: CalculationCellResult, code: CalculationIssueCode) -> bool {
    r matches CalculationCellResult::Unavailable(issue) && issue.code_spec() == code && issue.detail_spec() is None
}

/// Whether `r` is the result a formula cell gets from these engine findings, as
/// `classify_cell_result` decides it.
pub open spec fn classified(
    retained: Option<CalculationCellResult>,
    unsupported: Option<CalculationIssue>,
    on_cycle: bool,
    blocked: bool,
    value: CellValue,
    missing_volatile_input: bool,
    unavailable_dependency: bool,
    r: CalculationCellResult,
) -> bool {
    match retained {
        Some(kept) => r == kept,
        None => match unsupported {
            Some(issue) => r == CalculationCellResult::Unavailable(issue),
            None => if on_cycle {
                unavailable_without_detail(r, CalculationIssueCode::CircularReference)
            } else if blocked {
                unavailable_without_detail(r, CalculationIssueCode::BlockedByUpstream)
            } else {
                match value@ {
                    CellValueModel::Error(ErrorKind::ResourceLimit(limit)) => {
                        &&& r matches CalculationCellResult::Unavailable(i)
                        &&& i.code_spec() == CalculationIssueCode::ResourceLimitExceeded
                        &&& i.detail_spec() matches Some(t) && t@ == limit.detail_spec()
                    },
                    CellValueModel::Error(ErrorKind::Unsupported) => unavailable_without_detail(
                        r,
                        if missing_volatile_input {
                            CalculationIssueCode::VolatileInputMissing
                        } else if unavailable_dependency {
                            CalculationIssueCode::BlockedByUpstream
                        } else {
                            CalculationIssueCode::UnsupportedExpression
                        },
                    ),
                    _ => r == CalculationCellResult::Value(value),
                }
            },
        },
    }
}

/// Decides the result a formula cell gets in a calculation snapshot.
///
/// A result the engine retained from an earlier calculation is kept; otherwise a formula with an
/// unsupported capability is unavailable with its first issue; otherwise a cycle member is
/// unavailable as a circular reference and a cell behind one as blocked upstream. Otherwise the
/// evaluated `value` stands, except that an engine resource failure is unavailable as an exceeded
/// limit naming the limit, and an unsupported evaluation is unavailable for a missing volatile
/// input, else for an unavailable dependency, else as an unsupported expression.
pub fn classify_cell_result(
    retained: Option<&CalculationCellResult>,
    unsupported: Option<&CalculationIssue>,
    on_cycle: bool,
    blocked: bool,
    value: &CellValue,
    missing_volatile_input: bool,
    unavailable_dependency: bool,
) -> (r: CalculationCellResult)
    ensures
        classified(
            match retained { Some(k) => Some(*k), None => None },
            match unsupported { Some(i) => Some(*i), None => None },
            on_cycle, blocked, *value, missing_volatile_input, unavailable_dependency, r,
        ),
        match retained {
            Some(kept) => r.same_result(*kept),
            None => match unsupported {
                Some(issue) => r matches CalculationCellResult::Unavailable(i) && i.same_issue(*issue),
                None => if on_cycle {
                    unavailable_without_detail(r, CalculationIssueCode::CircularReference)
                } else if blocked {
                    unavailable_without_detail(r, CalculationIssueCode::BlockedByUpstream)
                } else {
                    match value@ {
                        CellValueModel::Error(ErrorKind::ResourceLimit(limit)) => {
                            &&& r matches CalculationCellResult::Unavailable(i)
                            &&& i.code_spec() == CalculationIssueCode::ResourceLimitExceeded
                            &&& i.detail_spec() matches Some(t) && t@ == limit.detail_spec()
                        },
                        CellValueModel::Error(ErrorKind::Unsupported) => unavailable_without_detail(
                            r,
                            if missing_volatile_input {
                                CalculationIssueCode::VolatileInputMissing
                            } else if unavailable_dependency {
                                CalculationIssueCode::BlockedByUpstream
                            } else {
                                CalculationIssueCode::UnsupportedExpression
                            },
                        ),
                        _ => r matches CalculationCellResult::Value(v) && v@ == value@,
                    }
                },
            },
        },
{
    if let Some(kept) = retained {
        return kept.duplicate();
    }
    if let Some(issue) = unsupported {
        return CalculationCellResult::Unavailable(issue.duplicate());
    }
    if on_cycle {
        return CalculationCellResult::Unavailable(CalculationIssue::new(CalculationIssueCode::CircularReference, None));
    }
    if blocked {
        return CalculationCellResult::Unavailable(CalculationIssue::new(CalculationIssueCode::BlockedByUpstream, None));
    }
    match value {
        CellValue::Error(ErrorKind::ResourceLimit(limit)) => {
            let detail = String::from_str(limit.detail());
            CalculationCellResult::Unavailable(
                CalculationIssue::new(CalculationIssueCode::ResourceLimitExceeded, Some(detail)),
            )
        },
        CellValue::Error(ErrorKind::Unsupported) => {
            let code = if missing_volatile_input {
                CalculationIssueCode::VolatileInputMissing
            } else if unavailable_dependency {
                CalculationIssueCode::BlockedByUpstream
            } else {
                CalculationIssueCode::UnsupportedExpression
            };
            CalculationCellResult::Unavailable(CalculationIssue::new(code, None))
        },
        _ => CalculationCellResult::Value(value.duplicate()),
    }
}

/// What the engine found for one formula cell of the workbook.
#[derive(Debug)]
pub struct EngineCellOutcome {
    pub cell: CalculationCellId,
    /// A result the engine retained from an earlier calculation.
    pub retained: Option<CalculationCellResult>,
    /// The first issue of the formula's capability, when it is unsupported.
    pub unsupported: Option<CalculationIssue>,
    pub on_cycle: bool,
    pub blocked: bool,
    /// The evaluated value.
    pub value: CellValue,
    /// The formula reads `TODAY()` or `NOW()` without the option that supplies it.
    pub missing_volatile_input: bool,
    /// The formula depends on a cell whose formula is unsupported.
    pub unavailable_dependency: bool,
}

/// An array result region: the formula cell that owns it, the origin its cells record, and each
/// member cell with the value the engine calculated for it.
#[derive(Debug)]
pub struct SpillBlock {
    pub anchor: CalculationCellId,
    pub origin: MaterializedResultOrigin,
    pub members: Vec<(CalculationCellId, CellValue)>,
}

/// Whether `r` classifies the outcome `o`.
pub open spec fn classifies(o: EngineCellOutcome, r: CalculationCellResult) -> bool {
    classified(o.retained, o.unsupported, o.on_cycle, o.blocked, o.value, o.missing_volatile_input, o.unavailable_dependency, r)
}

/// Whether `results` classify the outcomes one by one.
pub open spec fn classifies_all(outcomes: Seq<EngineCellOutcome>, results: Seq<CalculationCellResult>) -> bool {
    &&& results.len() == outcomes.len()
    &&& forall|i: int| 0 <= i < outcomes.len() ==> #[trigger] classifies(outcomes[i], results[i])
}

/// Each outcome's cell key with its result.
pub open spec fn result_entries(outcomes: Seq<EngineCellOutcome>, results: Seq<CalculationCellResult>) -> Seq<(u128, CalculationCellResult)> {
    Seq::new(outcomes.len(), |i: int| (cell_key_spec(outcomes[i].cell@) as u128, results[i]))
}

/// The result a member of an array region records: the anchor's own result at the anchor, and
/// wherever the anchor's result is unavailable; the member's calculated value otherwise.
pub open spec fn spill_result(anchor: CalculationCellId, member: CalculationCellId, value: CellValue, anchor_result: CalculationCellResult) -> CalculationCellResult {
    if member == anchor || anchor_result is Unavailable {
        anchor_result
    } else {
        CalculationCellResult::Value(value)
    }
}

/// The materialized entries of the members of `b`, given its anchor's result.
pub open spec fn block_items(b: SpillBlock, anchor_result: CalculationCellResult) -> Seq<(u128, MaterializedCalculationCell)> {
    b.members@.map_values(|m: (CalculationCellId, CellValue)| (
        cell_key_spec(m.0@) as u128,
        MaterializedCalculationCell::materialized_cell(b.origin, spill_result(b.anchor, m.0, m.1, anchor_result)),
    ))
}

/// The materialized entries of every region whose anchor has a formula result in `cells`,
/// region after region.
pub open spec fn spill_items(blocks: Seq<SpillBlock>, cells: Seq<(u128, CalculationCellResult)>) -> Seq<(u128, MaterializedCalculationCell)>
    decreases blocks.len(),
{
    if blocks.len() == 0 {
        Seq::empty()
    } else {
        spill_items(blocks.drop_last(), cells) + match value_at(cells, cell_key_spec(blocks.last().anchor@)) {
            Some(ar) => block_items(blocks.last(), ar),
            None => Seq::empty(),
        }
    }
}

/// The direct materialized entry of every formula result.
pub open spec fn direct_items(cells: Seq<(u128, CalculationCellResult)>) -> Seq<(u128, MaterializedCalculationCell)> {
    cells.map_values(|e: (u128, CalculationCellResult)| (e.0, MaterializedCalculationCell::materialized_cell(MaterializedResultOrigin::DirectFormula, e.1)))
}

proof fn lemma_inserted_all_append<V>(entries: Seq<(u128, V)>, a: Seq<(u128, V)>, b: Seq<(u128, V)>)
    ensures
        inserted_all(entries, a + b) == inserted_all(inserted_all(entries, a), b),
    decreases b.len(),
{
    if b.len() == 0 {
        assert(a + b =~= a);
    } else {
        assert((a + b).drop_last() =~= a + b.drop_last());
        assert((a + b).last() == b.last());
        lemma_inserted_all_append(entries, a, b.drop_last());
    }
}

/// Builds the calculation snapshot of a workbook from the engine's findings: each formula cell's
/// result as `classify_cell_result` decides it, a direct materialized entry for every result,
/// then the members of each array region whose anchor is a formula cell, later entries replacing
/// earlier ones, and the index of materialized cells by owner. `cancelled` is polled once per
/// cell and per region member.
pub fn snapshot_from_engine_cancellable<F: Fn() -> bool>(
    outcomes: &Vec<EngineCellOutcome>,
    spills: &Vec<SpillBlock>,
    options: CalculationOptions,
    source_revision: u64,
    source_fingerprint: [u8; 32],
    cancelled: &F,
) -> (r: Result<CalculationSnapshot, ()>)
    requires
        call_requires(*cancelled, ()),
    ensures
        match r {
            Ok(s) => {
                &&& exists|results: Seq<CalculationCellResult>| #[trigger] classifies_all(outcomes@, results)
                    && s.cells_spec() == inserted_all(Seq::<(u128, CalculationCellResult)>::empty(), result_entries(outcomes@, results))
                &&& s.materialized_spec() == inserted_all(
                    inserted_all(Seq::<(u128, MaterializedCalculationCell)>::empty(), direct_items(s.cells_spec())),
                    spill_items(spills@, s.cells_spec()))
                &&& s.owners_spec() == owner_index_spec(s.materialized_spec())
                &&& s.options_spec() == options
                &&& s.source_revision_spec() == source_revision
                &&& s.source_fingerprint_spec() == source_fingerprint
            },
            Err(()) => call_ensures(*cancelled, (), true),
        },
{
    let mut cells: CalculationStore<CalculationCellResult> = CalculationStore::new();
    let ghost mut results: Seq<CalculationCellResult> = Seq::empty();
    let n = outcomes.len();
    let mut i: usize = 0;
    while i < n
        invariant
            n == outcomes@.len(),
            i <= n,
            call_requires(*cancelled, ()),
            results.len() == i,
            forall|k: int| 0 <= k < i ==> #[trigger] classifies(outcomes@[k], results[k]),
            cells.entries_spec() == inserted_all(Seq::<(u128, CalculationCellResult)>::empty(),
                Seq::new(i as nat, |k: int| (cell_key_spec(outcomes@[k].cell@) as u128, results[k]))),
        decreases n - i,
    {
        if cancelled() {
            return Err(());
        }
        let o = &outcomes[i];
        let result = classify_cell_result(
            o.retained.as_ref(), o.unsupported.as_ref(), o.on_cycle, o.blocked, &o.value,
            o.missing_volatile_input, o.unavailable_dependency,
        );
        let ghost before = results;
        proof {
            results = results.push(result);
            let prev = Seq::new(i as nat, |k: int| (cell_key_spec(outcomes@[k].cell@) as u128, before[k]));
            let next = Seq::new(i as nat + 1, |k: int| (cell_key_spec(outcomes@[k].cell@) as u128, results[k]));
            assert(next.drop_last() =~= prev);
        }
        cells.insert(o.cell, result);
        i = i + 1;
    }
    let ghost cell_entries = cells.entries_spec();
    cells.check_sorted();
    let listed = cells.cells();
    let mut materialized: CalculationStore<MaterializedCalculationCell> = CalculationStore::new();
    let ghost direct = direct_items(cell_entries);
    let mut j: usize = 0;
    while j < listed.len()
        invariant
            j <= listed@.len(),
            call_requires(*cancelled, ()),
            cells.entries_spec() == cell_entries,
            lists_entries(listed@, cell_entries),
            direct == direct_items(cell_entries),
            materialized.entries_spec() == inserted_all(Seq::<(u128, MaterializedCalculationCell)>::empty(), direct.take(j as int)),
        decreases listed.len() - j,
    {
        let (cell, result) = listed[j];
        let copy = result.duplicate();
        let entry = MaterializedCalculationCell::new(MaterializedResultOrigin::DirectFormula, copy);
        proof {
            assert(direct.take(j as int + 1).drop_last() =~= direct.take(j as int));
            assert(direct.take(j as int + 1).last() == direct[j as int]);
        }
        materialized.insert(cell, entry);
        j = j + 1;
    }
    assert(direct.take(j as int) =~= direct);
    let ghost direct_done = materialized.entries_spec();
    let mut b: usize = 0;
    while b < spills.len()
        invariant
            b <= spills@.len(),
            call_requires(*cancelled, ()),
            cells.entries_spec() == cell_entries,
            keys_increasing(cell_entries),
            direct_done == inserted_all(Seq::<(u128, MaterializedCalculationCell)>::empty(), direct),
            materialized.entries_spec() == inserted_all(direct_done, spill_items(spills@.take(b as int), cell_entries)),
        decreases spills.len() - b,
    {
        let block = &spills[b];
        proof {
            assert(spills@.take(b as int + 1).drop_last() =~= spills@.take(b as int));
            assert(spills@.take(b as int + 1).last() == spills@[b as int]);
        }
        match cells.get(block.anchor) {
            None => {
                proof {
                    assert(spill_items(spills@.take(b as int + 1), cell_entries) =~= spill_items(spills@.take(b as int), cell_entries));
                }
            },
            Some(anchor_result) => {
                let ghost items = block_items(*block, *anchor_result);
                proof {
                    lemma_value_at(cell_entries, cell_key_spec(block.anchor@) as u128, *anchor_result);
                    assert(spill_items(spills@.take(b as int + 1), cell_entries)
                        == spill_items(spills@.take(b as int), cell_entries) + items);
                }
                let ghost start = materialized.entries_spec();
                let mut m: usize = 0;
                while m < block.members.len()
                    invariant
                        m <= block.members@.len(),
                        call_requires(*cancelled, ()),
                        items == block_items(*block, *anchor_result),
                        materialized.entries_spec() == inserted_all(start, items.take(m as int)),
                    decreases block.members.len() - m,
                {
                    if cancelled() {
                        return Err(());
                    }
                    let (member, value) = &block.members[m];
                    let member_result = if *member == block.anchor {
                        anchor_result.duplicate()
                    } else {
                        match anchor_result {
                            CalculationCellResult::Unavailable(issue) => CalculationCellResult::Unavailable(issue.duplicate()),
                            CalculationCellResult::Value(_) => CalculationCellResult::Value(value.duplicate()),
                        }
                    };
                    let entry = MaterializedCalculationCell::new(block.origin, member_result);
                    proof {
                        assert(items.take(m as int + 1).drop_last() =~= items.take(m as int));
                        assert(items.take(m as int + 1).last() == items[m as int]);
                    }
                    materialized.insert(*member, entry);
                    m = m + 1;
                }
                proof {
                    assert(items.take(m as int) =~= items);
                    lemma_inserted_all_append(direct_done, spill_items(spills@.take(b as int), cell_entries), items);
                }
            },
        }
        b = b + 1;
    }
    assert(spills@.take(b as int) =~= spills@);
    assert(Seq::new(n as nat, |k: int| (cell_key_spec(outcomes@[k].cell@) as u128, results[k])) =~= result_entries(outcomes@, results));
    assert(classifies_all(outcomes@, results));
    let owners = match build_materialized_owner_index(&materialized, cancelled) {
        Ok(index) => index,
        Err(()) => return Err(()),
    };
    Ok(CalculationSnapshot {
        cells,
        materialized_cells: materialized,
        materialized_cells_by_owner: owners,
        options,
        source_revision,
        source_fingerprint,
    })
}

} // verus!
