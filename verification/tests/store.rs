use std::collections::BTreeMap;

use cellrune::cell::{CalculationCellId, CellAddress, SheetId};
use cellrune::lexer::{EXCEL_MAX_COLUMNS, EXCEL_MAX_ROWS};
use cellrune::store::CalculationStore;

#[test]
fn packed_key_preserves_sheet_and_row_major_boundaries_without_collision() {
    let low_sheet = SheetId::new(1).expect("low sheet");
    let high_sheet = SheetId::new(u32::MAX).expect("high sheet");
    let cells = [
        CalculationCellId::new(
            low_sheet,
            CellAddress::from_indices(1, EXCEL_MAX_COLUMNS).expect("wide first row"),
        ),
        CalculationCellId::new(low_sheet, CellAddress::from_indices(2, 1).expect("second row")),
        CalculationCellId::new(
            high_sheet,
            CellAddress::from_indices(EXCEL_MAX_ROWS, EXCEL_MAX_COLUMNS).expect("last cell"),
        ),
    ];
    let map: BTreeMap<CalculationCellId, usize> =
        cells.into_iter().enumerate().map(|(index, cell)| (cell, index)).collect();
    let store = CalculationStore::from_sorted(map.into_iter().collect()).expect("sorted map entries");
    assert_eq!(store.cells().into_iter().map(|(cell, _)| cell).collect::<Vec<_>>(), cells);
    for (index, cell) in cells.into_iter().enumerate() {
        assert_eq!(store.get(cell), Some(&index));
    }
}

#[test]
fn out_of_order_entries_are_refused() {
    let sheet = SheetId::new(1).expect("sheet");
    let a = CalculationCellId::new(sheet, CellAddress::from_indices(1, 1).expect("a"));
    let b = CalculationCellId::new(sheet, CellAddress::from_indices(1, 2).expect("b"));
    assert!(CalculationStore::from_sorted(vec![(b, 0), (a, 1)]).is_none());
    assert!(CalculationStore::from_sorted(vec![(a, 0), (a, 1)]).is_none());
    let store = CalculationStore::from_sorted(vec![(a, 0), (b, 1)]).expect("ascending");
    assert_eq!(store.len(), 2);
    assert_eq!(store.get(b), Some(&1));
    let missing = CalculationCellId::new(sheet, CellAddress::from_indices(3, 3).expect("c"));
    assert_eq!(store.get(missing), None);
}

fn at(row: u32, column: u32) -> CalculationCellId {
    CalculationCellId::new(SheetId::new(1).expect("sheet"), CellAddress::from_indices(row, column).expect("address"))
}

#[test]
fn inserts_and_removals_keep_cell_order_whatever_the_history() {
    let cells = [at(2, 1), at(1, 3), at(9, 9), at(1, 1)];
    let mut forward = CalculationStore::new();
    for (index, cell) in cells.iter().enumerate() {
        assert_eq!(forward.insert(*cell, index), None);
    }
    let mut backward = CalculationStore::new();
    for (index, cell) in cells.iter().enumerate().rev() {
        backward.insert(*cell, index);
    }
    let listed = |store: &CalculationStore<usize>| store.cells().into_iter().map(|(c, v)| (c, *v)).collect::<Vec<_>>();
    assert_eq!(listed(&forward), listed(&backward));
    assert_eq!(listed(&forward).into_iter().map(|(c, _)| c).collect::<Vec<_>>(), vec![at(1, 1), at(1, 3), at(2, 1), at(9, 9)]);
    assert_eq!(forward.insert(at(1, 3), 7), Some(1));
    assert_eq!(forward.get(at(1, 3)), Some(&7));
    assert_eq!(forward.remove(at(2, 1)), Some(0));
    assert_eq!(forward.remove(at(2, 1)), None);
    assert_eq!(forward.len(), 3);
    assert!(forward.insert_cancellable(at(5, 5), 1, &|| true).is_err());
    assert_eq!(forward.get(at(5, 5)), None);
}

#[test]
fn store_edits_report_leaf_and_reindex_work_only_for_existing_entries() {
    let mut store = CalculationStore::new();
    let (previous, work) = store.insert_reporting_work(at(2, 3), 10, &|| false).expect("insert");
    assert_eq!(previous, None);
    assert_eq!((work.leaves_rebuilt, work.entries_reindexed, work.nodes_copied), (0, 0, 0));
    let (previous, work) = store.insert_reporting_work(at(2, 3), 11, &|| false).expect("replace");
    assert_eq!(previous, Some(10));
    assert_eq!((work.leaves_rebuilt, work.entries_reindexed, work.nodes_copied), (1, 1, 0));
    let (removed, work) = store.remove_reporting_work(at(9, 9), &|| false).expect("absent");
    assert_eq!(removed, None);
    assert_eq!((work.leaves_rebuilt, work.entries_reindexed), (0, 0));
    let (removed, work) = store.remove_reporting_work(at(2, 3), &|| false).expect("present");
    assert_eq!(removed, Some(11));
    assert_eq!((work.leaves_rebuilt, work.entries_reindexed), (1, 1));
    assert!(store.insert_reporting_work(at(1, 1), 1, &|| true).is_err());
    assert!(store.is_empty());
}
