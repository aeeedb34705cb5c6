use cellrune::calculation::{
    CalculationCellResult, CalculationOptions, CellValue, MaterializedCalculationCell, MaterializedResultOrigin,
};
use cellrune::cell::{CalculationCellId, CellAddress, SheetId};
use cellrune::delta::{build_delta, build_empty_delta, CalculationDelta, DeltaMetadata};
use cellrune::history::DeltaHistory;
use cellrune::session::{CalculationDecisionReason, CalculationExecutionMode, SessionErrorCode, SessionLimits};
use cellrune::snapshot::CalculationSnapshot;

fn cell(row: u32, column: u32) -> CalculationCellId {
    CalculationCellId::new(SheetId::new(1).expect("sheet"), CellAddress::from_indices(row, column).expect("address"))
}

fn text(value: &str) -> MaterializedCalculationCell {
    MaterializedCalculationCell::new(
        MaterializedResultOrigin::DirectFormula,
        CalculationCellResult::Value(CellValue::Text(value.to_owned())),
    )
}

fn snapshot(cells: Vec<(CalculationCellId, MaterializedCalculationCell)>) -> CalculationSnapshot {
    CalculationSnapshot::new(Vec::new(), cells, CalculationOptions::default(), 1, [0; 32]).expect("ascending cells")
}

fn metadata(revision: u64) -> DeltaMetadata {
    DeltaMetadata {
        base_revision: revision,
        result_revision: revision,
        mode: CalculationExecutionMode::Full,
        reason: CalculationDecisionReason::FullRequested,
        dirty_count: 0,
        evaluated_count: 0,
        parsed_formula_count: 0,
    }
}

fn limits(retained: usize, page: usize) -> SessionLimits {
    SessionLimits::new(10, 10, 10, retained, page).expect("non-zero limits")
}

#[test]
fn deltas_list_changed_cells_then_removed_cells() {
    let previous = snapshot(vec![(cell(1, 1), text("a")), (cell(1, 2), text("b")), (cell(2, 1), text("gone"))]);
    let current = snapshot(vec![(cell(1, 1), text("a")), (cell(1, 2), text("B")), (cell(3, 3), text("new"))]);
    let delta = build_delta(Some(&previous), &current, metadata(2), 10, &|| false).expect("within limit");
    let changed = delta.changed_cells().iter().map(|change| change.cell()).collect::<Vec<_>>();
    assert_eq!(changed, vec![cell(1, 2), cell(3, 3)]);
    assert_eq!(delta.removed_materialized_cells(), [cell(2, 1)]);
    assert_eq!(delta.cursor(), 0);

    let first = build_delta(None, &current, metadata(2), 10, &|| false).expect("within limit");
    assert_eq!(first.changed_cells().len(), 3);
    assert!(first.removed_materialized_cells().is_empty());
}

#[test]
fn oversized_deltas_are_refused_with_their_size() {
    let current = snapshot(vec![(cell(1, 1), text("a")), (cell(1, 2), text("b"))]);
    let error = build_delta(None, &current, metadata(1), 1, &|| false).expect_err("over limit");
    assert_eq!(error.code(), SessionErrorCode::DeltaLimitExceeded);
    assert_eq!(error.detail(), Some("cells=2, limit=1"));
    let cancelled = build_delta(None, &current, metadata(1), 10, &|| true).expect_err("cancelled");
    assert_eq!(cancelled.code(), SessionErrorCode::Cancelled);
}

#[test]
fn installed_deltas_are_read_back_in_cursor_order() {
    let mut history = DeltaHistory::new(limits(2, 5));
    let first = history.install(&build_empty_delta(metadata(1)), 1, 1, 1, &|| false).expect("installed");
    assert_eq!(first.cursor(), 1);
    let second = history.install(&build_empty_delta(metadata(2)), 2, 2, 2, &|| false).expect("installed");
    assert_eq!(second.cursor(), 2);

    let page = history.changes_since(0, 0).expect("page");
    assert_eq!(page.deltas().iter().map(CalculationDelta::cursor).collect::<Vec<_>>(), vec![1, 2]);
    assert_eq!(page.next_cursor(), None);
    let page = history.changes_since(1, 1).expect("page");
    assert_eq!(page.deltas().iter().map(CalculationDelta::cursor).collect::<Vec<_>>(), vec![2]);

    let page = history.changes_since(0, 1).expect("page");
    assert_eq!(page.next_cursor(), Some(1));
    let rest = history.changes_since(1, 1).expect("page");
    assert_eq!(rest.deltas()[0].cursor(), 2);
}

#[test]
fn history_keeps_only_the_newest_deltas() {
    let mut history = DeltaHistory::new(limits(2, 5));
    for revision in 1..=3 {
        history.install(&build_empty_delta(metadata(revision)), revision, revision, revision, &|| false).expect("installed");
    }
    assert_eq!(history.deltas().iter().map(CalculationDelta::cursor).collect::<Vec<_>>(), vec![2, 3]);
    let expired = history.changes_since(0, 0).expect("zero starts at the oldest");
    assert_eq!(expired.deltas().len(), 2);
    let refused = history.changes_since(0, 6).expect_err("page too large");
    assert_eq!(refused.code(), SessionErrorCode::PageLimitExceeded);
    assert_eq!(refused.detail(), Some("requested=6, limit=5"));
}

#[test]
fn expired_cursors_are_refused() {
    let mut history = DeltaHistory::new(limits(1, 5));
    for revision in 1..=4 {
        history.install(&build_empty_delta(metadata(revision)), revision, revision, revision, &|| false).expect("installed");
    }
    let error = history.changes_since(1, 0).expect_err("expired");
    assert_eq!(error.code(), SessionErrorCode::CursorExpired);
    assert_eq!(error.detail(), Some("cursor=1, oldest=4"));
    assert!(history.changes_since(3, 0).is_ok());
}

#[test]
fn stale_installs_leave_the_history_unchanged() {
    let mut history = DeltaHistory::new(limits(2, 5));
    let error = history.install(&build_empty_delta(metadata(1)), 1, 2, 1, &|| false).expect_err("stale revision");
    assert_eq!(error.code(), SessionErrorCode::StaleResult);
    assert_eq!(error.detail(), Some("calculated=1, current=2"));
    let error = history.install(&build_empty_delta(metadata(1)), 1, 1, 7, &|| false).expect_err("stale cursor");
    assert_eq!(error.detail(), Some("calculation_cursor=7, current=1"));
    let error = history.install(&build_empty_delta(metadata(1)), 1, 1, 1, &|| true).expect_err("cancelled");
    assert_eq!(error.code(), SessionErrorCode::Cancelled);
    assert_eq!(history.next_cursor(), 1);
    assert!(history.deltas().is_empty());
}
