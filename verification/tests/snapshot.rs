use cellrune::calculation::{
    CalculationCellResult, CalculationIssue, CalculationIssueCode, CalculationOptions, CellValue,
    MaterializedCalculationCell, MaterializedResultOrigin,
};
use cellrune::limits::CalculationLimitKind;
use cellrune::snapshot::classify_cell_result;
use cellrune::value::ErrorKind;
use cellrune::cell::{CalculationCellId, CellAddress, CellRange, SheetId};
use cellrune::delta::{build_incremental_delta, DeltaMetadata};
use cellrune::session::{CalculationDecisionReason, CalculationExecutionMode, SessionErrorCode};
use cellrune::snapshot::{
    snapshot_from_engine_cancellable, CalculationSnapshot, EngineCellOutcome, IncrementalCalculationPatch, SpillBlock,
};
use cellrune::store::CalculationStore;

fn cell(row: u32, column: u32) -> CalculationCellId {
    CalculationCellId::new(SheetId::new(1).expect("sheet"), CellAddress::from_indices(row, column).expect("address"))
}

fn text(value: &str) -> CalculationCellResult {
    CalculationCellResult::Value(CellValue::Text(value.to_owned()))
}

fn direct(value: &str) -> MaterializedCalculationCell {
    MaterializedCalculationCell::new(MaterializedResultOrigin::DirectFormula, text(value))
}

fn spilled(anchor: CalculationCellId, end: CalculationCellId, value: &str) -> MaterializedCalculationCell {
    let range = CellRange::new(anchor.address(), end.address());
    MaterializedCalculationCell::new(MaterializedResultOrigin::DynamicSpill { anchor, range }, text(value))
}

fn metadata() -> DeltaMetadata {
    DeltaMetadata {
        base_revision: 1,
        result_revision: 2,
        mode: CalculationExecutionMode::Incremental,
        reason: CalculationDecisionReason::DirtySubset,
        dirty_count: 1,
        evaluated_count: 1,
        parsed_formula_count: 0,
    }
}

/// A1 spills into A2 and A3; B1 is a plain formula.
fn base() -> CalculationSnapshot {
    let a1 = cell(1, 1);
    let a3 = cell(3, 1);
    CalculationSnapshot::new(
        vec![(a1, text("x")), (cell(1, 2), text("b"))],
        vec![
            (a1, spilled(a1, a3, "x")),
            (cell(1, 2), direct("b")),
            (cell(2, 1), spilled(a1, a3, "y")),
            (a3, spilled(a1, a3, "z")),
        ],
        CalculationOptions::default(),
        1,
        [7; 32],
    )
    .expect("ascending cells")
}

#[test]
fn snapshots_index_materialized_cells_by_owner() {
    let snapshot = base();
    assert_eq!(snapshot.materialized_cells_owned_by(cell(1, 1)), &[cell(1, 1), cell(2, 1), cell(3, 1)]);
    assert_eq!(snapshot.materialized_cells_owned_by(cell(1, 2)), &[cell(1, 2)]);
    assert!(snapshot.materialized_cells_owned_by(cell(9, 9)).is_empty());
    assert_eq!(snapshot.len(), 2);
    assert_eq!(snapshot.source_fingerprint(), &[7; 32]);
}

#[test]
fn snapshots_refuse_unordered_cells() {
    let unordered = CalculationSnapshot::new(
        vec![(cell(2, 1), text("a")), (cell(1, 1), text("b"))],
        Vec::new(),
        CalculationOptions::default(),
        1,
        [0; 32],
    );
    assert!(unordered.is_none());
}

fn shrink_spill_patch() -> IncrementalCalculationPatch {
    let a1 = cell(1, 1);
    let a2 = cell(2, 1);
    IncrementalCalculationPatch::new(
        vec![a1],
        CalculationStore::from_sorted(vec![(a1, text("w"))]).expect("sorted"),
        CalculationStore::from_sorted(vec![(a1, spilled(a1, a2, "w")), (a2, spilled(a1, a2, "y"))]).expect("sorted"),
        CalculationOptions::default(),
        2,
        [8; 32],
    )
}

#[test]
fn incremental_patch_releases_and_reindexes_dirty_owners() {
    let previous = base();
    let next = previous.apply_incremental_patch_cancellable(shrink_spill_patch(), &|| false).expect("not cancelled");
    assert_eq!(next.source_revision(), 2);
    assert_eq!(next.source_fingerprint(), &[8; 32]);
    assert_eq!(next.materialized_cells_owned_by(cell(1, 1)), &[cell(1, 1), cell(2, 1)]);
    assert!(next.materialized_cell(cell(3, 1)).is_none());
    assert!(next.materialized_cell(cell(1, 2)).is_some());
    assert_eq!(next.cell(cell(1, 1)), Some(&text("w")));
    assert_eq!(next.materialized_cells().len(), 3);
    // The previous snapshot is untouched.
    assert_eq!(previous.materialized_cells().len(), 4);
    assert_eq!(previous.cell(cell(1, 1)), Some(&text("x")));
}

#[test]
fn incremental_patch_stops_when_cancelled() {
    let previous = base();
    assert!(previous.apply_incremental_patch_cancellable(shrink_spill_patch(), &|| true).is_err());
}

#[test]
fn rebasing_keeps_results_under_a_new_source() {
    let previous = base();
    let rebased = previous.rebase_source_cancellable(CalculationOptions::default(), 5, [9; 32], &|| false).expect("rebased");
    assert_eq!(rebased.source_revision(), 5);
    assert_eq!(rebased.materialized_cells().len(), 4);
    assert_eq!(rebased.materialized_cells_owned_by(cell(1, 1)).len(), 3);
}

#[test]
fn incremental_delta_compares_only_dirty_owned_cells() {
    let previous = base();
    let next = previous.apply_incremental_patch_cancellable(shrink_spill_patch(), &|| false).expect("not cancelled");
    let delta = build_incremental_delta(&previous, &next, &vec![cell(1, 1)], metadata(), 10, &|| false).expect("within limit");
    let changed: Vec<CalculationCellId> = delta.changed_cells().iter().map(|c| c.cell()).collect();
    assert_eq!(changed, vec![cell(1, 1), cell(2, 1)]);
    assert_eq!(delta.removed_materialized_cells(), &[cell(3, 1)]);
    assert_eq!(delta.result_revision(), 2);

    let limited = build_incremental_delta(&previous, &next, &vec![cell(1, 1)], metadata(), 2, &|| false)
        .expect_err("three cells exceed two");
    assert_eq!(limited.code(), SessionErrorCode::DeltaLimitExceeded);
    assert_eq!(limited.detail(), Some("cells=3, limit=2"));

    let untouched = build_incremental_delta(&previous, &next, &vec![cell(1, 2)], metadata(), 10, &|| false).expect("no change");
    assert!(untouched.changed_cells().is_empty());
    assert!(untouched.removed_materialized_cells().is_empty());
}

#[test]
fn incremental_delta_equals_the_full_delta_when_only_dirty_owners_changed() {
    let previous = base();
    let next = previous.apply_incremental_patch_cancellable(shrink_spill_patch(), &|| false).expect("not cancelled");
    let incremental = build_incremental_delta(&previous, &next, &vec![cell(1, 1)], metadata(), 10, &|| false).expect("incremental");
    let full = cellrune::delta::build_delta(Some(&previous), &next, metadata(), 10, &|| false).expect("full");
    let cells = |d: &cellrune::delta::CalculationDelta| d.changed_cells().iter().map(|c| c.cell()).collect::<Vec<_>>();
    assert_eq!(cells(&incremental), cells(&full));
    assert_eq!(incremental.removed_materialized_cells(), full.removed_materialized_cells());
}

#[test]
fn cell_results_are_classified_in_precedence_order() {
    let issue = |code| CalculationCellResult::Unavailable(CalculationIssue::new(code, None));
    let unsupported = CellValue::Error(ErrorKind::Unsupported);
    let kept = CalculationCellResult::Value(CellValue::Logical(true));
    assert_eq!(
        classify_cell_result(Some(&kept), None, true, true, &unsupported, true, true),
        kept
    );
    let parse = CalculationIssue::new(CalculationIssueCode::ParseError, Some("at 3".to_owned()));
    assert_eq!(
        classify_cell_result(None, Some(&parse), true, false, &unsupported, false, false),
        CalculationCellResult::Unavailable(parse.clone())
    );
    assert_eq!(
        classify_cell_result(None, None, true, true, &unsupported, false, false),
        issue(CalculationIssueCode::CircularReference)
    );
    assert_eq!(
        classify_cell_result(None, None, false, true, &unsupported, false, false),
        issue(CalculationIssueCode::BlockedByUpstream)
    );
    assert_eq!(
        classify_cell_result(None, None, false, false, &unsupported, true, true),
        issue(CalculationIssueCode::VolatileInputMissing)
    );
    assert_eq!(
        classify_cell_result(None, None, false, false, &unsupported, false, true),
        issue(CalculationIssueCode::BlockedByUpstream)
    );
    assert_eq!(
        classify_cell_result(None, None, false, false, &unsupported, false, false),
        issue(CalculationIssueCode::UnsupportedExpression)
    );
    let limited = CellValue::Error(ErrorKind::ResourceLimit(CalculationLimitKind::DependencyEdges));
    assert_eq!(
        classify_cell_result(None, None, false, false, &limited, false, false),
        CalculationCellResult::Unavailable(CalculationIssue::new(
            CalculationIssueCode::ResourceLimitExceeded,
            Some("max_dependency_edges".to_owned())
        ))
    );
    let value = CellValue::Text("x".to_owned());
    assert_eq!(
        classify_cell_result(None, None, false, false, &value, true, true),
        CalculationCellResult::Value(value.clone())
    );
}

fn outcome(cell: CalculationCellId, value: CellValue, on_cycle: bool) -> EngineCellOutcome {
    EngineCellOutcome {
        cell,
        retained: None,
        unsupported: None,
        on_cycle,
        blocked: false,
        value,
        missing_volatile_input: false,
        unavailable_dependency: false,
    }
}

#[test]
fn engine_findings_fill_the_snapshot_and_its_spill_regions() {
    let anchor = cell(1, 1);
    let range = CellRange::new(anchor.address(), cell(2, 1).address());
    let origin = MaterializedResultOrigin::DynamicSpill { anchor, range };
    let outcomes = vec![
        outcome(cell(1, 2), CellValue::Text("b".to_owned()), true),
        outcome(anchor, CellValue::Text("a".to_owned()), false),
    ];
    let spills = vec![
        SpillBlock {
            anchor,
            origin,
            members: vec![(anchor, CellValue::Empty), (cell(2, 1), CellValue::Text("a2".to_owned()))],
        },
        SpillBlock { anchor: cell(9, 9), origin, members: vec![(cell(9, 9), CellValue::Empty)] },
    ];
    let snapshot = snapshot_from_engine_cancellable(&outcomes, &spills, CalculationOptions::default(), 7, [3u8; 32], &|| false)
        .expect("not cancelled");
    assert_eq!(snapshot.cell(anchor), Some(&text("a")));
    match snapshot.cell(cell(1, 2)) {
        Some(CalculationCellResult::Unavailable(issue)) => assert_eq!(issue.code(), CalculationIssueCode::CircularReference),
        other => panic!("unexpected {other:?}"),
    }
    assert_eq!(snapshot.materialized_cell(anchor), Some(&MaterializedCalculationCell::new(origin, text("a"))));
    assert_eq!(snapshot.materialized_cell(cell(2, 1)), Some(&MaterializedCalculationCell::new(origin, text("a2"))));
    assert_eq!(snapshot.materialized_cell(cell(1, 2)).map(|m| m.origin()), Some(MaterializedResultOrigin::DirectFormula));
    assert_eq!(snapshot.materialized_cell(cell(9, 9)), None);
    assert_eq!(snapshot.source_revision(), 7);
    assert_eq!(snapshot.materialized_cells_owned_by(anchor).len(), 2);
    assert!(snapshot_from_engine_cancellable(&outcomes, &spills, CalculationOptions::default(), 7, [3u8; 32], &|| true).is_err());
}
