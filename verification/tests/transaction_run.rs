use cellrune::calculation::{CalculationIssue, CalculationIssueCode};
use cellrune::cell::{CalculationCellId, CellAddress, SheetId};
use cellrune::report::{TransactionDetailItem, TransactionIssueChange, TransactionIssueChangeKind};
use cellrune::session::SessionErrorCode;
use cellrune::calculation::CalculationOptions;
use cellrune::snapshot::CalculationSnapshot;
use cellrune::transaction_run::{
    base_calculation_reused, conservative_impact, install_base_revision, CalculationWork, TransactionTotals, check_planned_evaluations, check_transaction_delta_cells,
    check_transaction_totals, issue_change_counts,
};

fn work(evaluated: usize, parsed: usize, function_iterations: u64, reference_cells: u64) -> CalculationWork {
    CalculationWork { evaluated, parsed, function_iterations, reference_cells }
}

#[test]
fn planned_transaction_evaluations_respect_the_limit() {
    assert!(check_planned_evaluations(3, 7, 10).is_ok());
    let error = check_planned_evaluations(3, 8, 10).expect_err("over the limit");
    assert_eq!(error.code(), SessionErrorCode::EvaluationLimitExceeded);
    assert_eq!(error.detail(), Some("transaction_planned=11, limit=10"));
    assert!(check_planned_evaluations(usize::MAX, 1, usize::MAX).is_ok());
}

#[test]
fn transaction_totals_are_checked_in_order() {
    let totals = check_transaction_totals(work(2, 1, 5, 7), work(3, 4, 6, 8), 5, 11, 15).expect("within limits");
    assert_eq!(totals, TransactionTotals { evaluated: 5, parsed: 5, function_iterations: 11, reference_cells: 15 });
    let evaluated = check_transaction_totals(work(2, 9, 99, 99), work(4, 0, 0, 0), 5, 1, 1).expect_err("evaluated");
    assert_eq!(evaluated.detail(), Some("transaction_evaluated=6, limit=5"));
    let parsed = check_transaction_totals(work(1, 3, 99, 99), work(1, 3, 0, 0), 5, 1, 1).expect_err("parsed");
    assert_eq!(parsed.detail(), Some("transaction_parsed=6, limit=5"));
    let iterations = check_transaction_totals(work(1, 1, 6, 99), work(1, 1, 6, 0), 5, 11, 1).expect_err("iterations");
    assert_eq!(iterations.code(), SessionErrorCode::TransactionResourceLimitExceeded);
    assert_eq!(iterations.detail(), Some("function_iterations=12, limit=11"));
    let references = check_transaction_totals(work(1, 1, 1, 8), work(1, 1, 1, 8), 5, 11, 15).expect_err("references");
    assert_eq!(references.detail(), Some("reference_cells=16, limit=15"));
}

#[test]
fn transaction_delta_cells_add_both_deltas() {
    assert_eq!(check_transaction_delta_cells(1, 2, 3, 4, 10), Ok(10));
    let error = check_transaction_delta_cells(1, 2, 3, 5, 10).expect_err("too many cells");
    assert_eq!(error.code(), SessionErrorCode::DeltaLimitExceeded);
    assert_eq!(error.detail(), Some("transaction_cells=11, limit=10"));
}

#[test]
fn issue_counts_split_introduced_resolved_and_changed() {
    assert_eq!(issue_change_counts(&[]), (0, 0, 0));
    let cell = CalculationCellId::new(SheetId::new(1).expect("sheet"), CellAddress::from_indices(1, 1).expect("cell"));
    let issue = || Some(CalculationIssue::new(CalculationIssueCode::CircularReference, None));
    let items = vec![
        TransactionDetailItem::PreviewIssue(TransactionIssueChange::new(cell, TransactionIssueChangeKind::Introduced, None, issue())),
        TransactionDetailItem::PreviewIssue(TransactionIssueChange::new(cell, TransactionIssueChangeKind::Changed, issue(), issue())),
        TransactionDetailItem::PreviewIssue(TransactionIssueChange::new(cell, TransactionIssueChangeKind::Introduced, None, issue())),
        TransactionDetailItem::PreviewIssue(TransactionIssueChange::new(cell, TransactionIssueChangeKind::Resolved, issue(), None)),
    ];
    assert_eq!(issue_change_counts(&items), (2, 1, 1));
}

#[test]
fn a_current_captured_calculation_is_reused_as_the_base() {
    let options = CalculationOptions::default();
    let captured = CalculationSnapshot::new(Vec::new(), Vec::new(), options, 4, [9u8; 32]).expect("empty snapshot");
    assert!(base_calculation_reused(Some(&captured), true, true, Some(options), 4, &[9u8; 32], options));
    assert!(!base_calculation_reused(Some(&captured), true, true, Some(options), 5, &[9u8; 32], options));
    assert!(!base_calculation_reused(Some(&captured), true, true, Some(options), 4, &[8u8; 32], options));
    assert!(!base_calculation_reused(Some(&captured), false, true, Some(options), 4, &[9u8; 32], options));
    assert!(!base_calculation_reused(Some(&captured), true, false, Some(options), 4, &[9u8; 32], options));
    assert!(!base_calculation_reused(Some(&captured), true, true, None, 4, &[9u8; 32], options));
    assert!(!base_calculation_reused(None, true, true, Some(options), 4, &[9u8; 32], options));
    assert_eq!(install_base_revision(Some(&captured), 6), 4);
    assert_eq!(install_base_revision(None, 6), 6);
}

#[test]
fn impact_is_conservative_after_topology_changes_or_unsafe_dependencies() {
    assert!(conservative_impact(true, true, 0));
    assert!(conservative_impact(false, false, 1));
    assert!(!conservative_impact(false, false, 0));
    assert!(!conservative_impact(false, true, 3));
}
