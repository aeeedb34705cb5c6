use cellrune::calculation::{
    CalculationCellResult, CalculationIssue, CalculationIssueCode, CalculationOptions, CellValue,
    MaterializedCalculationCell, MaterializedResultOrigin,
};
use cellrune::cell::{CalculationCellId, CellAddress, SheetId};
use cellrune::delta::{build_delta, DeltaMetadata};
use cellrune::report::{
    InstallDeltaBasisReason, TransactionDetailItem, TransactionImpactCause, TransactionIssueChangeKind,
};
use cellrune::session::{CalculationDecisionReason, CalculationExecutionMode, CancellationToken, SessionErrorCode};
use cellrune::snapshot::CalculationSnapshot;
use cellrune::transaction_detail::{
    build_affected_details, build_evaluated_details, build_install_details, build_issue_details,
    build_preview_result_details, ensure_evaluated_resource_limits, install_basis_reasons, DetailBudget,
};

fn cell(row: u32, column: u32) -> CalculationCellId {
    CalculationCellId::new(SheetId::new(1).expect("sheet"), CellAddress::from_indices(row, column).expect("address"))
}

fn value(text: &str) -> CalculationCellResult {
    CalculationCellResult::Value(CellValue::Text(text.to_owned()))
}

fn unavailable(code: CalculationIssueCode, detail: Option<&str>) -> CalculationCellResult {
    CalculationCellResult::Unavailable(CalculationIssue::new(code, detail.map(str::to_owned)))
}

fn snapshot(cells: Vec<(CalculationCellId, CalculationCellResult)>) -> CalculationSnapshot {
    let materialized = cells
        .iter()
        .map(|(c, r)| (*c, MaterializedCalculationCell::new(MaterializedResultOrigin::DirectFormula, r.clone())))
        .collect();
    CalculationSnapshot::new(cells, materialized, CalculationOptions::default(), 1, [3; 32]).expect("ascending")
}

fn metadata() -> DeltaMetadata {
    DeltaMetadata {
        base_revision: 1,
        result_revision: 1,
        mode: CalculationExecutionMode::Full,
        reason: CalculationDecisionReason::FullRequested,
        dirty_count: 0,
        evaluated_count: 0,
        parsed_formula_count: 0,
    }
}

#[test]
fn budgets_refuse_items_beyond_their_limit() {
    let mut budget = DetailBudget::new(3);
    assert!(budget.reserve(2).is_ok());
    let error = budget.reserve(2).expect_err("four exceed three");
    assert_eq!(error.code(), SessionErrorCode::TransactionDetailLimitExceeded);
    assert_eq!(error.detail(), Some("items=4, limit=3"));
    assert!(budget.reserve(1).is_ok());
    assert!(budget.reserve(usize::MAX).is_err());
}

#[test]
fn evaluated_details_keep_their_order() {
    let token = CancellationToken::new();
    let mut budget = DetailBudget::new(5);
    let items = build_evaluated_details(&[cell(2, 1), cell(1, 1)], &token, &mut budget).expect("within budget");
    assert!(matches!(items[0], TransactionDetailItem::Evaluated(c) if c == cell(2, 1)));
    assert!(matches!(items[1], TransactionDetailItem::Evaluated(c) if c == cell(1, 1)));
    token.cancel();
    let cancelled = build_evaluated_details(&[cell(1, 1)], &token, &mut budget).expect_err("cancelled");
    assert_eq!(cancelled.code(), SessionErrorCode::Cancelled);
}

#[test]
fn affected_details_take_the_last_cause_in_cell_order() {
    let token = CancellationToken::new();
    let mut budget = DetailBudget::new(10);
    let items = build_affected_details(&[cell(3, 1), cell(1, 1)], &[cell(1, 1)], &[cell(2, 1)], &token, &mut budget)
        .expect("within budget");
    let causes: Vec<(CalculationCellId, TransactionImpactCause)> = items
        .iter()
        .map(|item| match item {
            TransactionDetailItem::Affected(f) => (f.cell(), f.cause()),
            _ => panic!("affected item expected"),
        })
        .collect();
    assert_eq!(
        causes,
        vec![
            (cell(1, 1), TransactionImpactCause::Transitive),
            (cell(2, 1), TransactionImpactCause::Conservative),
            (cell(3, 1), TransactionImpactCause::Direct),
        ]
    );
    let mut small = DetailBudget::new(3);
    let error = build_affected_details(&[cell(1, 1), cell(2, 1)], &[cell(1, 1)], &[cell(3, 1)], &token, &mut small)
        .expect_err("four listed cells exceed three");
    assert_eq!(error.detail(), Some("items=4, limit=3"));
}

#[test]
fn preview_install_and_issue_details_follow_the_delta() {
    let token = CancellationToken::new();
    let issue = unavailable(CalculationIssueCode::ResourceLimitExceeded, Some("depth"));
    let base = snapshot(vec![(cell(1, 1), value("a")), (cell(2, 1), value("b")), (cell(3, 1), value("c"))]);
    let candidate = snapshot(vec![(cell(1, 1), value("a")), (cell(2, 1), issue.clone())]);
    let delta = build_delta(Some(&base), &candidate, metadata(), 10, &|| false).expect("delta");

    let mut budget = DetailBudget::new(10);
    let preview = build_preview_result_details(&base, &candidate, &delta, &token, &mut budget).expect("preview");
    assert_eq!(preview.len(), 2);
    match &preview[0] {
        TransactionDetailItem::PreviewResult(change) => {
            assert_eq!(change.cell(), cell(2, 1));
            assert_eq!(change.previous_result(), Some(&value("b")));
            assert_eq!(change.result(), Some(&issue));
        },
        _ => panic!("preview result expected"),
    }
    match &preview[1] {
        TransactionDetailItem::PreviewResult(change) => {
            assert_eq!(change.cell(), cell(3, 1));
            assert!(change.result().is_none());
        },
        _ => panic!("preview result expected"),
    }

    let issues = build_issue_details(&preview, &token, &mut budget).expect("issues");
    assert_eq!(issues.len(), 1);
    match &issues[0] {
        TransactionDetailItem::PreviewIssue(change) => {
            assert_eq!(change.cell(), cell(2, 1));
            assert_eq!(change.kind(), TransactionIssueChangeKind::Introduced);
            assert!(change.previous().is_none());
        },
        _ => panic!("issue change expected"),
    }

    let install = build_install_details(&delta, &token, &mut budget).expect("install");
    assert_eq!(install.len(), 2);
    match &install[1] {
        TransactionDetailItem::InstallResult(change) => {
            assert_eq!(change.cell(), cell(3, 1));
            assert!(change.is_removed());
        },
        _ => panic!("install result expected"),
    }

    let mut tight = DetailBudget::new(1);
    let error = build_preview_result_details(&base, &candidate, &delta, &token, &mut tight).expect_err("two exceed one");
    assert_eq!(error.detail(), Some("items=2, limit=1"));
}

#[test]
fn resource_limit_failures_name_the_phase_and_cell() {
    let token = CancellationToken::new();
    let calculation = snapshot(vec![
        (cell(1, 1), value("ok")),
        (cell(3, 28), unavailable(CalculationIssueCode::ResourceLimitExceeded, Some("depth=9"))),
    ]);
    assert!(ensure_evaluated_resource_limits(&calculation, &[cell(1, 1)], "candidate", &token).is_ok());
    let error = ensure_evaluated_resource_limits(&calculation, &[cell(1, 1), cell(3, 28)], "candidate", &token)
        .expect_err("limit exceeded");
    assert_eq!(error.code(), SessionErrorCode::TransactionResourceLimitExceeded);
    assert_eq!(error.detail(), Some("phase=candidate, cell=1:AB3, calculation_detail=depth=9"));
}

#[test]
fn install_basis_reasons_list_every_difference_in_order() {
    let options = CalculationOptions::default();
    assert_eq!(
        install_basis_reasons(None, None, 1, [0; 32], options),
        vec![InstallDeltaBasisReason::NoInstalledCalculation]
    );
    let installed = snapshot(vec![(cell(1, 1), value("a"))]);
    assert!(install_basis_reasons(Some(&installed), Some(options), 1, [3; 32], options).is_empty());
    assert_eq!(
        install_basis_reasons(Some(&installed), None, 1, [4; 32], options),
        vec![InstallDeltaBasisReason::CalculationOptionsChanged, InstallDeltaBasisReason::InstalledCalculationIdentityMismatch]
    );
    assert_eq!(
        install_basis_reasons(Some(&installed), Some(options), 2, [4; 32], options),
        vec![InstallDeltaBasisReason::PriorPendingEdits]
    );
}
