use cellrune::cursor::TransactionPageCursor;
use cellrune::calculation::CalculationOptions;
use cellrune::delta::{build_empty_delta, DeltaMetadata};
use cellrune::details::{CompletedWorkbookTransaction, TransactionSummary, WorkbookTransactionReport};
use cellrune::report::{InstallDeltaBasisReason, TransactionImpactCoverage};
use cellrune::session::{CalculationDecisionReason, CalculationExecutionMode, RecalculationMode};
use cellrune::report::{TransactionAffectedFormula, TransactionDetailItem, TransactionDetailSection, TransactionImpactCause};
use cellrune::cell::{CalculationCellId, CellAddress, SheetId};
use cellrune::session::SessionErrorCode;

#[test]
fn tokens_round_trip_every_field() {
    let cursor = TransactionPageCursor::new(0x0102_0304_0506_0708, 1, TransactionDetailSection::PreviewIssues, 300, u64::MAX);
    let token = cursor.to_token();
    assert_eq!(token, "0001010203040506070804000000000000012cffffffffffffffff");
    assert_eq!(token.len(), 54);
    assert_eq!(TransactionPageCursor::from_token(&token).expect("valid"), cursor);
}

#[test]
fn malformed_tokens_are_refused() {
    let valid = TransactionPageCursor::new(7, 1, TransactionDetailSection::Affected, 0, 9).to_token();
    for token in [
        String::new(),
        valid[1..].to_owned(),
        valid.to_uppercase().replace("0", "G"),
        format!("{}06{}", &valid[..20], &valid[22..]),
    ] {
        let error = TransactionPageCursor::from_token(&token).expect_err("malformed");
        assert_eq!(error.code(), SessionErrorCode::TransactionCursorInvalid);
    }
}

fn affected(column: u32) -> TransactionDetailItem {
    let cell = CalculationCellId::new(SheetId::new(1).expect("sheet"), CellAddress::from_indices(1, column).expect("cell"));
    TransactionDetailItem::Affected(TransactionAffectedFormula::new(cell, TransactionImpactCause::Direct))
}

fn summary() -> TransactionSummary {
    TransactionSummary {
        base_revision: 3,
        result_revision: 4,
        base_fingerprint: [1; 32],
        result_fingerprint: [2; 32],
        input_hash: None,
        options: CalculationOptions::default(),
        base_calculation_reused: true,
        base_execution_mode: CalculationExecutionMode::Full,
        base_decision_reason: CalculationDecisionReason::InitialCalculation,
        candidate_requested_mode: RecalculationMode::Auto,
        candidate_execution_mode: CalculationExecutionMode::Incremental,
        candidate_decision_reason: CalculationDecisionReason::DirtySubset,
        impact_coverage: TransactionImpactCoverage::Exact,
        direct_affected_count: 3,
        transitive_affected_count: 0,
        conservative_affected_count: 0,
        base_evaluated_count: 0,
        candidate_evaluated_count: 3,
        parsed_formula_count: 3,
        function_iteration_count: 0,
        reference_cell_count: 0,
        preview_changed_count: 0,
        preview_removed_count: 0,
        introduced_issue_count: 0,
        resolved_issue_count: 0,
        changed_issue_count: 0,
        installed_calculation_revision: Some(3),
        installed_calculation_fingerprint: Some([1; 32]),
        installed_calculation_options: Some(CalculationOptions::default()),
    }
}

fn report(max_page_items: usize, affected_items: Vec<TransactionDetailItem>) -> WorkbookTransactionReport {
    let delta = build_empty_delta(DeltaMetadata {
        base_revision: 3,
        result_revision: 4,
        mode: CalculationExecutionMode::Incremental,
        reason: CalculationDecisionReason::DirtySubset,
        dirty_count: 3,
        evaluated_count: 3,
        parsed_formula_count: 3,
    });
    WorkbookTransactionReport::new(
        5,
        summary(),
        delta,
        Vec::new(),
        max_page_items,
        affected_items,
        Vec::new(),
        Vec::new(),
        Vec::new(),
        Vec::new(),
    )
}

#[test]
fn report_summary_and_counts_survive_released_details() {
    let mut report = report(2, vec![affected(1), affected(2), affected(3)]);
    assert_eq!(report.contract_version(), 1);
    assert_eq!(report.base_revision(), 3);
    assert_eq!(report.result_revision(), 4);
    assert_eq!(report.result_fingerprint(), [2; 32]);
    assert_eq!(report.candidate_execution_mode(), CalculationExecutionMode::Incremental);
    assert_eq!(report.direct_affected_count(), 3);
    assert!(!report.install_delta_basis_differs_from_preview_base());
    assert_eq!(report.install_delta_basis_reasons(), &[] as &[InstallDeltaBasisReason]);
    assert_eq!(report.detail_count(TransactionDetailSection::Affected), 3);
    report.release_details();
    assert_eq!(report.detail_count(TransactionDetailSection::Affected), 3);
    assert!(report.details(TransactionDetailSection::Affected).is_empty());
}

#[test]
fn pages_follow_their_cursors_through_a_section() {
    let details = report(2, vec![affected(1), affected(2), affected(3)]);
    let first = details.page(TransactionDetailSection::Affected, None, 0).expect("first page");
    assert_eq!(first.items().len(), 2);
    let next = first.next_cursor().expect("more items").clone();
    assert_eq!(next.offset(), 2);
    let token = next.to_token();
    let resumed = details.cursor_from_token(&token).expect("own cursor");
    let second = details.page(TransactionDetailSection::Affected, Some(&resumed), 0).expect("second page");
    assert_eq!(second.items().len(), 1);
    assert!(second.next_cursor().is_none());

    let wrong_section = details.page(TransactionDetailSection::Evaluated, Some(&resumed), 0).expect_err("other section");
    assert_eq!(wrong_section.code(), SessionErrorCode::TransactionCursorInvalid);
    let forged = TransactionPageCursor::new(5, 1, TransactionDetailSection::Affected, 1, resumed.authenticator());
    let error = details.page(TransactionDetailSection::Affected, Some(&forged), 0).expect_err("forged offset");
    assert_eq!(error.code(), SessionErrorCode::TransactionCursorInvalid);
    let too_large = details.page(TransactionDetailSection::Affected, None, 3).expect_err("page limit");
    assert_eq!(too_large.code(), SessionErrorCode::PageLimitExceeded);
    assert_eq!(too_large.detail(), Some("requested=3, limit=2"));
}

#[test]
fn discarded_transactions_refuse_pages_and_second_discards() {
    let mut transaction = CompletedWorkbookTransaction::new(report(2, vec![affected(1), affected(2), affected(3)]));
    let first = transaction.page_from_token(TransactionDetailSection::Affected, None, 0).expect("first page");
    let token = first.next_cursor().expect("more items").to_token();
    let second = transaction
        .page_from_token(TransactionDetailSection::Affected, Some(&token), 0)
        .expect("second page");
    assert_eq!(second.items().len(), 1);
    let forged = transaction
        .page_from_token(TransactionDetailSection::Affected, Some("not a token"), 0)
        .expect_err("forged token");
    assert_eq!(forged.code(), SessionErrorCode::TransactionCursorInvalid);

    transaction.discard().expect("first discard");
    assert_eq!(transaction.report().detail_count(TransactionDetailSection::Affected), 3);
    let refused = transaction.page(TransactionDetailSection::Affected, None, 0).expect_err("discarded");
    assert_eq!(refused.code(), SessionErrorCode::TransactionConsumed);
    let again = transaction.discard().expect_err("second discard");
    assert_eq!(again.code(), SessionErrorCode::TransactionConsumed);
}

#[test]
fn following_next_cursors_pages_through_the_whole_section_in_order() {
    let expected: Vec<String> = (1..=5).map(|column| format!("{:?}", affected(column))).collect();
    let transaction = CompletedWorkbookTransaction::new(report(2, (1..=5).map(affected).collect()));
    let mut seen = Vec::new();
    let mut page = transaction.page(TransactionDetailSection::Affected, None, 2).expect("first page");
    loop {
        assert_eq!(page.section(), TransactionDetailSection::Affected);
        seen.extend(page.items().iter().map(|item| format!("{:?}", item)));
        let Some(next) = page.next_cursor() else { break };
        assert_eq!(page.items().len(), 2);
        let by_token = transaction
            .page_from_token(TransactionDetailSection::Affected, Some(&next.to_token()), 2)
            .expect("token page");
        let next_page = transaction.page(TransactionDetailSection::Affected, Some(next), 2).expect("cursor page");
        assert_eq!(format!("{:?}", by_token.items()), format!("{:?}", next_page.items()));
        page = next_page;
    }
    assert_eq!(seen, expected);
}
