use std::cell::Cell;

use cellrune::calculation::CalculationOptions;
use cellrune::calculation_session::{CompiledFacts, EditOutcome, Evaluation, WorkbookCalculationSession};
use cellrune::cell::{CalculationCellId, CellAddress, SheetId};
use cellrune::limits::CalculationLimits;
use cellrune::session::{
    CalculationDecisionReason, CalculationExecutionMode, RecalculationMode, SessionErrorCode, SessionLimits,
};
use cellrune::snapshot::CalculationSnapshot;

fn cell(row: u32, column: u32) -> CalculationCellId {
    CalculationCellId::new(SheetId::new(1).expect("sheet"), CellAddress::from_indices(row, column).expect("address"))
}

fn limits() -> SessionLimits {
    SessionLimits::new(4, 10, 10, 3, 5).expect("non-zero limits")
}

fn outcome(revision: u64, topology_changed: bool, changed: usize) -> EditOutcome {
    EditOutcome {
        revision,
        topology_changed,
        calculation_metadata_changed: false,
        calculation_changed_cells: changed,
        affected_formulas: vec![cell(1, 1)],
    }
}

fn compiled() -> CompiledFacts {
    CompiledFacts { formula_count: 2, incremental_safe: true, limits: CalculationLimits::default() }
}

fn never() -> bool {
    false
}

#[test]
fn edit_batches_change_the_session_only_at_the_expected_revision() {
    let mut session = WorkbookCalculationSession::new(3, limits());
    let stale = session.apply_changes(2, 1, outcome(4, false, 1), &never).expect_err("stale revision");
    assert_eq!(stale.code(), SessionErrorCode::RevisionMismatch);
    assert_eq!(stale.detail(), Some("expected=2, current=3"));
    assert_eq!(session.revision(), 3);
    let empty = session.apply_changes(3, 0, outcome(4, false, 1), &never).expect_err("empty batch");
    assert_eq!(empty.code(), SessionErrorCode::EmptyBatch);
    let large = session.apply_changes(3, 5, outcome(4, false, 1), &never).expect_err("large batch");
    assert_eq!(large.detail(), Some("operations=5, limit=4"));
    let cancelled = session.apply_changes(3, 1, outcome(4, false, 1), &|| true).expect_err("cancelled");
    assert_eq!(cancelled.code(), SessionErrorCode::Cancelled);
    assert_eq!(session.revision(), 3);
    session.apply_changes(3, 2, outcome(4, true, 1), &never).expect("applied");
    assert_eq!(session.revision(), 4);
    assert!(session.dirty().is_empty());
}

#[test]
fn a_staged_batch_is_refused_after_another_install() {
    let mut session = WorkbookCalculationSession::new(1, limits());
    let first = session.stage_changes(1, 1, outcome(2, false, 1), &never).expect("first staged");
    let second = session.stage_changes(1, 1, outcome(2, false, 1), &never).expect("second staged");
    session.install_changes(first).expect("first installed");
    let refused = session.install_changes(second).expect_err("second is stale");
    assert_eq!(refused.code(), SessionErrorCode::RevisionMismatch);
    assert_eq!(refused.detail(), Some("expected=1, current=2"));
    assert_eq!(session.revision(), 2);
}

#[test]
fn recalculation_runs_fully_first_then_reuses_results_when_nothing_is_dirty() {
    let mut session = WorkbookCalculationSession::new(5, limits());
    let options = CalculationOptions::default();
    let fingerprint = [7u8; 32];
    let job = session
        .prepare_recalculation(RecalculationMode::Auto, options, false, fingerprint, vec![cell(1, 1), cell(2, 1)], &never)
        .expect("initial job");
    assert_eq!(job.execution_mode, CalculationExecutionMode::Full);
    assert_eq!(job.reason, CalculationDecisionReason::InitialCalculation);
    assert_eq!(job.dirty, vec![cell(1, 1), cell(2, 1)]);
    let evaluations = Cell::new(0);
    let evaluate = |_recompile: bool, _incremental: bool| -> Result<Evaluation, ()> {
        evaluations.set(evaluations.get() + 1);
        let calculation = CalculationSnapshot::new(Vec::new(), Vec::new(), options, 5, fingerprint).ok_or(())?;
        Ok(Evaluation { calculation, compiled: compiled(), evaluated_count: 2 })
    };
    let completed = job.run(&evaluate, &never).expect("first run");
    assert_eq!(completed.delta.evaluated_count(), 2);
    assert_eq!(completed.delta.parsed_formula_count(), 2);
    let delta = session.install(completed, &never).expect("installed");
    assert_eq!(delta.cursor(), 1);
    assert_eq!(session.history().next_cursor(), 2);
    assert!(session.calculation().is_some());

    let job = session
        .prepare_recalculation(RecalculationMode::Auto, options, false, fingerprint, Vec::new(), &never)
        .expect("second job");
    assert_eq!(job.execution_mode, CalculationExecutionMode::Incremental);
    assert_eq!(job.reason, CalculationDecisionReason::NoDirtyFormulas);
    let completed = job.run(&evaluate, &never).expect("reused");
    assert_eq!(evaluations.get(), 1);
    assert_eq!(completed.delta.evaluated_count(), 0);
    assert_eq!(session.install(completed, &never).expect("installed").cursor(), 2);
}

#[test]
fn forced_incremental_needs_state_and_stale_results_are_not_installed() {
    let mut session = WorkbookCalculationSession::new(1, limits());
    let options = CalculationOptions::default();
    let refused = session
        .prepare_recalculation(RecalculationMode::Incremental, options, false, [0u8; 32], Vec::new(), &never)
        .expect_err("no state");
    assert_eq!(refused.code(), SessionErrorCode::CalculationUninitialized);
    let job = session
        .prepare_recalculation(RecalculationMode::Full, options, false, [0u8; 32], vec![cell(1, 1)], &never)
        .expect("full job");
    assert_eq!(job.reason, CalculationDecisionReason::FullRequested);
    let evaluate = |_: bool, _: bool| -> Result<Evaluation, ()> {
        let calculation = CalculationSnapshot::new(Vec::new(), Vec::new(), options, 1, [0u8; 32]).ok_or(())?;
        Ok(Evaluation { calculation, compiled: compiled(), evaluated_count: 1 })
    };
    let completed = job.run(&evaluate, &never).expect("run");
    session.apply_changes(1, 1, outcome(2, false, 1), &never).expect("edit in between");
    let stale = session.install(completed, &never).expect_err("stale");
    assert_eq!(stale.code(), SessionErrorCode::StaleResult);
    assert_eq!(stale.detail(), Some("calculated=1, current=2"));
    assert!(session.calculation().is_none());
}

#[test]
fn a_job_over_the_evaluation_limit_is_refused_before_evaluating() {
    let session = WorkbookCalculationSession::new(1, limits());
    let cells: Vec<CalculationCellId> = (1..=11).map(|row| cell(row, 1)).collect();
    let job = session
        .prepare_recalculation(RecalculationMode::Full, CalculationOptions::default(), false, [0u8; 32], cells, &never)
        .expect("job");
    let evaluate = |_: bool, _: bool| -> Result<Evaluation, ()> { Err(()) };
    let refused = job.run(&evaluate, &never).expect_err("too many cells");
    assert_eq!(refused.code(), SessionErrorCode::EvaluationLimitExceeded);
    assert_eq!(refused.detail(), Some("planned=11, limit=10"));
}
