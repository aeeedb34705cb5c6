use cellrune::session::{
    calculation_base_revision, compile_required, decide_schedule, CalculationDecisionReason, CalculationExecutionMode,
    RecalculationMode, RecalculationState, SessionErrorCode,
};

fn settled() -> RecalculationState {
    RecalculationState {
        no_state: false,
        requires_full_rebuild: false,
        table_topology_changed: false,
        options_changed: false,
        compiled_limit_changed: false,
        unsafe_dynamic: false,
        dirty_count: 2,
        formula_count: Some(10),
    }
}

#[test]
fn auto_schedules_follow_the_first_applicable_reason() {
    let state = settled();
    assert_eq!(
        decide_schedule(RecalculationMode::Auto, &state).expect("auto"),
        (CalculationExecutionMode::Incremental, CalculationDecisionReason::DirtySubset)
    );
    let initial = RecalculationState { no_state: true, requires_full_rebuild: true, ..state };
    assert_eq!(
        decide_schedule(RecalculationMode::Auto, &initial).expect("auto"),
        (CalculationExecutionMode::Full, CalculationDecisionReason::InitialCalculation)
    );
    let covering = RecalculationState { dirty_count: 10, ..state };
    assert_eq!(
        decide_schedule(RecalculationMode::Auto, &covering).expect("auto"),
        (CalculationExecutionMode::Full, CalculationDecisionReason::DirtySetCoversWorkbook)
    );
    let clean = RecalculationState { dirty_count: 0, ..state };
    assert_eq!(
        decide_schedule(RecalculationMode::Auto, &clean).expect("auto"),
        (CalculationExecutionMode::Incremental, CalculationDecisionReason::NoDirtyFormulas)
    );
    let changed = RecalculationState { compiled_limit_changed: true, unsafe_dynamic: true, ..state };
    assert!(compile_required(&changed));
    assert_eq!(
        decide_schedule(RecalculationMode::Auto, &changed).expect("auto"),
        (CalculationExecutionMode::Full, CalculationDecisionReason::OptionsChanged)
    );
    assert_eq!(
        decide_schedule(RecalculationMode::Full, &clean).expect("full"),
        (CalculationExecutionMode::Full, CalculationDecisionReason::FullRequested)
    );
}

#[test]
fn unsafe_incremental_requests_are_refused_with_their_reason() {
    let state = settled();
    assert_eq!(
        decide_schedule(RecalculationMode::Incremental, &state).expect("incremental"),
        (CalculationExecutionMode::Incremental, CalculationDecisionReason::IncrementalRequested)
    );
    let empty = RecalculationState { no_state: true, ..state };
    let error = decide_schedule(RecalculationMode::Incremental, &empty).expect_err("no state");
    assert_eq!(error.code(), SessionErrorCode::CalculationUninitialized);
    let dynamic = RecalculationState { unsafe_dynamic: true, ..state };
    let error = decide_schedule(RecalculationMode::Incremental, &dynamic).expect_err("dynamic");
    assert_eq!(error.code(), SessionErrorCode::IncrementalUnsafe);
    assert_eq!(error.detail(), Some("dynamic dependency or spill topology requires full recalculation"));
    let options = RecalculationState { options_changed: true, table_topology_changed: true, ..state };
    let error = decide_schedule(RecalculationMode::Incremental, &options).expect_err("options");
    assert_eq!(error.detail(), Some("formula, name, sheet, or calculation topology changed"));
}

#[test]
fn calculations_from_a_newer_revision_are_refused() {
    assert_eq!(calculation_base_revision(None, 4).expect("no calculation"), 4);
    assert_eq!(calculation_base_revision(Some(3), 4).expect("older"), 3);
    let error = calculation_base_revision(Some(5), 4).expect_err("newer");
    assert_eq!(error.code(), SessionErrorCode::StateRevisionMismatch);
    assert_eq!(error.detail(), Some("calculation=5, workbook=4"));
}
