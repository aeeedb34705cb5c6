use cellrune::limits::{
    CalculationLimitKind, CalculationLimits, CalculationOptionsError, SAFE_FORMULA_NESTING_DEPTH,
};

#[test]
fn every_limit_kind_round_trips_through_its_detail() {
    let kinds = [
        CalculationLimitKind::FormulaTokens,
        CalculationLimitKind::FormulaSourceBytes,
        CalculationLimitKind::FormulaAstNodes,
        CalculationLimitKind::FormulaNestingDepth,
        CalculationLimitKind::DependencyEdges,
        CalculationLimitKind::ArrayCells,
        CalculationLimitKind::TextBytes,
        CalculationLimitKind::FunctionIterations,
        CalculationLimitKind::LetBindings,
        CalculationLimitKind::LambdaDepth,
        CalculationLimitKind::LambdaInvocations,
    ];

    for kind in kinds {
        assert_eq!(CalculationLimitKind::from_detail(kind.detail()), Some(kind));
    }
}

#[test]
fn nesting_configuration_remains_source_compatible_above_internal_safe_depth() {
    let limits = CalculationLimits::default()
        .with_max_formula_nesting_depth(SAFE_FORMULA_NESTING_DEPTH + 1)
        .expect("existing nonzero configuration remains accepted");
    assert_eq!(limits.max_formula_nesting_depth(), SAFE_FORMULA_NESTING_DEPTH + 1);
}

#[test]
fn zero_limits_are_refused_with_their_kind() {
    let error = CalculationLimits::default().with_max_text_bytes(0).expect_err("zero");
    assert_eq!(error, CalculationOptionsError::ZeroLimit { name: "max_text_bytes" });
    assert!(CalculationLimitKind::from_detail("no such limit").is_none());
}

#[test]
fn the_reference_area_limit_round_trips_through_its_detail() {
    let kind = CalculationLimitKind::ReferenceAreas;
    assert_eq!(kind.detail(), "max_reference_areas");
    assert_eq!(CalculationLimitKind::from_detail(kind.detail()), Some(kind));
}
