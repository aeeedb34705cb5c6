use cellrune::lexer::{ParseErrorCode, SourceSpan};
use cellrune::limits::{CalculationLimitKind, CalculationLimits};
use cellrune::syntax::{
    BinaryOp, FormulaExpr, UnaryOp, can_be_reference_expression, direct_child_count,
    validate_ast_limits,
};
use cellrune::value::ErrorKind;

fn number(value: f64) -> FormulaExpr {
    FormulaExpr::Number(value.to_bits())
}

fn sum_of_two() -> FormulaExpr {
    FormulaExpr::Call { name: "SUM".to_owned(), args: vec![number(1.0), number(2.0)] }
}

fn nested_negations(depth: usize) -> FormulaExpr {
    let mut expr = number(1.0);
    for _ in 0..depth {
        expr = FormulaExpr::Unary { op: UnaryOp::Negate, operand: Box::new(expr) };
    }
    expr
}

fn limits(nodes: u64, depth: u64) -> CalculationLimits {
    CalculationLimits::default()
        .with_max_formula_ast_nodes(nodes)
        .expect("nodes")
        .with_max_formula_nesting_depth(depth)
        .expect("depth")
}

#[test]
fn ast_limits_accept_a_formula_exactly_at_both_limits() {
    let span = SourceSpan::new(0, 9);
    assert_eq!(validate_ast_limits(&sum_of_two(), span, limits(3, 2)), Ok(()));
}

#[test]
fn ast_limits_report_the_node_limit_when_only_nodes_exceed() {
    let span = SourceSpan::new(1, 9);
    let error = validate_ast_limits(&sum_of_two(), span, limits(2, 2)).expect_err("nodes");
    assert_eq!(error.code, ParseErrorCode::UnexpectedToken);
    assert_eq!(error.span, span);
    assert_eq!(error.limit, Some(CalculationLimitKind::FormulaAstNodes));
}

#[test]
fn ast_limits_report_the_depth_limit_when_only_depth_exceeds() {
    let span = SourceSpan::new(0, 4);
    let expr = nested_negations(4);
    assert_eq!(validate_ast_limits(&expr, span, limits(5, 5)), Ok(()));
    let error = validate_ast_limits(&expr, span, limits(5, 4)).expect_err("depth");
    assert_eq!(error.limit, Some(CalculationLimitKind::FormulaNestingDepth));
}

#[test]
fn ast_limits_count_every_array_item_and_both_binary_operands() {
    let array = FormulaExpr::Array(vec![vec![number(1.0), number(2.0)], vec![number(3.0)]]);
    let expr = FormulaExpr::Binary {
        op: BinaryOp::Add,
        left: Box::new(array),
        right: Box::new(FormulaExpr::Paren(Box::new(number(4.0)))),
    };
    let span = SourceSpan::new(0, 1);
    assert_eq!(validate_ast_limits(&expr, span, limits(7, 3)), Ok(()));
    assert_eq!(
        validate_ast_limits(&expr, span, limits(6, 3)).map_err(|error| error.limit),
        Err(Some(CalculationLimitKind::FormulaAstNodes))
    );
    assert_eq!(
        validate_ast_limits(&expr, span, limits(7, 2)).map_err(|error| error.limit),
        Err(Some(CalculationLimitKind::FormulaNestingDepth))
    );
}

#[test]
fn reference_expressions_see_through_parentheses_and_intersection() {
    assert!(can_be_reference_expression(&FormulaExpr::Ref("A1".to_owned())));
    assert!(can_be_reference_expression(&FormulaExpr::Paren(Box::new(
        FormulaExpr::ImplicitIntersection(Box::new(FormulaExpr::Name("Data".to_owned())))
    ))));
    assert!(can_be_reference_expression(&FormulaExpr::ErrorLit(ErrorKind::Ref)));
    assert!(!can_be_reference_expression(&FormulaExpr::ErrorLit(ErrorKind::Value)));
    assert!(!can_be_reference_expression(&FormulaExpr::Paren(Box::new(number(1.0)))));
    assert!(!can_be_reference_expression(&nested_negations(1)));
}

#[test]
fn direct_children_count_arguments_operands_and_array_items() {
    assert_eq!(direct_child_count(&sum_of_two()), 2);
    let invoke = FormulaExpr::Invoke {
        callee: Box::new(FormulaExpr::Name("F".to_owned())),
        args: vec![number(1.0)],
    };
    assert_eq!(direct_child_count(&invoke), 2);
    let array = FormulaExpr::Array(vec![vec![number(1.0), number(2.0)], vec![number(3.0)]]);
    assert_eq!(direct_child_count(&array), 3);
    assert_eq!(direct_child_count(&nested_negations(2)), 1);
    assert_eq!(direct_child_count(&FormulaExpr::Missing), 0);
}
