//! The shape of parsed formula expressions, and the size and nesting limits a parsed formula
//! must respect.
use vstd::prelude::*;

use crate::lexer::{ParseError, ParseErrorCode, SourceSpan};
use crate::limits::{CalculationLimitKind, CalculationLimits};
use crate::value::ErrorKind;

verus! {

/// A prefix or postfix operator.
#[derive(Debug, Clone, Copy, PartialEq, Eq, Structural)]
pub enum UnaryOp {
    Plus,
    Negate,
    Percent,
}

/// An infix operator.
#[derive(Debug, Clone, Copy, PartialEq, Eq, Structural)]
pub enum BinaryOp {
    Add,
    Subtract,
    Multiply,
    Divide,
    Power,
    Concat,
    Eq,
    Ne,
    Lt,
    Le,
    Gt,
    Ge,
}

/// A parsed formula expression. Leaves that name a reference keep the reference as written;
/// a number keeps the bits of its IEEE-754 value.
#[derive(Debug)]
pub enum FormulaExpr {
    Number(u64),
    Text(String),
    Logical(bool),
    ErrorLit(ErrorKind),
    Ref(String),
    Name(String),
    BuiltinCallable(String),
    StructuredRef(String),
    ExternalReference(String),
    QualifiedName(String),
    Missing,
    Call { name: String, args: Vec<FormulaExpr> },
    Invoke { callee: Box<FormulaExpr>, args: Vec<FormulaExpr> },
    ImplicitIntersection(Box<FormulaExpr>),
    SpillRef(Box<FormulaExpr>),
    Unary { op: UnaryOp, operand: Box<FormulaExpr> },
    Paren(Box<FormulaExpr>),
    Binary { op: BinaryOp, left: Box<FormulaExpr>, right: Box<FormulaExpr> },
    ReferenceUnion { left: Box<FormulaExpr>, right: Box<FormulaExpr> },
    ReferenceIntersection { left: Box<FormulaExpr>, right: Box<FormulaExpr> },
    Range { start: Box<FormulaExpr>, end: Box<FormulaExpr> },
    Array(Vec<Vec<FormulaExpr>>),
}

/// The number of nodes of `e`, itself included.
pub open spec fn node_count(e: FormulaExpr) -> nat
    decreases e, 2nat,
{
    match e {
        FormulaExpr::Call { name, args } => 1 + list_node_count(args@),
        FormulaExpr::Invoke { callee, args } => 1 + node_count(*callee) + list_node_count(args@),
        FormulaExpr::ImplicitIntersection(operand) => 1 + node_count(*operand),
        FormulaExpr::SpillRef(operand) => 1 + node_count(*operand),
        FormulaExpr::Unary { op, operand } => 1 + node_count(*operand),
        FormulaExpr::Paren(operand) => 1 + node_count(*operand),
        FormulaExpr::Binary { op, left, right } => 1 + node_count(*left) + node_count(*right),
        FormulaExpr::ReferenceUnion { left, right } => 1 + node_count(*left) + node_count(*right),
        FormulaExpr::ReferenceIntersection { left, right } => 1 + node_count(*left) + node_count(*right),
        FormulaExpr::Range { start, end } => 1 + node_count(*start) + node_count(*end),
        FormulaExpr::Array(rows) => 1 + rows_node_count(rows@),
        _ => 1,
    }
}

/// The number of nodes of the expressions of `s`.
pub open spec fn list_node_count(s: Seq<FormulaExpr>) -> nat
    decreases s, 1nat,
{
    if s.len() == 0 {
        0
    } else {
        list_node_count(s.subrange(0, s.len() - 1)) + node_count(s[s.len() - 1])
    }
}

/// The number of nodes of the expressions of the rows `rows`.
pub open spec fn rows_node_count(rows: Seq<Vec<FormulaExpr>>) -> nat
    decreases rows, 0nat,
{
    if rows.len() == 0 {
        0
    } else {
        rows_node_count(rows.subrange(0, rows.len() - 1)) + list_node_count(rows[rows.len() - 1]@)
    }
}

/// The larger of two naturals.
pub open spec fn max_nat(a: nat, b: nat) -> nat {
    if a < b { b } else { a }
}

/// The nesting depth of `e`: one for a leaf, one more than its deepest child otherwise.
pub open spec fn height(e: FormulaExpr) -> nat
    decreases e, 2nat,
{
    match e {
        FormulaExpr::Call { name, args } => 1 + list_height(args@),
        FormulaExpr::Invoke { callee, args } => 1 + max_nat(height(*callee), list_height(args@)),
        FormulaExpr::ImplicitIntersection(operand) => 1 + height(*operand),
        FormulaExpr::SpillRef(operand) => 1 + height(*operand),
        FormulaExpr::Unary { op, operand } => 1 + height(*operand),
        FormulaExpr::Paren(operand) => 1 + height(*operand),
        FormulaExpr::Binary { op, left, right } => 1 + max_nat(height(*left), height(*right)),
        FormulaExpr::ReferenceUnion { left, right } => 1 + max_nat(height(*left), height(*right)),
        FormulaExpr::ReferenceIntersection { left, right } => 1 + max_nat(height(*left), height(*right)),
        FormulaExpr::Range { start, end } => 1 + max_nat(height(*start), height(*end)),
        FormulaExpr::Array(rows) => 1 + rows_height(rows@),
        _ => 1,
    }
}

/// The largest nesting depth among the expressions of `s`, zero when there are none.
pub open spec fn list_height(s: Seq<FormulaExpr>) -> nat
    decreases s, 1nat,
{
    if s.len() == 0 {
        0
    } else {
        max_nat(list_height(s.subrange(0, s.len() - 1)), height(s[s.len() - 1]))
    }
}

/// The largest nesting depth among the expressions of the rows `rows`.
pub open spec fn rows_height(rows: Seq<Vec<FormulaExpr>>) -> nat
    decreases rows, 0nat,
{
    if rows.len() == 0 {
        0
    } else {
        max_nat(rows_height(rows.subrange(0, rows.len() - 1)), list_height(rows[rows.len() - 1]@))
    }
}


/// Counting a prefix one expression longer adds that expression.
proof fn lemma_list_step(s: Seq<FormulaExpr>, i: int)
    requires
        0 <= i < s.len(),
    ensures
        list_node_count(s.take(i + 1)) == list_node_count(s.take(i)) + node_count(s[i]),
        list_height(s.take(i + 1)) == max_nat(list_height(s.take(i)), height(s[i])),
{
    assert(s.take(i + 1).subrange(0, i) =~= s.take(i));
}

/// A prefix counts no more nodes, and nests no deeper, than the whole list.
proof fn lemma_list_prefix(s: Seq<FormulaExpr>, j: int)
    requires
        0 <= j <= s.len(),
    ensures
        list_node_count(s.take(j)) <= list_node_count(s),
        list_height(s.take(j)) <= list_height(s),
    decreases s.len(),
{
    if j == s.len() {
        assert(s.take(j) =~= s);
    } else {
        let prefix = s.subrange(0, s.len() - 1);
        assert(prefix.take(j) =~= s.take(j));
        lemma_list_prefix(prefix, j);
    }
}

/// Counting one more row adds that row.
proof fn lemma_rows_step(rows: Seq<Vec<FormulaExpr>>, i: int)
    requires
        0 <= i < rows.len(),
    ensures
        rows_node_count(rows.take(i + 1)) == rows_node_count(rows.take(i)) + list_node_count(rows[i]@),
        rows_height(rows.take(i + 1)) == max_nat(rows_height(rows.take(i)), list_height(rows[i]@)),
{
    assert(rows.take(i + 1).subrange(0, i) =~= rows.take(i));
}

/// Leading rows count no more nodes, and nest no deeper, than all rows.
proof fn lemma_rows_prefix(rows: Seq<Vec<FormulaExpr>>, j: int)
    requires
        0 <= j <= rows.len(),
    ensures
        rows_node_count(rows.take(j)) <= rows_node_count(rows),
        rows_height(rows.take(j)) <= rows_height(rows),
    decreases rows.len(),
{
    if j == rows.len() {
        assert(rows.take(j) =~= rows);
    } else {
        let prefix = rows.subrange(0, rows.len() - 1);
        assert(prefix.take(j) =~= rows.take(j));
        lemma_rows_prefix(prefix, j);
    }
}

/// Walks `e` with `nodes_left` nodes and `depth_left` nesting levels still allowed, and
/// reports the first limit that a node of `e` exceeds.
fn check_node_limits(e: &FormulaExpr, depth_left: u64, nodes_left: &mut u64) -> (r: Result<(), CalculationLimitKind>)
    ensures
        r is Ok ==> node_count(*e) <= *old(nodes_left) && *final(nodes_left) == *old(nodes_left) - node_count(*e)
            && height(*e) <= depth_left,
        r matches Err(k) ==> (k == CalculationLimitKind::FormulaAstNodes && node_count(*e) > *old(nodes_left))
            || (k == CalculationLimitKind::FormulaNestingDepth && height(*e) > depth_left),
    decreases *e, 2nat,
{
    if *nodes_left == 0 {
        return Err(CalculationLimitKind::FormulaAstNodes);
    }
    if depth_left == 0 {
        return Err(CalculationLimitKind::FormulaNestingDepth);
    }
    *nodes_left = *nodes_left - 1;
    let child_depth = depth_left - 1;
    match e {
        FormulaExpr::Call { name, args } => check_list_limits(args, child_depth, nodes_left),
        FormulaExpr::Invoke { callee, args } => {
            check_node_limits(callee, child_depth, nodes_left)?;
            check_list_limits(args, child_depth, nodes_left)
        },
        FormulaExpr::ImplicitIntersection(operand) => check_node_limits(operand, child_depth, nodes_left),
        FormulaExpr::SpillRef(operand) => check_node_limits(operand, child_depth, nodes_left),
        FormulaExpr::Unary { op, operand } => check_node_limits(operand, child_depth, nodes_left),
        FormulaExpr::Paren(operand) => check_node_limits(operand, child_depth, nodes_left),
        FormulaExpr::Binary { op, left, right } => {
            check_node_limits(left, child_depth, nodes_left)?;
            check_node_limits(right, child_depth, nodes_left)
        },
        FormulaExpr::ReferenceUnion { left, right } => {
            check_node_limits(left, child_depth, nodes_left)?;
            check_node_limits(right, child_depth, nodes_left)
        },
        FormulaExpr::ReferenceIntersection { left, right } => {
            check_node_limits(left, child_depth, nodes_left)?;
            check_node_limits(right, child_depth, nodes_left)
        },
        FormulaExpr::Range { start, end } => {
            check_node_limits(start, child_depth, nodes_left)?;
            check_node_limits(end, child_depth, nodes_left)
        },
        FormulaExpr::Array(rows) => check_rows_limits(rows, child_depth, nodes_left),
        _ => Ok(()),
    }
}

/// Walks each expression of `s` in turn, as `check_node_limits` walks one.
fn check_list_limits(s: &Vec<FormulaExpr>, depth_left: u64, nodes_left: &mut u64) -> (r: Result<(), CalculationLimitKind>)
    ensures
        r is Ok ==> list_node_count(s@) <= *old(nodes_left) && *final(nodes_left) == *old(nodes_left) - list_node_count(s@)
            && list_height(s@) <= depth_left,
        r matches Err(k) ==> (k == CalculationLimitKind::FormulaAstNodes && list_node_count(s@) > *old(nodes_left))
            || (k == CalculationLimitKind::FormulaNestingDepth && list_height(s@) > depth_left),
    decreases *s, 1nat,
{
    let ghost start = *nodes_left;
    let mut i: usize = 0;
    assert(s@.take(0) =~= Seq::<FormulaExpr>::empty());
    while i < s.len()
        invariant
            i <= s@.len(),
            start == *old(nodes_left),
            list_node_count(s@.take(i as int)) <= start,
            *nodes_left == start - list_node_count(s@.take(i as int)),
            list_height(s@.take(i as int)) <= depth_left,
        decreases s.len() - i,
    {
        proof {
            lemma_list_step(s@, i as int);
            lemma_list_prefix(s@, i as int + 1);
        }
        check_node_limits(&s[i], depth_left, nodes_left)?;
        i = i + 1;
    }
    assert(s@.take(i as int) =~= s@);
    Ok(())
}

/// Walks each row of `rows` in turn, as `check_list_limits` walks one.
fn check_rows_limits(rows: &Vec<Vec<FormulaExpr>>, depth_left: u64, nodes_left: &mut u64) -> (r: Result<(), CalculationLimitKind>)
    ensures
        r is Ok ==> rows_node_count(rows@) <= *old(nodes_left) && *final(nodes_left) == *old(nodes_left) - rows_node_count(rows@)
            && rows_height(rows@) <= depth_left,
        r matches Err(k) ==> (k == CalculationLimitKind::FormulaAstNodes && rows_node_count(rows@) > *old(nodes_left))
            || (k == CalculationLimitKind::FormulaNestingDepth && rows_height(rows@) > depth_left),
    decreases *rows, 0nat,
{
    let ghost start = *nodes_left;
    let mut i: usize = 0;
    assert(rows@.take(0) =~= Seq::<Vec<FormulaExpr>>::empty());
    while i < rows.len()
        invariant
            i <= rows@.len(),
            start == *old(nodes_left),
            rows_node_count(rows@.take(i as int)) <= start,
            *nodes_left == start - rows_node_count(rows@.take(i as int)),
            rows_height(rows@.take(i as int)) <= depth_left,
        decreases rows.len() - i,
    {
        proof {
            lemma_rows_step(rows@, i as int);
            lemma_rows_prefix(rows@, i as int + 1);
        }
        check_list_limits(&rows[i], depth_left, nodes_left)?;
        i = i + 1;
    }
    assert(rows@.take(i as int) =~= rows@);
    Ok(())
}

/// Checks a parsed formula against the node-count and nesting-depth limits. A formula within
/// both passes; otherwise the error names a limit the formula exceeds, at `span`.
pub fn validate_ast_limits(expr: &FormulaExpr, span: SourceSpan, limits: CalculationLimits) -> (r: Result<(), ParseError>)
    ensures
        r is Ok <==> node_count(*expr) <= limits@.max_formula_ast_nodes
            && height(*expr) <= limits@.max_formula_nesting_depth,
        r matches Err(e) ==> e.code == ParseErrorCode::UnexpectedToken && e.span == span
            && (e.limit == Some(CalculationLimitKind::FormulaAstNodes)
                || e.limit == Some(CalculationLimitKind::FormulaNestingDepth)),
        r matches Err(e) ==> (node_count(*expr) <= limits@.max_formula_ast_nodes
            ==> e.limit == Some(CalculationLimitKind::FormulaNestingDepth)),
        r matches Err(e) ==> (height(*expr) <= limits@.max_formula_nesting_depth
            ==> e.limit == Some(CalculationLimitKind::FormulaAstNodes)),
{
    let mut nodes_left = limits.max_formula_ast_nodes();
    match check_node_limits(expr, limits.max_formula_nesting_depth(), &mut nodes_left) {
        Ok(()) => Ok(()),
        Err(limit) => Err(ParseError { code: ParseErrorCode::UnexpectedToken, span, limit: Some(limit) }),
    }
}


/// Whether `e` can evaluate to a reference: a reference leaf or operator, a name, a call, a
/// `#REF!` error, or one of these in parentheses or under implicit intersection.
pub open spec fn is_reference_expression(e: FormulaExpr) -> bool
    decreases e,
{
    match e {
        FormulaExpr::Ref(_) | FormulaExpr::StructuredRef(_) | FormulaExpr::ReferenceUnion { .. }
        | FormulaExpr::ReferenceIntersection { .. } | FormulaExpr::SpillRef(_)
        | FormulaExpr::ExternalReference(_) | FormulaExpr::QualifiedName(_) | FormulaExpr::Range { .. }
        | FormulaExpr::Name(_) | FormulaExpr::Call { .. } | FormulaExpr::Invoke { .. } => true,
        FormulaExpr::ErrorLit(kind) => kind == ErrorKind::Ref,
        FormulaExpr::Paren(inner) => is_reference_expression(*inner),
        FormulaExpr::ImplicitIntersection(inner) => is_reference_expression(*inner),
        _ => false,
    }
}

/// Returns whether `e` can evaluate to a reference.
pub fn can_be_reference_expression(e: &FormulaExpr) -> (r: bool)
    ensures
        r == is_reference_expression(*e),
    decreases *e,
{
    match e {
        FormulaExpr::Ref(_) | FormulaExpr::StructuredRef(_) | FormulaExpr::ReferenceUnion { .. }
        | FormulaExpr::ReferenceIntersection { .. } | FormulaExpr::SpillRef(_)
        | FormulaExpr::ExternalReference(_) | FormulaExpr::QualifiedName(_) | FormulaExpr::Range { .. }
        | FormulaExpr::Name(_) | FormulaExpr::Call { .. } | FormulaExpr::Invoke { .. } => true,
        FormulaExpr::ErrorLit(kind) => match kind {
            ErrorKind::Ref => true,
            _ => false,
        },
        FormulaExpr::Paren(inner) => can_be_reference_expression(inner),
        FormulaExpr::ImplicitIntersection(inner) => can_be_reference_expression(inner),
        _ => false,
    }
}

/// The total number of expressions in the rows `rows`.
pub open spec fn rows_item_count(rows: Seq<Vec<FormulaExpr>>) -> nat
    decreases rows.len(),
{
    if rows.len() == 0 {
        0
    } else {
        rows_item_count(rows.drop_last()) + rows.last()@.len()
    }
}

/// The number of direct children of `e`.
pub open spec fn direct_child_count_spec(e: FormulaExpr) -> nat {
    match e {
        FormulaExpr::Call { name, args } => args@.len(),
        FormulaExpr::Invoke { callee, args } => args@.len() + 1,
        FormulaExpr::ImplicitIntersection(_) | FormulaExpr::SpillRef(_) | FormulaExpr::Unary { .. }
        | FormulaExpr::Paren(_) => 1,
        FormulaExpr::Binary { .. } | FormulaExpr::ReferenceUnion { .. }
        | FormulaExpr::ReferenceIntersection { .. } | FormulaExpr::Range { .. } => 2,
        FormulaExpr::Array(rows) => rows_item_count(rows@),
        _ => 0,
    }
}

/// Returns the number of direct children of `e`.
pub fn direct_child_count(e: &FormulaExpr) -> (r: usize)
    requires
        direct_child_count_spec(*e) <= usize::MAX,
    ensures
        r == direct_child_count_spec(*e),
{
    match e {
        FormulaExpr::Call { name, args } => args.len(),
        FormulaExpr::Invoke { callee, args } => args.len() + 1,
        FormulaExpr::ImplicitIntersection(_) | FormulaExpr::SpillRef(_) | FormulaExpr::Unary { .. }
        | FormulaExpr::Paren(_) => 1,
        FormulaExpr::Binary { .. } | FormulaExpr::ReferenceUnion { .. }
        | FormulaExpr::ReferenceIntersection { .. } | FormulaExpr::Range { .. } => 2,
        FormulaExpr::Array(rows) => {
            let mut total: usize = 0;
            let mut i: usize = 0;
            assert(rows@.take(0) =~= Seq::<Vec<FormulaExpr>>::empty());
            while i < rows.len()
                invariant
                    i <= rows@.len(),
                    total == rows_item_count(rows@.take(i as int)),
                    rows_item_count(rows@) <= usize::MAX,
                decreases rows.len() - i,
            {
                proof {
                    assert(rows@.take(i as int + 1).drop_last() =~= rows@.take(i as int));
                    lemma_rows_item_prefix(rows@, i as int + 1);
                }
                total = total + rows[i].len();
                i = i + 1;
            }
            assert(rows@.take(i as int) =~= rows@);
            total
        },
        _ => 0,
    }
}

/// Leading rows hold no more expressions than all rows.
proof fn lemma_rows_item_prefix(rows: Seq<Vec<FormulaExpr>>, j: int)
    requires
        0 <= j <= rows.len(),
    ensures
        rows_item_count(rows.take(j)) <= rows_item_count(rows),
    decreases rows.len(),
{
    if j == rows.len() {
        assert(rows.take(j) =~= rows);
    } else {
        assert(rows.drop_last().take(j) =~= rows.take(j));
        lemma_rows_item_prefix(rows.drop_last(), j);
    }
}

} // verus!
