//! Resource limits applied while formulas are parsed, scheduled, and evaluated.
use vstd::prelude::*;

use crate::text::str_equal;

verus! {

/// The parser's implementation ceiling on AST nesting depth.
pub const SAFE_FORMULA_NESTING_DEPTH: u64 = 256;

/// Resource limits applied while formulas are parsed, scheduled, and evaluated.
#[derive(Debug, Clone, Copy, PartialEq, Eq, Structural)]
pub struct CalculationLimits {
    max_formula_tokens: u64,
    max_formula_source_bytes: u64,
    max_formula_ast_nodes: u64,
    max_formula_nesting_depth: u64,
    max_dependency_edges: u64,
    max_array_cells: u64,
    max_text_bytes: u64,
    max_function_iterations: u64,
    max_let_bindings: u64,
    max_lambda_depth: u64,
    max_lambda_invocations: u64,
}

/// Mathematical model of `CalculationLimits`: the eleven configured values.
pub struct LimitsModel {
    pub max_formula_tokens: u64,
    pub max_formula_source_bytes: u64,
    pub max_formula_ast_nodes: u64,
    pub max_formula_nesting_depth: u64,
    pub max_dependency_edges: u64,
    pub max_array_cells: u64,
    pub max_text_bytes: u64,
    pub max_function_iterations: u64,
    pub max_let_bindings: u64,
    pub max_lambda_depth: u64,
    pub max_lambda_invocations: u64,
}

impl View for CalculationLimits {
    type V = LimitsModel;

    closed spec fn view(&self) -> LimitsModel {
        LimitsModel {
            max_formula_tokens: self.max_formula_tokens,
            max_formula_source_bytes: self.max_formula_source_bytes,
            max_formula_ast_nodes: self.max_formula_ast_nodes,
            max_formula_nesting_depth: self.max_formula_nesting_depth,
            max_dependency_edges: self.max_dependency_edges,
            max_array_cells: self.max_array_cells,
            max_text_bytes: self.max_text_bytes,
            max_function_iterations: self.max_function_iterations,
            max_let_bindings: self.max_let_bindings,
            max_lambda_depth: self.max_lambda_depth,
            max_lambda_invocations: self.max_lambda_invocations,
        }
    }
}

/// One configurable resource limit.
#[derive(Debug, Clone, Copy, PartialEq, Eq, Hash, Structural)]
pub enum CalculationLimitKind {
    FormulaTokens,
    FormulaSourceBytes,
    FormulaAstNodes,
    FormulaNestingDepth,
    DependencyEdges,
    ArrayCells,
    TextBytes,
    FunctionIterations,
    LetBindings,
    LambdaDepth,
    LambdaInvocations,
    ReferenceAreas,
}

/// Invalid caller-provided calculation configuration.
#[derive(Debug, Clone, PartialEq, Eq)]
#[non_exhaustive]
pub enum CalculationOptionsError {
    /// A resource limit was set to zero.
    ZeroLimit {
        /// Stable name of the limit that was set to zero.
        name: &'static str,
    },
}

impl CalculationLimitKind {
    /// Stable name of the limit, as used in issue details.
    pub open spec fn detail_spec(self) -> Seq<char> {
        match self {
            CalculationLimitKind::FormulaTokens => "max_formula_tokens"@,
            CalculationLimitKind::FormulaSourceBytes => "max_formula_source_bytes"@,
            CalculationLimitKind::FormulaAstNodes => "max_formula_ast_nodes"@,
            CalculationLimitKind::FormulaNestingDepth => "max_formula_nesting_depth"@,
            CalculationLimitKind::DependencyEdges => "max_dependency_edges"@,
            CalculationLimitKind::ArrayCells => "max_array_cells"@,
            CalculationLimitKind::TextBytes => "max_text_bytes"@,
            CalculationLimitKind::FunctionIterations => "max_function_iterations"@,
            CalculationLimitKind::LetBindings => "max_let_bindings"@,
            CalculationLimitKind::LambdaDepth => "max_lambda_depth"@,
            CalculationLimitKind::LambdaInvocations => "max_lambda_invocations"@,
            CalculationLimitKind::ReferenceAreas => "max_reference_areas"@,
        }
    }

    /// Returns the stable name of the limit.
    pub fn detail(self) -> (r: &'static str)
        ensures
            r@ == self.detail_spec(),
    {
        match self {
            CalculationLimitKind::FormulaTokens => "max_formula_tokens",
            CalculationLimitKind::FormulaSourceBytes => "max_formula_source_bytes",
            CalculationLimitKind::FormulaAstNodes => "max_formula_ast_nodes",
            CalculationLimitKind::FormulaNestingDepth => "max_formula_nesting_depth",
            CalculationLimitKind::DependencyEdges => "max_dependency_edges",
            CalculationLimitKind::ArrayCells => "max_array_cells",
            CalculationLimitKind::TextBytes => "max_text_bytes",
            CalculationLimitKind::FunctionIterations => "max_function_iterations",
            CalculationLimitKind::LetBindings => "max_let_bindings",
            CalculationLimitKind::LambdaDepth => "max_lambda_depth",
            CalculationLimitKind::LambdaInvocations => "max_lambda_invocations",
            CalculationLimitKind::ReferenceAreas => "max_reference_areas",
        }
    }

    /// The limit whose stable name is `s`, if any.
    pub open spec fn of_detail(s: Seq<char>) -> Option<CalculationLimitKind> {
        if s == CalculationLimitKind::FormulaTokens.detail_spec() {
            Some(CalculationLimitKind::FormulaTokens)
        } else if s == CalculationLimitKind::FormulaSourceBytes.detail_spec() {
            Some(CalculationLimitKind::FormulaSourceBytes)
        } else if s == CalculationLimitKind::FormulaAstNodes.detail_spec() {
            Some(CalculationLimitKind::FormulaAstNodes)
        } else if s == CalculationLimitKind::FormulaNestingDepth.detail_spec() {
            Some(CalculationLimitKind::FormulaNestingDepth)
        } else if s == CalculationLimitKind::DependencyEdges.detail_spec() {
            Some(CalculationLimitKind::DependencyEdges)
        } else if s == CalculationLimitKind::ArrayCells.detail_spec() {
            Some(CalculationLimitKind::ArrayCells)
        } else if s == CalculationLimitKind::TextBytes.detail_spec() {
            Some(CalculationLimitKind::TextBytes)
        } else if s == CalculationLimitKind::FunctionIterations.detail_spec() {
            Some(CalculationLimitKind::FunctionIterations)
        } else if s == CalculationLimitKind::LetBindings.detail_spec() {
            Some(CalculationLimitKind::LetBindings)
        } else if s == CalculationLimitKind::LambdaDepth.detail_spec() {
            Some(CalculationLimitKind::LambdaDepth)
        } else if s == CalculationLimitKind::LambdaInvocations.detail_spec() {
            Some(CalculationLimitKind::LambdaInvocations)
        } else if s == CalculationLimitKind::ReferenceAreas.detail_spec() {
            Some(CalculationLimitKind::ReferenceAreas)
        } else {
            None
        }
    }

    /// Parses a stable limit name.
    pub fn from_detail(value: &str) -> (r: Option<CalculationLimitKind>)
        ensures
            r == Self::of_detail(value@),
    {
        let kinds = [
            CalculationLimitKind::FormulaTokens,
            CalculationLimitKind::FormulaSourceBytes,
            CalculationLimitKind::FormulaAstNodes,
            CalculationLimitKind::FormulaNestingDepth,
            CalculationLimitKind::DependencyEdges,
            CalculationLimitKind::ArrayCells,
            CalculationLimitKind::TextBytes,
            CalculationLimitKind::FunctionIterations,
            CalculationLimitKind::LetBindings,
            CalculationLimitKind::LambdaDepth,
            CalculationLimitKind::LambdaInvocations,
            CalculationLimitKind::ReferenceAreas,
        ];
        let mut i: usize = 0;
        while i < 12
            invariant
                i <= 12,
                forall|j: int| 0 <= j < i ==> value@ != #[trigger] kinds@[j].detail_spec(),
                kinds@ == seq![
                    CalculationLimitKind::FormulaTokens,
                    CalculationLimitKind::FormulaSourceBytes,
                    CalculationLimitKind::FormulaAstNodes,
                    CalculationLimitKind::FormulaNestingDepth,
                    CalculationLimitKind::DependencyEdges,
                    CalculationLimitKind::ArrayCells,
                    CalculationLimitKind::TextBytes,
                    CalculationLimitKind::FunctionIterations,
                    CalculationLimitKind::LetBindings,
                    CalculationLimitKind::LambdaDepth,
                    CalculationLimitKind::LambdaInvocations,
                    CalculationLimitKind::ReferenceAreas,
                ],
            decreases 12 - i,
        {
            let kind = kinds[i];
            if str_equal(value, kind.detail()) {
                assert(forall|j: int| 0 <= j < i ==> value@ != #[trigger] kinds@[j].detail_spec());
                return Some(kind);
            }
            i = i + 1;
        }
        None
    }
}

/// Every limit is recovered from its stable name.
pub proof fn lemma_limit_detail_round_trip(kind: CalculationLimitKind)
    ensures
        CalculationLimitKind::of_detail(kind.detail_spec()) == Some(kind),
{
    reveal_strlit("max_formula_tokens");
    reveal_strlit("max_formula_source_bytes");
    reveal_strlit("max_formula_ast_nodes");
    reveal_strlit("max_formula_nesting_depth");
    reveal_strlit("max_dependency_edges");
    reveal_strlit("max_array_cells");
    reveal_strlit("max_text_bytes");
    reveal_strlit("max_function_iterations");
    reveal_strlit("max_let_bindings");
    reveal_strlit("max_lambda_depth");
    reveal_strlit("max_lambda_invocations");
    reveal_strlit("max_reference_areas");
    assert("max_formula_tokens"@.len() == 18);
    assert("max_formula_source_bytes"@.len() == 24);
    assert("max_formula_ast_nodes"@.len() == 21);
    assert("max_formula_nesting_depth"@.len() == 25);
    assert("max_dependency_edges"@.len() == 20);
    assert("max_array_cells"@.len() == 15);
    assert("max_text_bytes"@.len() == 14);
    assert("max_function_iterations"@.len() == 23);
    assert("max_let_bindings"@.len() == 16);
    assert("max_lambda_depth"@.len() == 16);
    assert("max_lambda_invocations"@.len() == 22);
    assert("max_reference_areas"@.len() == 19);
    assert("max_let_bindings"@[5] != "max_lambda_depth"@[5]);
}

fn nonzero(name: &'static str, value: u64) -> (r: Result<u64, CalculationOptionsError>)
    ensures
        value == 0 ==> (r matches Err(CalculationOptionsError::ZeroLimit { name: n }) && n@ == name@),
        value != 0 ==> r == Ok::<u64, CalculationOptionsError>(value),
{
    if value == 0 {
        return Err(CalculationOptionsError::ZeroLimit { name });
    }
    Ok(value)
}

impl CalculationOptionsError {
    /// Whether this is the zero-limit error for `kind`.
    pub open spec fn is_zero_limit_for(self, kind: CalculationLimitKind) -> bool {
        self matches CalculationOptionsError::ZeroLimit { name } && name@ == kind.detail_spec()
    }
}

impl CalculationLimits {
    /// The model of the default limits.
    pub open spec fn default_model() -> LimitsModel {
        LimitsModel {
            max_formula_tokens: 8_192,
            max_formula_source_bytes: 1_048_576,
            max_formula_ast_nodes: 8_192,
            max_formula_nesting_depth: 256,
            max_dependency_edges: 10_000_000,
            max_array_cells: 1_000_000,
            max_text_bytes: 32_767,
            max_function_iterations: 1_000_000,
            max_let_bindings: 126,
            max_lambda_depth: 256,
            max_lambda_invocations: 1_000_000,
        }
    }

    /// Returns the maximum lexical token count of one formula.
    pub fn max_formula_tokens(self) -> (r: u64)
        ensures
            r == self@.max_formula_tokens,
    {
        self.max_formula_tokens
    }

    /// Returns the maximum UTF-8 byte length of one formula source.
    pub fn max_formula_source_bytes(self) -> (r: u64)
        ensures
            r == self@.max_formula_source_bytes,
    {
        self.max_formula_source_bytes
    }

    /// Returns the maximum AST node count of one formula.
    pub fn max_formula_ast_nodes(self) -> (r: u64)
        ensures
            r == self@.max_formula_ast_nodes,
    {
        self.max_formula_ast_nodes
    }

    /// Returns the caller-configured maximum AST nesting depth of one formula.
    pub fn max_formula_nesting_depth(self) -> (r: u64)
        ensures
            r == self@.max_formula_nesting_depth,
    {
        self.max_formula_nesting_depth
    }

    /// Returns the maximum formula dependency-edge count in one workbook calculation.
    pub fn max_dependency_edges(self) -> (r: u64)
        ensures
            r == self@.max_dependency_edges,
    {
        self.max_dependency_edges
    }

    /// Returns the maximum number of cells materialized or traversed by one array operation.
    pub fn max_array_cells(self) -> (r: u64)
        ensures
            r == self@.max_array_cells,
    {
        self.max_array_cells
    }

    /// Returns the maximum UTF-8 byte length of one calculated text value.
    pub fn max_text_bytes(self) -> (r: u64)
        ensures
            r == self@.max_text_bytes,
    {
        self.max_text_bytes
    }

    /// Returns the maximum data-dependent loop iterations of one function call.
    pub fn max_function_iterations(self) -> (r: u64)
        ensures
            r == self@.max_function_iterations,
    {
        self.max_function_iterations
    }

    /// Returns the maximum number of name/value pairs in one `LET` expression.
    pub fn max_let_bindings(self) -> (r: u64)
        ensures
            r == self@.max_let_bindings,
    {
        self.max_let_bindings
    }

    /// Returns the maximum simultaneously active lambda-body depth in one cell evaluation.
    pub fn max_lambda_depth(self) -> (r: u64)
        ensures
            r == self@.max_lambda_depth,
    {
        self.max_lambda_depth
    }

    /// Returns the maximum cumulative lambda-body invocations in one cell evaluation.
    pub fn max_lambda_invocations(self) -> (r: u64)
        ensures
            r == self@.max_lambda_invocations,
    {
        self.max_lambda_invocations
    }

    /// Replaces the per-formula lexical token limit.
    ///
    /// Fails with `CalculationOptionsError::ZeroLimit` when `value` is zero.
    pub fn with_max_formula_tokens(self, value: u64) -> (r: Result<Self, CalculationOptionsError>)
        ensures
            value == 0 ==> (r matches Err(e) && e.is_zero_limit_for(CalculationLimitKind::FormulaTokens)),
            value != 0 ==> (r matches Ok(l) && l@ == LimitsModel { max_formula_tokens: value, ..self@ }),
    {
        let mut limits = self;
        limits.max_formula_tokens = nonzero(CalculationLimitKind::FormulaTokens.detail(), value)?;
        Ok(limits)
    }

    /// Replaces the per-formula UTF-8 source byte limit.
    ///
    /// Fails with `CalculationOptionsError::ZeroLimit` when `value` is zero.
    pub fn with_max_formula_source_bytes(self, value: u64) -> (r: Result<Self, CalculationOptionsError>)
        ensures
            value == 0 ==> (r matches Err(e) && e.is_zero_limit_for(CalculationLimitKind::FormulaSourceBytes)),
            value != 0 ==> (r matches Ok(l) && l@ == LimitsModel { max_formula_source_bytes: value, ..self@ }),
    {
        let mut limits = self;
        limits.max_formula_source_bytes = nonzero(CalculationLimitKind::FormulaSourceBytes.detail(), value)?;
        Ok(limits)
    }

    /// Replaces the per-formula AST node limit.
    ///
    /// Fails with `CalculationOptionsError::ZeroLimit` when `value` is zero.
    pub fn with_max_formula_ast_nodes(self, value: u64) -> (r: Result<Self, CalculationOptionsError>)
        ensures
            value == 0 ==> (r matches Err(e) && e.is_zero_limit_for(CalculationLimitKind::FormulaAstNodes)),
            value != 0 ==> (r matches Ok(l) && l@ == LimitsModel { max_formula_ast_nodes: value, ..self@ }),
    {
        let mut limits = self;
        limits.max_formula_ast_nodes = nonzero(CalculationLimitKind::FormulaAstNodes.detail(), value)?;
        Ok(limits)
    }

    /// Replaces the caller-configured per-formula AST nesting-depth limit; values above the parser's safety ceiling stay accepted.
    ///
    /// Fails with `CalculationOptionsError::ZeroLimit` when `value` is zero.
    pub fn with_max_formula_nesting_depth(self, value: u64) -> (r: Result<Self, CalculationOptionsError>)
        ensures
            value == 0 ==> (r matches Err(e) && e.is_zero_limit_for(CalculationLimitKind::FormulaNestingDepth)),
            value != 0 ==> (r matches Ok(l) && l@ == LimitsModel { max_formula_nesting_depth: value, ..self@ }),
    {
        let mut limits = self;
        limits.max_formula_nesting_depth = nonzero(CalculationLimitKind::FormulaNestingDepth.detail(), value)?;
        Ok(limits)
    }

    /// Replaces the workbook-wide dependency-edge limit.
    ///
    /// Fails with `CalculationOptionsError::ZeroLimit` when `value` is zero.
    pub fn with_max_dependency_edges(self, value: u64) -> (r: Result<Self, CalculationOptionsError>)
        ensures
            value == 0 ==> (r matches Err(e) && e.is_zero_limit_for(CalculationLimitKind::DependencyEdges)),
            value != 0 ==> (r matches Ok(l) && l@ == LimitsModel { max_dependency_edges: value, ..self@ }),
    {
        let mut limits = self;
        limits.max_dependency_edges = nonzero(CalculationLimitKind::DependencyEdges.detail(), value)?;
        Ok(limits)
    }

    /// Replaces the per-operation array-cell limit.
    ///
    /// Fails with `CalculationOptionsError::ZeroLimit` when `value` is zero.
    pub fn with_max_array_cells(self, value: u64) -> (r: Result<Self, CalculationOptionsError>)
        ensures
            value == 0 ==> (r matches Err(e) && e.is_zero_limit_for(CalculationLimitKind::ArrayCells)),
            value != 0 ==> (r matches Ok(l) && l@ == LimitsModel { max_array_cells: value, ..self@ }),
    {
        let mut limits = self;
        limits.max_array_cells = nonzero(CalculationLimitKind::ArrayCells.detail(), value)?;
        Ok(limits)
    }

    /// Replaces the calculated text-value byte limit.
    ///
    /// Fails with `CalculationOptionsError::ZeroLimit` when `value` is zero.
    pub fn with_max_text_bytes(self, value: u64) -> (r: Result<Self, CalculationOptionsError>)
        ensures
            value == 0 ==> (r matches Err(e) && e.is_zero_limit_for(CalculationLimitKind::TextBytes)),
            value != 0 ==> (r matches Ok(l) && l@ == LimitsModel { max_text_bytes: value, ..self@ }),
    {
        let mut limits = self;
        limits.max_text_bytes = nonzero(CalculationLimitKind::TextBytes.detail(), value)?;
        Ok(limits)
    }

    /// Replaces the per-function data-dependent iteration limit.
    ///
    /// Fails with `CalculationOptionsError::ZeroLimit` when `value` is zero.
    pub fn with_max_function_iterations(self, value: u64) -> (r: Result<Self, CalculationOptionsError>)
        ensures
            value == 0 ==> (r matches Err(e) && e.is_zero_limit_for(CalculationLimitKind::FunctionIterations)),
            value != 0 ==> (r matches Ok(l) && l@ == LimitsModel { max_function_iterations: value, ..self@ }),
    {
        let mut limits = self;
        limits.max_function_iterations = nonzero(CalculationLimitKind::FunctionIterations.detail(), value)?;
        Ok(limits)
    }

    /// Replaces the name/value pair limit for one `LET` expression.
    ///
    /// Fails with `CalculationOptionsError::ZeroLimit` when `value` is zero.
    pub fn with_max_let_bindings(self, value: u64) -> (r: Result<Self, CalculationOptionsError>)
        ensures
            value == 0 ==> (r matches Err(e) && e.is_zero_limit_for(CalculationLimitKind::LetBindings)),
            value != 0 ==> (r matches Ok(l) && l@ == LimitsModel { max_let_bindings: value, ..self@ }),
    {
        let mut limits = self;
        limits.max_let_bindings = nonzero(CalculationLimitKind::LetBindings.detail(), value)?;
        Ok(limits)
    }

    /// Replaces the active lambda-body depth limit for one cell evaluation.
    ///
    /// Fails with `CalculationOptionsError::ZeroLimit` when `value` is zero.
    pub fn with_max_lambda_depth(self, value: u64) -> (r: Result<Self, CalculationOptionsError>)
        ensures
            value == 0 ==> (r matches Err(e) && e.is_zero_limit_for(CalculationLimitKind::LambdaDepth)),
            value != 0 ==> (r matches Ok(l) && l@ == LimitsModel { max_lambda_depth: value, ..self@ }),
    {
        let mut limits = self;
        limits.max_lambda_depth = nonzero(CalculationLimitKind::LambdaDepth.detail(), value)?;
        Ok(limits)
    }

    /// Replaces the cumulative lambda-body invocation limit for one cell evaluation.
    ///
    /// Fails with `CalculationOptionsError::ZeroLimit` when `value` is zero.
    pub fn with_max_lambda_invocations(self, value: u64) -> (r: Result<Self, CalculationOptionsError>)
        ensures
            value == 0 ==> (r matches Err(e) && e.is_zero_limit_for(CalculationLimitKind::LambdaInvocations)),
            value != 0 ==> (r matches Ok(l) && l@ == LimitsModel { max_lambda_invocations: value, ..self@ }),
    {
        let mut limits = self;
        limits.max_lambda_invocations = nonzero(CalculationLimitKind::LambdaInvocations.detail(), value)?;
        Ok(limits)
    }

    /// Whether every limit is non-zero, as every constructor guarantees.
    pub open spec fn valid(self) -> bool {
        &&& self@.max_formula_tokens > 0
        &&& self@.max_formula_source_bytes > 0
        &&& self@.max_formula_ast_nodes > 0
        &&& self@.max_formula_nesting_depth > 0
        &&& self@.max_dependency_edges > 0
        &&& self@.max_array_cells > 0
        &&& self@.max_text_bytes > 0
        &&& self@.max_function_iterations > 0
        &&& self@.max_let_bindings > 0
        &&& self@.max_lambda_depth > 0
        &&& self@.max_lambda_invocations > 0
    }
}

impl Default for CalculationLimits {
    fn default() -> (r: Self)
        ensures
            r@ == CalculationLimits::default_model(),
            r@.max_formula_tokens == 8_192,
            r@.max_formula_source_bytes == 1024 * 1024,
            r@.max_formula_ast_nodes == 8_192,
            r@.max_formula_nesting_depth == 256,
            r@.max_dependency_edges == 10_000_000,
            r@.max_array_cells == 1_000_000,
            r@.max_text_bytes == 32_767,
            r@.max_function_iterations == 1_000_000,
            r@.max_let_bindings == 126,
            r@.max_lambda_depth == 256,
            r@.max_lambda_invocations == 1_000_000,
    {
        CalculationLimits {
            max_formula_tokens: 8_192,
            max_formula_source_bytes: 1024 * 1024,
            max_formula_ast_nodes: 8_192,
            max_formula_nesting_depth: 256,
            max_dependency_edges: 10_000_000,
            max_array_cells: 1_000_000,
            max_text_bytes: 32_767,
            max_function_iterations: 1_000_000,
            max_let_bindings: 126,
            max_lambda_depth: 256,
            max_lambda_invocations: 1_000_000,
        }
    }
}

} // verus!
