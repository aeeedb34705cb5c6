//! Formula calculation issues, capability and function-usage reports, options, and results.
use vstd::prelude::*;

use crate::cell::{CalculationCellId, CellRange};
use crate::limits::CalculationLimits;
use crate::value::ErrorKind;

verus! {

/// A finite IEEE-754 double, kept as its bit pattern.
///
/// Callers convert with `f64::to_bits` and `f64::from_bits`; negative zero is expected to be
/// normalized to positive zero so that equal numbers have equal bits.
#[derive(Debug, Clone, Copy, PartialEq, Eq, Hash, Structural)]
pub struct FiniteNumber {
    bits: u64,
}

/// Whether a double bit pattern encodes a finite number (its exponent field is not all ones).
pub open spec fn finite_bits(bits: u64) -> bool {
    (bits / 0x10_0000_0000_0000) % 0x800 != 0x7FF
}

impl View for FiniteNumber {
    type V = u64;

    closed spec fn view(&self) -> u64 {
        self.bits
    }
}

impl FiniteNumber {
    #[verifier::type_invariant]
    spec fn is_finite(self) -> bool {
        finite_bits(self.bits)
    }

    /// Accepts the bit pattern of a finite double; infinities and NaNs are rejected.
    pub fn from_bits(bits: u64) -> (r: Option<FiniteNumber>)
        ensures
            r is Some <==> finite_bits(bits),
            r matches Some(n) ==> n@ == bits,
    {
        if (bits / 0x10_0000_0000_0000) % 0x800 != 0x7FF {
            Some(FiniteNumber { bits })
        } else {
            None
        }
    }

    /// Returns the bit pattern of the number.
    pub fn to_bits(self) -> (r: u64)
        ensures
            r == self@,
            finite_bits(r),
    {
        proof {
            use_type_invariant(&self);
        }
        self.bits
    }
}

/// A typed cell value.
#[derive(Debug, Clone, PartialEq)]
pub enum CellValue {
    Empty,
    Number(FiniteNumber),
    Text(String),
    Logical(bool),
    Error(ErrorKind),
}

/// Mathematical model of a cell value.
pub enum CellValueModel {
    Empty,
    Number(u64),
    Text(Seq<char>),
    Logical(bool),
    Error(ErrorKind),
}

impl View for CellValue {
    type V = CellValueModel;

    open spec fn view(&self) -> CellValueModel {
        match self {
            CellValue::Empty => CellValueModel::Empty,
            CellValue::Number(n) => CellValueModel::Number(n@),
            CellValue::Text(t) => CellValueModel::Text(t@),
            CellValue::Logical(b) => CellValueModel::Logical(*b),
            CellValue::Error(e) => CellValueModel::Error(*e),
        }
    }
}

impl CellValue {
    /// Returns an equal copy of the value.
    pub fn duplicate(&self) -> (r: CellValue)
        ensures
            r == *self,
            r@ == self@,
    {
        match self {
            CellValue::Empty => CellValue::Empty,
            CellValue::Number(n) => CellValue::Number(*n),
            CellValue::Text(t) => CellValue::Text(t.clone()),
            CellValue::Logical(b) => CellValue::Logical(*b),
            CellValue::Error(e) => CellValue::Error(*e),
        }
    }

    /// Whether two values are equal.
    pub fn same_as(&self, other: &CellValue) -> (r: bool)
        ensures
            r == (self@ == other@),
    {
        match (self, other) {
            (CellValue::Empty, CellValue::Empty) => true,
            (CellValue::Number(a), CellValue::Number(b)) => a.to_bits() == b.to_bits(),
            (CellValue::Text(a), CellValue::Text(b)) => crate::text::str_equal(a.as_str(), b.as_str()),
            (CellValue::Logical(a), CellValue::Logical(b)) => *a == *b,
            (CellValue::Error(a), CellValue::Error(b)) => *a == *b,
            _ => false,
        }
    }
}

/// Stable machine-readable reason that a formula was not calculated.
#[derive(Debug, Clone, Copy, PartialEq, Eq, PartialOrd, Ord, Hash, Structural)]
#[non_exhaustive]
pub enum CalculationIssueCode {
    /// The workbook contains formula metadata without formula text.
    MissingFormulaText,
    /// Formula text is outside the supported grammar.
    ParseError,
    /// The parsed formula calls a function without an implemented kernel.
    UnsupportedFunction,
    /// A referenced defined name cannot be resolved or evaluated.
    UnsupportedName,
    /// A reference spans a 3-D sheet range, for example `Sheet1:Sheet3!A1`.
    UnsupportedSheetRange,
    /// A structured table reference reached a context without resolvable table geometry.
    UnsupportedStructuredReference,
    /// A parsed expression is not supported by the current engine.
    UnsupportedExpression,
    /// Formula parsing, dependency scheduling, or array evaluation exceeded a configured limit.
    ResourceLimitExceeded,
    /// A supported volatile function lacks an explicit deterministic input.
    VolatileInputMissing,
    /// The formula belongs to a dependency cycle.
    CircularReference,
    /// An upstream formula did not produce a value.
    BlockedByUpstream,
}

impl CalculationIssueCode {
    /// The stable dotted identifier of a code.
    pub open spec fn as_str_spec(self) -> Seq<char> {
        match self {
            CalculationIssueCode::MissingFormulaText => "calculation.missing_formula_text"@,
            CalculationIssueCode::ParseError => "calculation.parse_error"@,
            CalculationIssueCode::UnsupportedFunction => "calculation.unsupported_function"@,
            CalculationIssueCode::UnsupportedName => "calculation.unsupported_name"@,
            CalculationIssueCode::UnsupportedSheetRange => "calculation.unsupported_sheet_range"@,
            CalculationIssueCode::UnsupportedStructuredReference => "calculation.unsupported_structured_reference"@,
            CalculationIssueCode::UnsupportedExpression => "calculation.unsupported_expression"@,
            CalculationIssueCode::ResourceLimitExceeded => "calculation.resource_limit_exceeded"@,
            CalculationIssueCode::VolatileInputMissing => "calculation.volatile_input_missing"@,
            CalculationIssueCode::CircularReference => "calculation.circular_reference"@,
            CalculationIssueCode::BlockedByUpstream => "calculation.blocked_by_upstream"@,
        }
    }

    /// Returns the stable dotted identifier used in reports and logs.
    pub fn as_str(self) -> (r: &'static str)
        ensures
            r@ == self.as_str_spec(),
    {
        match self {
            CalculationIssueCode::MissingFormulaText => "calculation.missing_formula_text",
            CalculationIssueCode::ParseError => "calculation.parse_error",
            CalculationIssueCode::UnsupportedFunction => "calculation.unsupported_function",
            CalculationIssueCode::UnsupportedName => "calculation.unsupported_name",
            CalculationIssueCode::UnsupportedSheetRange => "calculation.unsupported_sheet_range",
            CalculationIssueCode::UnsupportedStructuredReference => "calculation.unsupported_structured_reference",
            CalculationIssueCode::UnsupportedExpression => "calculation.unsupported_expression",
            CalculationIssueCode::ResourceLimitExceeded => "calculation.resource_limit_exceeded",
            CalculationIssueCode::VolatileInputMissing => "calculation.volatile_input_missing",
            CalculationIssueCode::CircularReference => "calculation.circular_reference",
            CalculationIssueCode::BlockedByUpstream => "calculation.blocked_by_upstream",
        }
    }

    /// The shared human-readable message of a code.
    pub open spec fn message_spec(self) -> Seq<char> {
        match self {
            CalculationIssueCode::MissingFormulaText => "formula metadata has no formula text"@,
            CalculationIssueCode::ParseError => "formula text could not be parsed"@,
            CalculationIssueCode::UnsupportedFunction => "formula calls a function without a calculation kernel"@,
            CalculationIssueCode::UnsupportedName => "formula references a name that cannot be resolved"@,
            CalculationIssueCode::UnsupportedSheetRange => "formula references a 3-D sheet range"@,
            CalculationIssueCode::UnsupportedStructuredReference => "formula references a table without resolvable geometry"@,
            CalculationIssueCode::UnsupportedExpression => "formula uses an unsupported expression"@,
            CalculationIssueCode::ResourceLimitExceeded => "formula exceeded a calculation resource limit"@,
            CalculationIssueCode::VolatileInputMissing => "volatile function has no deterministic input"@,
            CalculationIssueCode::CircularReference => "formula belongs to a dependency cycle"@,
            CalculationIssueCode::BlockedByUpstream => "an upstream formula did not produce a value"@,
        }
    }

    /// Returns the shared human-readable message.
    pub fn message(self) -> (r: &'static str)
        ensures
            r@ == self.message_spec(),
    {
        match self {
            CalculationIssueCode::MissingFormulaText => "formula metadata has no formula text",
            CalculationIssueCode::ParseError => "formula text could not be parsed",
            CalculationIssueCode::UnsupportedFunction => "formula calls a function without a calculation kernel",
            CalculationIssueCode::UnsupportedName => "formula references a name that cannot be resolved",
            CalculationIssueCode::UnsupportedSheetRange => "formula references a 3-D sheet range",
            CalculationIssueCode::UnsupportedStructuredReference => "formula references a table without resolvable geometry",
            CalculationIssueCode::UnsupportedExpression => "formula uses an unsupported expression",
            CalculationIssueCode::ResourceLimitExceeded => "formula exceeded a calculation resource limit",
            CalculationIssueCode::VolatileInputMissing => "volatile function has no deterministic input",
            CalculationIssueCode::CircularReference => "formula belongs to a dependency cycle",
            CalculationIssueCode::BlockedByUpstream => "an upstream formula did not produce a value",
        }
    }
}

/// A structured formula calculation issue with optional source-specific detail.
#[derive(Debug, Clone, PartialEq, Eq)]
pub struct CalculationIssue {
    code: CalculationIssueCode,
    detail: Option<String>,
}

impl CalculationIssue {
    pub closed spec fn code_spec(self) -> CalculationIssueCode {
        self.code
    }

    pub closed spec fn detail_spec(self) -> Option<String> {
        self.detail
    }

    /// Builds an issue with an optional detail.
    pub fn new(code: CalculationIssueCode, detail: Option<String>) -> (r: Self)
        ensures
            r.code_spec() == code,
            r.detail_spec() == detail,
    {
        CalculationIssue { code, detail }
    }

    /// Returns the stable issue code.
    pub fn code(&self) -> (r: CalculationIssueCode)
        ensures
            r == self.code_spec(),
    {
        self.code
    }

    /// Returns source-specific context such as a function name or parser position.
    pub fn detail(&self) -> (r: Option<&str>)
        ensures
            match r {
                Some(v) => self.detail_spec() matches Some(s) && v@ == s@,
                None => self.detail_spec() is None,
            },
    {
        match &self.detail {
            Some(v) => Some(v.as_str()),
            None => None,
        }
    }

}

impl CalculationIssue {
    /// Returns the shared human-readable message.
    pub fn message(&self) -> (r: &'static str)
        ensures
            r@ == self.code_spec().message_spec(),
    {
        self.code.message()
    }

    /// Whether two issues have the same code and detail.
    pub open spec fn same_issue(self, other: CalculationIssue) -> bool {
        &&& self.code_spec() == other.code_spec()
        &&& match (self.detail_spec(), other.detail_spec()) {
            (None, None) => true,
            (Some(a), Some(b)) => a@ == b@,
            _ => false,
        }
    }

    /// Returns an equal copy of the issue.
    pub fn duplicate(&self) -> (r: CalculationIssue)
        ensures
            r == *self,
            r.same_issue(*self),
    {
        let detail = match &self.detail {
            Some(d) => Some(d.clone()),
            None => None,
        };
        CalculationIssue { code: self.code, detail }
    }

    /// Compares two issues by code and detail.
    pub fn same_as(&self, other: &CalculationIssue) -> (r: bool)
        ensures
            r == self.same_issue(*other),
    {
        if self.code != other.code {
            return false;
        }
        match (&self.detail, &other.detail) {
            (None, None) => true,
            (Some(a), Some(b)) => crate::text::str_equal(a.as_str(), b.as_str()),
            _ => false,
        }
    }
}

/// Static grammar and function-surface capability for one formula.
#[derive(Debug, Clone, PartialEq, Eq)]
pub enum FormulaCapability {
    /// The formula grammar and referenced function surface are supported.
    Supported,
    /// One or more capabilities required by the formula are unavailable.
    Unsupported(Vec<CalculationIssue>),
}

/// Capability status for one formula cell.
#[derive(Debug, Clone, PartialEq, Eq)]
pub struct FormulaCapabilityEntry {
    cell: CalculationCellId,
    capability: FormulaCapability,
}

impl FormulaCapabilityEntry {
    pub closed spec fn cell_spec(self) -> CalculationCellId {
        self.cell
    }

    pub closed spec fn capability_spec(self) -> FormulaCapability {
        self.capability
    }

    /// Builds the entry for one formula cell.
    pub fn new(cell: CalculationCellId, capability: FormulaCapability) -> (r: Self)
        ensures
            r.cell_spec() == cell,
            r.capability_spec() == capability,
    {
        FormulaCapabilityEntry { cell, capability }
    }

    /// Returns the formula cell identity.
    pub fn cell(&self) -> (r: CalculationCellId)
        ensures
            r == self.cell_spec(),
    {
        self.cell
    }

    /// Returns the formula's capability status.
    pub fn capability(&self) -> (r: &FormulaCapability)
        ensures
            *r == self.capability_spec(),
    {
        &self.capability
    }

}

/// Number of entries in `entries` whose capability is `Supported`.
pub open spec fn supported_entries(entries: Seq<FormulaCapabilityEntry>) -> nat
    decreases entries.len(),
{
    if entries.len() == 0 {
        0
    } else {
        supported_entries(entries.drop_last()) + if entries.last().capability_spec() is Supported {
            1nat
        } else {
            0nat
        }
    }
}

/// Deterministically ordered capability report for all formula cells.
#[derive(Debug, Clone, PartialEq, Eq)]
pub struct FormulaCapabilityReport {
    entries: Vec<FormulaCapabilityEntry>,
}

impl FormulaCapabilityReport {
    pub closed spec fn entries_spec(self) -> Seq<FormulaCapabilityEntry> {
        self.entries@
    }

    /// Builds the report.
    pub fn new(entries: Vec<FormulaCapabilityEntry>) -> (r: Self)
        ensures
            r.entries_spec() == entries@,
    {
        FormulaCapabilityReport { entries }
    }

    /// Returns entries in workbook sheet order and row-major cell order.
    pub fn entries(&self) -> (r: &[FormulaCapabilityEntry])
        ensures
            r@ == self.entries_spec(),
    {
        self.entries.as_slice()
    }

    /// Returns the total number of formula cells scanned.
    pub fn formula_count(&self) -> (r: usize)
        ensures
            r == self.entries_spec().len(),
    {
        self.entries.len()
    }

    /// Returns the number of formulas accepted by the static capability scan.
    pub fn supported_count(&self) -> (r: usize)
        ensures
            r == supported_entries(self.entries_spec()),
            r <= self.entries_spec().len(),
    {
        let mut count: usize = 0;
        let mut i: usize = 0;
        while i < self.entries.len()
            invariant
                i <= self.entries@.len(),
                count == supported_entries(self.entries@.take(i as int)),
                count <= i,
            decreases self.entries.len() - i,
        {
            assert(self.entries@.take(i + 1).drop_last() =~= self.entries@.take(i as int));
            if matches!(self.entries[i].capability(), FormulaCapability::Supported) {
                count = count + 1;
            }
            i = i + 1;
        }
        assert(self.entries@.take(self.entries@.len() as int) =~= self.entries@);
        count
    }

    /// Returns the number of formulas requiring unsupported capabilities.
    pub fn unsupported_count(&self) -> (r: usize)
        ensures
            r == self.entries_spec().len() - supported_entries(self.entries_spec()),
    {
        self.entries.len() - self.supported_count()
    }

    /// Returns whether every formula passed the capability scan.
    pub fn is_supported(&self) -> (r: bool)
        ensures
            r == (supported_entries(self.entries_spec()) == self.entries_spec().len()),
    {
        self.supported_count() == self.entries.len()
    }
}

/// Whether a function name found in a workbook is implemented by the current engine.
#[derive(Debug, Clone, Copy, PartialEq, Eq, Hash, Structural)]
pub enum FunctionSupport {
    /// The normalized function name is connected to a validated calculation kernel.
    Supported,
    /// The function is syntactically valid but has no calculation kernel.
    Unsupported,
}

/// One deterministic entry in the supported function catalog.
#[derive(Debug, Clone, PartialEq, Eq)]
pub struct FunctionCatalogEntry {
    name: String,
    canonical_name: String,
    alias: bool,
    array_result: bool,
    official: bool,
}

impl FunctionCatalogEntry {
    pub closed spec fn name_spec(self) -> String {
        self.name
    }

    pub closed spec fn canonical_name_spec(self) -> String {
        self.canonical_name
    }

    pub closed spec fn alias_spec(self) -> bool {
        self.alias
    }

    pub closed spec fn array_result_spec(self) -> bool {
        self.array_result
    }

    pub closed spec fn official_spec(self) -> bool {
        self.official
    }

    /// Builds one catalog entry.
    pub fn new(name: String, canonical_name: String, alias: bool, array_result: bool, official: bool) -> (r: Self)
        ensures
            r.name_spec() == name,
            r.canonical_name_spec() == canonical_name,
            r.alias_spec() == alias,
            r.array_result_spec() == array_result,
            r.official_spec() == official,
    {
        FunctionCatalogEntry { name, canonical_name, alias, array_result, official }
    }

    /// Returns the accepted Excel-facing name.
    pub fn name(&self) -> (r: &str)
        ensures
            r@ == self.name_spec()@,
    {
        self.name.as_str()
    }

    /// Returns the calculation kernel name after prefix and legacy-alias normalization.
    pub fn canonical_name(&self) -> (r: &str)
        ensures
            r@ == self.canonical_name_spec()@,
    {
        self.canonical_name.as_str()
    }

    /// Returns whether this entry is a legacy compatibility alias.
    pub fn is_alias(&self) -> (r: bool)
        ensures
            r == self.alias_spec(),
    {
        self.alias
    }

    /// Returns whether the kernel can produce a multi-cell array result.
    pub fn returns_array(&self) -> (r: bool)
        ensures
            r == self.array_result_spec(),
    {
        self.array_result
    }

    /// Returns whether the name belongs to the tracked Microsoft function-list snapshot.
    pub fn is_official(&self) -> (r: bool)
        ensures
            r == self.official_spec(),
    {
        self.official
    }

}

/// Aggregated use of one normalized function name in a workbook.
#[derive(Debug, Clone, PartialEq, Eq)]
pub struct FunctionUsageEntry {
    name: String,
    support: FunctionSupport,
    call_count: u64,
    formula_count: u64,
    sample_cells: Vec<CalculationCellId>,
}

impl FunctionUsageEntry {
    pub closed spec fn name_spec(self) -> String {
        self.name
    }

    pub closed spec fn support_spec(self) -> FunctionSupport {
        self.support
    }

    pub closed spec fn call_count_spec(self) -> u64 {
        self.call_count
    }

    pub closed spec fn formula_count_spec(self) -> u64 {
        self.formula_count
    }

    pub closed spec fn sample_cells_spec(self) -> Vec<CalculationCellId> {
        self.sample_cells
    }

    /// Builds one usage entry.
    pub fn new(name: String, support: FunctionSupport, call_count: u64, formula_count: u64, sample_cells: Vec<CalculationCellId>) -> (r: Self)
        ensures
            r.name_spec() == name,
            r.support_spec() == support,
            r.call_count_spec() == call_count,
            r.formula_count_spec() == formula_count,
            r.sample_cells_spec() == sample_cells,
    {
        FunctionUsageEntry { name, support, call_count, formula_count, sample_cells }
    }

    /// Returns the normalized uppercase function name.
    pub fn name(&self) -> (r: &str)
        ensures
            r@ == self.name_spec()@,
    {
        self.name.as_str()
    }

    /// Returns whether the current engine implements the function.
    pub fn support(&self) -> (r: FunctionSupport)
        ensures
            r == self.support_spec(),
    {
        self.support
    }

    /// Returns the total number of calls, including repeated calls in one formula.
    pub fn call_count(&self) -> (r: u64)
        ensures
            r == self.call_count_spec(),
    {
        self.call_count
    }

    /// Returns the number of distinct formula cells containing the function.
    pub fn formula_count(&self) -> (r: u64)
        ensures
            r == self.formula_count_spec(),
    {
        self.formula_count
    }

    /// Returns up to eight deterministic formula-cell samples.
    pub fn sample_cells(&self) -> (r: &[CalculationCellId])
        ensures
            r@ == self.sample_cells_spec()@,
    {
        self.sample_cells.as_slice()
    }

}

/// Workbook-level function demand report for prioritizing compatibility work.
#[derive(Debug, PartialEq, Eq)]
pub struct FunctionUsageReport {
    entries: Vec<FunctionUsageEntry>,
    formula_count: usize,
    parsed_formula_count: usize,
}

impl Clone for FunctionUsageReport {
    fn clone(&self) -> (r: Self)
        ensures
            r.formula_count_spec() == self.formula_count_spec(),
            r.parsed_formula_count_spec() == self.parsed_formula_count_spec(),
    {
        FunctionUsageReport {
            entries: self.entries.clone(),
            formula_count: self.formula_count,
            parsed_formula_count: self.parsed_formula_count,
        }
    }
}

impl FunctionUsageReport {
    pub closed spec fn entries_spec(self) -> Seq<FunctionUsageEntry> {
        self.entries@
    }

    pub closed spec fn formula_count_spec(self) -> usize {
        self.formula_count
    }

    pub closed spec fn parsed_formula_count_spec(self) -> usize {
        self.parsed_formula_count
    }

    /// Builds the report.
    pub fn new(entries: Vec<FunctionUsageEntry>, formula_count: usize, parsed_formula_count: usize) -> (r: Self)
        ensures
            r.entries_spec() == entries@,
            r.formula_count_spec() == formula_count,
            r.parsed_formula_count_spec() == parsed_formula_count,
    {
        FunctionUsageReport { entries, formula_count, parsed_formula_count }
    }

    /// Returns entries ordered by normalized function name.
    pub fn entries(&self) -> (r: &[FunctionUsageEntry])
        ensures
            r@ == self.entries_spec(),
    {
        self.entries.as_slice()
    }

    /// Returns the number of formula cells inspected.
    pub fn formula_count(&self) -> (r: usize)
        ensures
            r == self.formula_count_spec(),
    {
        self.formula_count
    }

    /// Returns the number of formulas whose syntax could be analyzed.
    pub fn parsed_formula_count(&self) -> (r: usize)
        ensures
            r == self.parsed_formula_count_spec(),
    {
        self.parsed_formula_count
    }

    /// Returns the number of formulas excluded from usage counts by a parse failure.
    pub fn unparsed_formula_count(&self) -> (r: usize)
        requires
            self.parsed_formula_count_spec() <= self.formula_count_spec(),
        ensures
            r == self.formula_count_spec() - self.parsed_formula_count_spec(),
    {
        self.formula_count - self.parsed_formula_count
    }

    /// Returns whether every observed function name has an implemented kernel.
    pub fn is_fully_supported(&self) -> (r: bool)
        ensures
            r == (forall|i: int| 0 <= i < self.entries_spec().len() ==> #[trigger] self.entries_spec()[i].support_spec() == FunctionSupport::Supported),
    {
        let mut i: usize = 0;
        while i < self.entries.len()
            invariant
                i <= self.entries@.len(),
                forall|j: int| 0 <= j < i ==> #[trigger] self.entries@[j].support_spec() == FunctionSupport::Supported,
            decreases self.entries.len() - i,
        {
            if self.entries[i].support() != FunctionSupport::Supported {
                return false;
            }
            i = i + 1;
        }
        true
    }
}

/// How arithmetic treats Excel's narrow near-zero cancellation case.
#[derive(Debug, Clone, Copy, PartialEq, Eq, Hash, Structural)]
#[non_exhaustive]
pub enum ArithmeticSemantics {
    /// Apply Excel's observed relative correction when an exact trace proves cancellation.
    ExcelNearZero,
    /// Return the IEEE-754 result unchanged.
    Ieee754,
}

impl Default for ArithmeticSemantics {
    fn default() -> (r: Self)
        ensures
            r == ArithmeticSemantics::ExcelNearZero,
    {
        ArithmeticSemantics::ExcelNearZero
    }
}

/// How the iterative financial solvers decide they have failed.
#[derive(Debug, Clone, Copy, PartialEq, Eq, Hash, Structural)]
#[non_exhaustive]
pub enum FinancialSolverSemantics {
    /// Stop at the iteration budget and tolerance Microsoft documents per function.
    ExcelIterationBudget,
    /// Search longer and converge tighter than Excel.
    ExtendedSearch,
}

impl Default for FinancialSolverSemantics {
    fn default() -> (r: Self)
        ensures
            r == FinancialSolverSemantics::ExcelIterationBudget,
    {
        FinancialSolverSemantics::ExcelIterationBudget
    }
}

/// Deterministic inputs for volatile calculation behavior.
#[derive(Debug, Clone, Copy, PartialEq, Eq, Structural)]
pub struct CalculationOptions {
    today_serial: Option<FiniteNumber>,
    now_serial: Option<FiniteNumber>,
    limits: CalculationLimits,
    arithmetic: ArithmeticSemantics,
    financial_solver: FinancialSolverSemantics,
}

/// Mathematical model of calculation options.
pub struct OptionsModel {
    pub today_serial: Option<FiniteNumber>,
    pub now_serial: Option<FiniteNumber>,
    pub limits: CalculationLimits,
    pub arithmetic: ArithmeticSemantics,
    pub financial_solver: FinancialSolverSemantics,
}

impl View for CalculationOptions {
    type V = OptionsModel;

    closed spec fn view(&self) -> OptionsModel {
        OptionsModel {
            today_serial: self.today_serial,
            now_serial: self.now_serial,
            limits: self.limits,
            arithmetic: self.arithmetic,
            financial_solver: self.financial_solver,
        }
    }
}

impl Default for CalculationOptions {
    fn default() -> (r: Self)
        ensures
            r@.today_serial is None,
            r@.now_serial is None,
            r@.limits@ == CalculationLimits::default_model(),
            r@.arithmetic == ArithmeticSemantics::ExcelNearZero,
            r@.financial_solver == FinancialSolverSemantics::ExcelIterationBudget,
    {
        CalculationOptions {
            today_serial: None,
            now_serial: None,
            limits: CalculationLimits::default(),
            arithmetic: ArithmeticSemantics::default(),
            financial_solver: FinancialSolverSemantics::default(),
        }
    }
}

impl CalculationOptions {
    /// Whether two option sets are equal.
    pub fn same_as(&self, other: &CalculationOptions) -> (r: bool)
        ensures
            r == (self@ == other@),
    {
        *self == *other
    }

    /// Supplies the Excel serial date returned by `TODAY()`.
    pub fn with_today_serial(self, today_serial: FiniteNumber) -> (r: Self)
        ensures
            r@ == (OptionsModel { today_serial: Some(today_serial), ..self@ }),
    {
        CalculationOptions { today_serial: Some(today_serial), ..self }
    }

    /// Returns the configured deterministic `TODAY()` value, when present.
    pub fn today_serial(self) -> (r: Option<FiniteNumber>)
        ensures
            r == self@.today_serial,
    {
        self.today_serial
    }

    /// Supplies the Excel date-time serial returned by `NOW()`.
    pub fn with_now_serial(self, now_serial: FiniteNumber) -> (r: Self)
        ensures
            r@ == (OptionsModel { now_serial: Some(now_serial), ..self@ }),
    {
        CalculationOptions { now_serial: Some(now_serial), ..self }
    }

    /// Returns the configured deterministic `NOW()` value, when present.
    pub fn now_serial(self) -> (r: Option<FiniteNumber>)
        ensures
            r == self@.now_serial,
    {
        self.now_serial
    }

    /// Replaces the formula calculation resource limits.
    pub fn with_limits(self, limits: CalculationLimits) -> (r: Self)
        ensures
            r@ == (OptionsModel { limits, ..self@ }),
    {
        CalculationOptions { limits, ..self }
    }

    /// Returns the configured formula calculation resource limits.
    pub fn limits(self) -> (r: CalculationLimits)
        ensures
            r == self@.limits,
    {
        self.limits
    }

    /// Selects how a cancelling sum or difference is treated.
    pub fn with_arithmetic_semantics(self, arithmetic: ArithmeticSemantics) -> (r: Self)
        ensures
            r@ == (OptionsModel { arithmetic, ..self@ }),
    {
        CalculationOptions { arithmetic, ..self }
    }

    /// Returns the configured near-zero arithmetic policy.
    pub fn arithmetic_semantics(self) -> (r: ArithmeticSemantics)
        ensures
            r == self@.arithmetic,
    {
        self.arithmetic
    }

    /// Selects how the iterative financial solvers decide they have failed.
    pub fn with_financial_solver_semantics(self, financial_solver: FinancialSolverSemantics) -> (r: Self)
        ensures
            r@ == (OptionsModel { financial_solver, ..self@ }),
    {
        CalculationOptions { financial_solver, ..self }
    }

    /// Returns the configured financial solver policy.
    pub fn financial_solver_semantics(self) -> (r: FinancialSolverSemantics)
        ensures
            r == self@.financial_solver,
    {
        self.financial_solver
    }
}

/// Result of calculating one formula cell.
#[derive(Debug, Clone, PartialEq)]
pub enum CalculationCellResult {
    /// A typed Excel-compatible value was produced.
    Value(CellValue),
    /// Calculation was deliberately withheld with a structured reason.
    Unavailable(CalculationIssue),
}

impl CalculationCellResult {
    /// Whether two results are equal.
    pub open spec fn same_result(self, other: CalculationCellResult) -> bool {
        match (self, other) {
            (CalculationCellResult::Value(a), CalculationCellResult::Value(b)) => a@ == b@,
            (CalculationCellResult::Unavailable(a), CalculationCellResult::Unavailable(b)) => a.same_issue(b),
            _ => false,
        }
    }

    /// Returns an equal copy of the result.
    pub fn duplicate(&self) -> (r: CalculationCellResult)
        ensures
            r == *self,
            r.same_result(*self),
    {
        match self {
            CalculationCellResult::Value(v) => CalculationCellResult::Value(v.duplicate()),
            CalculationCellResult::Unavailable(i) => CalculationCellResult::Unavailable(i.duplicate()),
        }
    }

    /// Compares two results.
    pub fn same_as(&self, other: &CalculationCellResult) -> (r: bool)
        ensures
            r == self.same_result(*other),
    {
        match (self, other) {
            (CalculationCellResult::Value(a), CalculationCellResult::Value(b)) => a.same_as(b),
            (CalculationCellResult::Unavailable(a), CalculationCellResult::Unavailable(b)) => a.same_as(b),
            _ => false,
        }
    }
}

/// Why a calculated cell is present in the complete materialization view.
#[derive(Debug, Clone, Copy, PartialEq, Eq, Hash, Structural)]
#[non_exhaustive]
pub enum MaterializedResultOrigin {
    /// The cell directly stores a formula.
    DirectFormula,
    /// The cell belongs to a declared legacy array formula result region.
    LegacyArray {
        /// Formula cell that owns the array result region.
        anchor: CalculationCellId,
        /// Complete declared result region.
        range: CellRange,
    },
    /// The cell belongs to a calculated dynamic spill result.
    DynamicSpill {
        /// Formula cell that owns the dynamic result region.
        anchor: CalculationCellId,
        /// Complete resolved spill region.
        range: CellRange,
    },
}

/// One typed or unavailable result in the complete calculation materialization view.
#[derive(Debug, Clone, PartialEq)]
pub struct MaterializedCalculationCell {
    origin: MaterializedResultOrigin,
    result: CalculationCellResult,
}

impl MaterializedCalculationCell {
    pub closed spec fn origin_spec(self) -> MaterializedResultOrigin {
        self.origin
    }

    pub closed spec fn result_spec(self) -> CalculationCellResult {
        self.result
    }

    /// The materialized result with this origin and result.
    pub closed spec fn materialized_cell(origin: MaterializedResultOrigin, result: CalculationCellResult) -> Self {
        MaterializedCalculationCell { origin, result }
    }

    /// Builds one materialized result.
    pub fn new(origin: MaterializedResultOrigin, result: CalculationCellResult) -> (r: Self)
        ensures
            r.origin_spec() == origin,
            r.result_spec() == result,
            r == Self::materialized_cell(origin, result),
    {
        MaterializedCalculationCell { origin, result }
    }

    /// Returns why this cell is present in the materialization view.
    pub fn origin(&self) -> (r: MaterializedResultOrigin)
        ensures
            r == self.origin_spec(),
    {
        self.origin
    }

    /// Returns the typed value or the calculation issue that prevented one.
    pub fn result(&self) -> (r: &CalculationCellResult)
        ensures
            *r == self.result_spec(),
    {
        &self.result
    }

}

impl MaterializedCalculationCell {
    /// Whether two materialized results are equal.
    pub open spec fn same_cell(self, other: MaterializedCalculationCell) -> bool {
        self.origin_spec() == other.origin_spec() && self.result_spec().same_result(other.result_spec())
    }

    /// Returns an equal copy of the materialized result.
    pub fn duplicate(&self) -> (r: MaterializedCalculationCell)
        ensures
            r == *self,
    {
        MaterializedCalculationCell { origin: self.origin, result: self.result.duplicate() }
    }

    /// Compares two materialized results.
    pub fn same_as(&self, other: &MaterializedCalculationCell) -> (r: bool)
        ensures
            r == self.same_cell(*other),
    {
        self.origin == other.origin && self.result.same_as(&other.result)
    }
}

} // verus!
