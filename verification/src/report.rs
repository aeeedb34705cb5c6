//! Vocabulary of transaction impact reports: causes, changes, detail sections and items.
use vstd::prelude::*;

use crate::calculation::{CalculationCellResult, CalculationIssue, MaterializedResultOrigin};
use crate::cell::CalculationCellId;

verus! {

/// Version of the transaction report and cursor contract.
pub const TRANSACTION_REPORT_CONTRACT_VERSION: u16 = 1;

/// Completeness of the semantic affected-formula set.
#[derive(Debug, Clone, Copy, PartialEq, Eq, Hash, Structural)]
#[non_exhaustive]
pub enum TransactionImpactCoverage {
    /// The retained dependency graph proves a complete direct and transitive affected set.
    Exact,
    /// A topology or dynamic-dependency boundary requires a conservative full formula set.
    ConservativeFull,
}

/// Why one formula appears in the affected-formula section.
#[derive(Debug, Clone, Copy, PartialEq, Eq, Hash, Structural)]
#[non_exhaustive]
pub enum TransactionImpactCause {
    /// The formula directly reads a changed source or is itself changed.
    Direct,
    /// The formula depends transitively on a directly affected formula.
    Transitive,
    /// The formula is retained because the complete causal boundary cannot be proven.
    Conservative,
}

/// One formula in the bounded semantic impact report.
#[derive(Debug, Clone, Copy, PartialEq, Eq)]
pub struct TransactionAffectedFormula {
    cell: CalculationCellId,
    cause: TransactionImpactCause,
}

impl TransactionAffectedFormula {
    pub closed spec fn cell_spec(self) -> CalculationCellId {
        self.cell
    }

    pub closed spec fn cause_spec(self) -> TransactionImpactCause {
        self.cause
    }

    /// Builds one affected-formula entry.
    pub fn new(cell: CalculationCellId, cause: TransactionImpactCause) -> (r: Self)
        ensures
            r.cell_spec() == cell,
            r.cause_spec() == cause,
    {
        TransactionAffectedFormula { cell, cause }
    }

    /// Returns the affected formula cell.
    pub fn cell(&self) -> (r: CalculationCellId)
        ensures
            r == self.cell_spec(),
    {
        self.cell
    }

    /// Returns the formula's impact classification.
    pub fn cause(&self) -> (r: TransactionImpactCause)
        ensures
            r == self.cause_spec(),
    {
        self.cause
    }

}

/// One exact base-to-candidate materialized result change.
#[derive(Debug)]
pub struct TransactionResultChange {
    cell: CalculationCellId,
    previous_origin: Option<MaterializedResultOrigin>,
    previous_result: Option<CalculationCellResult>,
    result_origin: Option<MaterializedResultOrigin>,
    result: Option<CalculationCellResult>,
}

impl TransactionResultChange {
    pub closed spec fn cell_spec(self) -> CalculationCellId {
        self.cell
    }

    pub closed spec fn previous_origin_spec(self) -> Option<MaterializedResultOrigin> {
        self.previous_origin
    }

    pub closed spec fn previous_result_spec(self) -> Option<CalculationCellResult> {
        self.previous_result
    }

    pub closed spec fn result_origin_spec(self) -> Option<MaterializedResultOrigin> {
        self.result_origin
    }

    pub closed spec fn result_spec(self) -> Option<CalculationCellResult> {
        self.result
    }

    /// Builds one result change.
    pub fn new(cell: CalculationCellId, previous_origin: Option<MaterializedResultOrigin>, previous_result: Option<CalculationCellResult>, result_origin: Option<MaterializedResultOrigin>, result: Option<CalculationCellResult>) -> (r: Self)
        ensures
            r.cell_spec() == cell,
            r.previous_origin_spec() == previous_origin,
            r.previous_result_spec() == previous_result,
            r.result_origin_spec() == result_origin,
            r.result_spec() == result,
    {
        TransactionResultChange { cell, previous_origin, previous_result, result_origin, result }
    }

    /// Returns the changed materialized cell.
    pub fn cell(&self) -> (r: CalculationCellId)
        ensures
            r == self.cell_spec(),
    {
        self.cell
    }

    /// Returns the base materialization origin, or `None` when the cell was introduced.
    pub fn previous_origin(&self) -> (r: Option<MaterializedResultOrigin>)
        ensures
            r == self.previous_origin_spec(),
    {
        self.previous_origin
    }

    /// Returns the base typed result, or `None` when the cell was introduced.
    pub fn previous_result(&self) -> (r: Option<&CalculationCellResult>)
        ensures
            match r {
                Some(v) => self.previous_result_spec() == Some(*v),
                None => self.previous_result_spec() is None,
            },
    {
        match &self.previous_result {
            Some(v) => Some(v),
            None => None,
        }
    }

    /// Returns the candidate materialization origin, or `None` when the cell was removed.
    pub fn result_origin(&self) -> (r: Option<MaterializedResultOrigin>)
        ensures
            r == self.result_origin_spec(),
    {
        self.result_origin
    }

    /// Returns the candidate typed result, or `None` when the cell was removed.
    pub fn result(&self) -> (r: Option<&CalculationCellResult>)
        ensures
            match r {
                Some(v) => self.result_spec() == Some(*v),
                None => self.result_spec() is None,
            },
    {
        match &self.result {
            Some(v) => Some(v),
            None => None,
        }
    }

}

/// Classification of one exact calculation issue difference.
#[derive(Debug, Clone, Copy, PartialEq, Eq, Hash, Structural)]
#[non_exhaustive]
pub enum TransactionIssueChangeKind {
    /// The candidate introduced an issue where the base had none.
    Introduced,
    /// The candidate resolved an issue present in the base.
    Resolved,
    /// The candidate replaced one issue with a different issue.
    Changed,
}

/// One exact base-to-candidate calculation issue difference.
#[derive(Debug)]
pub struct TransactionIssueChange {
    cell: CalculationCellId,
    kind: TransactionIssueChangeKind,
    previous: Option<CalculationIssue>,
    current: Option<CalculationIssue>,
}

impl TransactionIssueChange {
    pub closed spec fn cell_spec(self) -> CalculationCellId {
        self.cell
    }

    pub closed spec fn kind_spec(self) -> TransactionIssueChangeKind {
        self.kind
    }

    pub closed spec fn previous_spec(self) -> Option<CalculationIssue> {
        self.previous
    }

    pub closed spec fn current_spec(self) -> Option<CalculationIssue> {
        self.current
    }

    /// Builds one issue change.
    pub fn new(cell: CalculationCellId, kind: TransactionIssueChangeKind, previous: Option<CalculationIssue>, current: Option<CalculationIssue>) -> (r: Self)
        ensures
            r.cell_spec() == cell,
            r.kind_spec() == kind,
            r.previous_spec() == previous,
            r.current_spec() == current,
    {
        TransactionIssueChange { cell, kind, previous, current }
    }

    /// Returns the cell whose issue changed.
    pub fn cell(&self) -> (r: CalculationCellId)
        ensures
            r == self.cell_spec(),
    {
        self.cell
    }

    /// Returns how the issue changed.
    pub fn kind(&self) -> (r: TransactionIssueChangeKind)
        ensures
            r == self.kind_spec(),
    {
        self.kind
    }

    /// Returns the base issue, when present.
    pub fn previous(&self) -> (r: Option<&CalculationIssue>)
        ensures
            match r {
                Some(v) => self.previous_spec() == Some(*v),
                None => self.previous_spec() is None,
            },
    {
        match &self.previous {
            Some(v) => Some(v),
            None => None,
        }
    }

    /// Returns the candidate issue, when present.
    pub fn current(&self) -> (r: Option<&CalculationIssue>)
        ensures
            match r {
                Some(v) => self.current_spec() == Some(*v),
                None => self.current_spec() is None,
            },
    {
        match &self.current {
            Some(v) => Some(v),
            None => None,
        }
    }

}

/// One exact result change that installation will append to calculation history.
#[derive(Debug)]
pub struct TransactionInstallResultChange {
    cell: CalculationCellId,
    origin: Option<MaterializedResultOrigin>,
    result: Option<CalculationCellResult>,
}

impl TransactionInstallResultChange {
    pub closed spec fn cell_spec(self) -> CalculationCellId {
        self.cell
    }

    pub closed spec fn origin_spec(self) -> Option<MaterializedResultOrigin> {
        self.origin
    }

    pub closed spec fn result_spec(self) -> Option<CalculationCellResult> {
        self.result
    }

    /// Builds one install result change.
    pub fn new(cell: CalculationCellId, origin: Option<MaterializedResultOrigin>, result: Option<CalculationCellResult>) -> (r: Self)
        ensures
            r.cell_spec() == cell,
            r.origin_spec() == origin,
            r.result_spec() == result,
    {
        TransactionInstallResultChange { cell, origin, result }
    }

    /// Returns the changed or removed cell.
    pub fn cell(&self) -> (r: CalculationCellId)
        ensures
            r == self.cell_spec(),
    {
        self.cell
    }

    /// Returns the installed materialization origin, or `None` for a removal.
    pub fn origin(&self) -> (r: Option<MaterializedResultOrigin>)
        ensures
            r == self.origin_spec(),
    {
        self.origin
    }

    /// Returns the installed result, or `None` for a removal.
    pub fn result(&self) -> (r: Option<&CalculationCellResult>)
        ensures
            match r {
                Some(v) => self.result_spec() == Some(*v),
                None => self.result_spec() is None,
            },
    {
        match &self.result {
            Some(v) => Some(v),
            None => None,
        }
    }

}

/// A transaction report detail section.
#[derive(Debug, Clone, Copy, PartialEq, Eq, PartialOrd, Ord, Hash, Structural)]
#[non_exhaustive]
pub enum TransactionDetailSection {
    /// Formula cells with semantic direct, transitive, or conservative impact.
    Affected,
    /// Formula cells actually executed by the candidate evaluator.
    Evaluated,
    /// Exact base-to-candidate materialized result differences.
    PreviewResults,
    /// Exact base-to-candidate issue differences.
    PreviewIssues,
    /// Exact result differences that installation will append to history.
    InstallResults,
}

/// One item from a transaction detail page.
#[derive(Debug)]
#[non_exhaustive]
pub enum TransactionDetailItem {
    /// An affected formula and its semantic cause.
    Affected(TransactionAffectedFormula),
    /// A formula cell actually executed by the candidate evaluator.
    Evaluated(CalculationCellId),
    /// An exact base-to-candidate result change.
    PreviewResult(TransactionResultChange),
    /// An exact base-to-candidate issue change.
    PreviewIssue(TransactionIssueChange),
    /// An exact install-delta result change.
    InstallResult(TransactionInstallResultChange),
}

/// Why the installed-calculation delta has a different comparison basis than the preview.
#[derive(Debug, Clone, Copy, PartialEq, Eq, PartialOrd, Ord, Hash, Structural)]
#[non_exhaustive]
pub enum InstallDeltaBasisReason {
    /// No complete calculation had previously been installed.
    NoInstalledCalculation,
    /// The transaction base contains edits not represented by the installed calculation.
    PriorPendingEdits,
    /// The transaction requested calculation options different from the installed calculation.
    CalculationOptionsChanged,
    /// Installed calculation identity did not match the captured transaction base.
    InstalledCalculationIdentityMismatch,
}

impl TransactionInstallResultChange {
    /// Returns whether installation removes this materialized cell.
    pub fn is_removed(&self) -> (r: bool)
        ensures
            r == (self.result_spec() is None),
    {
        self.result.is_none()
    }
}

/// Whether two optional results are both absent or equal.
pub open spec fn same_optional_result(a: Option<CalculationCellResult>, b: Option<CalculationCellResult>) -> bool {
    match (a, b) {
        (None, None) => true,
        (Some(x), Some(y)) => x.same_result(y),
        _ => false,
    }
}

/// Whether two optional issues are both absent or equal.
pub open spec fn same_optional_issue(a: Option<CalculationIssue>, b: Option<CalculationIssue>) -> bool {
    match (a, b) {
        (None, None) => true,
        (Some(x), Some(y)) => x.same_issue(y),
        _ => false,
    }
}

fn duplicate_optional_result(value: &Option<CalculationCellResult>) -> (r: Option<CalculationCellResult>)
    ensures
        same_optional_result(r, *value),
{
    match value {
        Some(v) => Some(v.duplicate()),
        None => None,
    }
}

fn duplicate_optional_issue(value: &Option<CalculationIssue>) -> (r: Option<CalculationIssue>)
    ensures
        same_optional_issue(r, *value),
{
    match value {
        Some(v) => Some(v.duplicate()),
        None => None,
    }
}

/// Whether two detail items are equal.
pub open spec fn same_item(a: TransactionDetailItem, b: TransactionDetailItem) -> bool {
    match (a, b) {
        (TransactionDetailItem::Affected(x), TransactionDetailItem::Affected(y)) => x == y,
        (TransactionDetailItem::Evaluated(x), TransactionDetailItem::Evaluated(y)) => x == y,
        (TransactionDetailItem::PreviewResult(x), TransactionDetailItem::PreviewResult(y)) => {
            &&& x.cell_spec() == y.cell_spec()
            &&& x.previous_origin_spec() == y.previous_origin_spec()
            &&& same_optional_result(x.previous_result_spec(), y.previous_result_spec())
            &&& x.result_origin_spec() == y.result_origin_spec()
            &&& same_optional_result(x.result_spec(), y.result_spec())
        },
        (TransactionDetailItem::PreviewIssue(x), TransactionDetailItem::PreviewIssue(y)) => {
            &&& x.cell_spec() == y.cell_spec()
            &&& x.kind_spec() == y.kind_spec()
            &&& same_optional_issue(x.previous_spec(), y.previous_spec())
            &&& same_optional_issue(x.current_spec(), y.current_spec())
        },
        (TransactionDetailItem::InstallResult(x), TransactionDetailItem::InstallResult(y)) => {
            &&& x.cell_spec() == y.cell_spec()
            &&& x.origin_spec() == y.origin_spec()
            &&& same_optional_result(x.result_spec(), y.result_spec())
        },
        _ => false,
    }
}

impl TransactionDetailItem {
    /// Returns an equal copy of the item.
    pub fn duplicate(&self) -> (r: TransactionDetailItem)
        ensures
            same_item(r, *self),
    {
        match self {
            TransactionDetailItem::Affected(x) => TransactionDetailItem::Affected(*x),
            TransactionDetailItem::Evaluated(c) => TransactionDetailItem::Evaluated(*c),
            TransactionDetailItem::PreviewResult(x) => TransactionDetailItem::PreviewResult(TransactionResultChange::new(
                x.cell(),
                x.previous_origin(),
                duplicate_optional_result(&x.previous_result),
                x.result_origin(),
                duplicate_optional_result(&x.result),
            )),
            TransactionDetailItem::PreviewIssue(x) => TransactionDetailItem::PreviewIssue(TransactionIssueChange::new(
                x.cell(),
                x.kind(),
                duplicate_optional_issue(&x.previous),
                duplicate_optional_issue(&x.current),
            )),
            TransactionDetailItem::InstallResult(x) => TransactionDetailItem::InstallResult(TransactionInstallResultChange::new(
                x.cell(),
                x.origin(),
                duplicate_optional_result(&x.result),
            )),
        }
    }
}

/// Wire code of a detail section.
pub open spec fn section_code_spec(section: TransactionDetailSection) -> u8 {
    match section {
        TransactionDetailSection::Affected => 1,
        TransactionDetailSection::Evaluated => 2,
        TransactionDetailSection::PreviewResults => 3,
        TransactionDetailSection::PreviewIssues => 4,
        TransactionDetailSection::InstallResults => 5,
    }
}

/// Returns the wire code of a detail section.
pub fn detail_section_code(section: TransactionDetailSection) -> (r: u8)
    ensures
        r == section_code_spec(section),
        1 <= r <= 5,
{
    match section {
        TransactionDetailSection::Affected => 1,
        TransactionDetailSection::Evaluated => 2,
        TransactionDetailSection::PreviewResults => 3,
        TransactionDetailSection::PreviewIssues => 4,
        TransactionDetailSection::InstallResults => 5,
    }
}

/// Returns the detail section a wire code denotes.
pub fn detail_section_from_code(code: u8) -> (r: Option<TransactionDetailSection>)
    ensures
        match r {
            Some(section) => section_code_spec(section) == code,
            None => !(1 <= code <= 5),
        },
{
    match code {
        1 => Some(TransactionDetailSection::Affected),
        2 => Some(TransactionDetailSection::Evaluated),
        3 => Some(TransactionDetailSection::PreviewResults),
        4 => Some(TransactionDetailSection::PreviewIssues),
        5 => Some(TransactionDetailSection::InstallResults),
        _ => None,
    }
}

/// Distinct sections have distinct wire codes, so a section is read back from its code.
pub proof fn lemma_section_code_injective(a: TransactionDetailSection, b: TransactionDetailSection)
    ensures
        section_code_spec(a) == section_code_spec(b) ==> a == b,
{
}

} // verus!
