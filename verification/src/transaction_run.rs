//! The accounting a workbook transaction run applies after planning and calculating its base and
//! candidate: evaluation, parsing, function-iteration, reference-cell and delta-cell totals, each
//! against its limit, and the counts of issue changes its preview reports.
use vstd::prelude::*;

use crate::calculation::CalculationOptions;
use crate::history::{detail_pair, detail_text};
use crate::snapshot::CalculationSnapshot;
use crate::report::{TransactionDetailItem, TransactionIssueChangeKind};
use crate::session::{SessionError, SessionErrorCode};

verus! {

/// `a + b`, saturated at the largest `usize`.
pub open spec fn sat_add(a: int, b: int) -> int {
    if a + b > usize::MAX { usize::MAX as int } else { a + b }
}

/// `a + b`, saturated at the largest `u64`.
pub open spec fn sat_add_u64(a: int, b: int) -> int {
    if a + b > u64::MAX { u64::MAX as int } else { a + b }
}

/// Whether `e` carries `code` and the detail `first a second b`.
pub open spec fn error_with(e: SessionError, code: SessionErrorCode, first: Seq<char>, a: int, second: Seq<char>, b: int) -> bool {
    &&& e.code_spec() == code
    &&& e.detail_spec() matches Some(t)
    &&& t@ == detail_pair(first, a as nat, second, b as nat)
}

/// Checks the evaluations a transaction plans: the base's evaluated cells and the candidate's
/// dirty cells together may not exceed the evaluation limit.
pub fn check_planned_evaluations(base_evaluated: usize, candidate_dirty: usize, max_evaluated: usize) -> (r: Result<(), SessionError>)
    ensures
        r is Ok <==> sat_add(base_evaluated as int, candidate_dirty as int) <= max_evaluated,
        r matches Err(e) ==> error_with(e, SessionErrorCode::EvaluationLimitExceeded, "transaction_planned="@,
            sat_add(base_evaluated as int, candidate_dirty as int), ", limit="@, max_evaluated as int),
{
    let planned = base_evaluated.saturating_add(candidate_dirty);
    if planned > max_evaluated {
        let detail = detail_text("transaction_planned=", planned as u64, ", limit=", max_evaluated as u64);
        return Err(SessionError::new(SessionErrorCode::EvaluationLimitExceeded, Some(detail)));
    }
    Ok(())
}

/// What the base and candidate calculations of a transaction consumed.
#[derive(Debug, Clone, Copy)]
pub struct CalculationWork {
    pub evaluated: usize,
    pub parsed: usize,
    pub function_iterations: u64,
    pub reference_cells: u64,
}

/// The totals of a transaction's two calculations, each saturated.
#[derive(Debug, Clone, Copy, PartialEq, Eq, Structural)]
pub struct TransactionTotals {
    pub evaluated: usize,
    pub parsed: usize,
    pub function_iterations: u64,
    pub reference_cells: u64,
}

/// Adds up what the base and the candidate consumed and checks it, in this order: evaluated
/// cells and parsed formulas against the evaluation limit, function iterations against the
/// function-iteration limit and reference cells against the array-cell limit.
pub fn check_transaction_totals(
    base: CalculationWork,
    candidate: CalculationWork,
    max_evaluated: usize,
    max_function_iterations: u64,
    max_reference_cells: u64,
) -> (r: Result<TransactionTotals, SessionError>)
    ensures
        ({
            let evaluated = sat_add(base.evaluated as int, candidate.evaluated as int);
            let parsed = sat_add(base.parsed as int, candidate.parsed as int);
            let iterations = sat_add_u64(base.function_iterations as int, candidate.function_iterations as int);
            let references = sat_add_u64(base.reference_cells as int, candidate.reference_cells as int);
            if evaluated > max_evaluated {
                r matches Err(e) && error_with(e, SessionErrorCode::EvaluationLimitExceeded, "transaction_evaluated="@,
                    evaluated, ", limit="@, max_evaluated as int)
            } else if parsed > max_evaluated {
                r matches Err(e) && error_with(e, SessionErrorCode::EvaluationLimitExceeded, "transaction_parsed="@,
                    parsed, ", limit="@, max_evaluated as int)
            } else if iterations > max_function_iterations {
                r matches Err(e) && error_with(e, SessionErrorCode::TransactionResourceLimitExceeded, "function_iterations="@,
                    iterations, ", limit="@, max_function_iterations as int)
            } else if references > max_reference_cells {
                r matches Err(e) && error_with(e, SessionErrorCode::TransactionResourceLimitExceeded, "reference_cells="@,
                    references, ", limit="@, max_reference_cells as int)
            } else {
                r == Ok::<TransactionTotals, SessionError>(TransactionTotals {
                    evaluated: evaluated as usize,
                    parsed: parsed as usize,
                    function_iterations: iterations as u64,
                    reference_cells: references as u64,
                })
            }
        }),
{
    let evaluated = base.evaluated.saturating_add(candidate.evaluated);
    if evaluated > max_evaluated {
        let detail = detail_text("transaction_evaluated=", evaluated as u64, ", limit=", max_evaluated as u64);
        return Err(SessionError::new(SessionErrorCode::EvaluationLimitExceeded, Some(detail)));
    }
    let parsed = base.parsed.saturating_add(candidate.parsed);
    if parsed > max_evaluated {
        let detail = detail_text("transaction_parsed=", parsed as u64, ", limit=", max_evaluated as u64);
        return Err(SessionError::new(SessionErrorCode::EvaluationLimitExceeded, Some(detail)));
    }
    let function_iterations = base.function_iterations.saturating_add(candidate.function_iterations);
    if function_iterations > max_function_iterations {
        let detail = detail_text("function_iterations=", function_iterations, ", limit=", max_function_iterations);
        return Err(SessionError::new(SessionErrorCode::TransactionResourceLimitExceeded, Some(detail)));
    }
    let reference_cells = base.reference_cells.saturating_add(candidate.reference_cells);
    if reference_cells > max_reference_cells {
        let detail = detail_text("reference_cells=", reference_cells, ", limit=", max_reference_cells);
        return Err(SessionError::new(SessionErrorCode::TransactionResourceLimitExceeded, Some(detail)));
    }
    Ok(TransactionTotals { evaluated, parsed, function_iterations, reference_cells })
}

/// Checks the cells a transaction's preview and install deltas list together (changed and
/// removed cells of both, saturated) against the delta-cell limit.
pub fn check_transaction_delta_cells(
    preview_changed: usize,
    preview_removed: usize,
    install_changed: usize,
    install_removed: usize,
    max_delta_cells: usize,
) -> (r: Result<usize, SessionError>)
    ensures
        ({
            let total = sat_add(sat_add(preview_changed as int, preview_removed as int),
                sat_add(install_changed as int, install_removed as int));
            if total > max_delta_cells {
                r matches Err(e) && error_with(e, SessionErrorCode::DeltaLimitExceeded, "transaction_cells="@, total,
                    ", limit="@, max_delta_cells as int)
            } else {
                r == Ok::<usize, SessionError>(total as usize)
            }
        }),
{
    let preview = preview_changed.saturating_add(preview_removed);
    let install = install_changed.saturating_add(install_removed);
    let total = preview.saturating_add(install);
    if total > max_delta_cells {
        let detail = detail_text("transaction_cells=", total as u64, ", limit=", max_delta_cells as u64);
        return Err(SessionError::new(SessionErrorCode::DeltaLimitExceeded, Some(detail)));
    }
    Ok(total)
}

/// The number of preview issue changes of `kind` among `items`.
pub open spec fn issue_changes_of(items: Seq<TransactionDetailItem>, kind: TransactionIssueChangeKind) -> nat
    decreases items.len(),
{
    if items.len() == 0 {
        0
    } else {
        issue_changes_of(items.drop_last(), kind) + match items.last() {
            TransactionDetailItem::PreviewIssue(change) => if change.kind_spec() == kind { 1nat } else { 0nat },
            _ => 0nat,
        }
    }
}

/// Counts the introduced, resolved and other issue changes a preview reports: the changed count
/// is what remains of all items after the introduced and resolved ones.
pub fn issue_change_counts(items: &[TransactionDetailItem]) -> (r: (usize, usize, usize))
    ensures
        r.0 == issue_changes_of(items@, TransactionIssueChangeKind::Introduced),
        r.1 == issue_changes_of(items@, TransactionIssueChangeKind::Resolved),
        r.2 == items@.len() - r.0 - r.1,
{
    let mut introduced: usize = 0;
    let mut resolved: usize = 0;
    let mut i: usize = 0;
    while i < items.len()
        invariant
            i <= items@.len(),
            introduced == issue_changes_of(items@.take(i as int), TransactionIssueChangeKind::Introduced),
            resolved == issue_changes_of(items@.take(i as int), TransactionIssueChangeKind::Resolved),
            introduced + resolved <= i,
        decreases items.len() - i,
    {
        proof {
            assert(items@.take(i as int + 1).drop_last() =~= items@.take(i as int));
            assert(items@.take(i as int + 1).last() == items@[i as int]);
        }
        match &items[i] {
            TransactionDetailItem::PreviewIssue(change) => {
                match change.kind() {
                    TransactionIssueChangeKind::Introduced => {
                        introduced = introduced + 1;
                    },
                    TransactionIssueChangeKind::Resolved => {
                        resolved = resolved + 1;
                    },
                    _ => {},
                }
            },
            _ => {},
        }
        i = i + 1;
    }
    assert(items@.take(i as int) =~= items@);
    (introduced, resolved, items.len() - introduced - resolved)
}


/// Whether a transaction reuses the session's installed calculation as its base instead of
/// calculating the base again: the captured calculation must be current (made from the base
/// revision and fingerprint, from the same input, under the requested options), compiled formulas
/// must have been captured, and the session's options must be the requested ones.
pub fn base_calculation_reused(
    captured: Option<&CalculationSnapshot>,
    captured_input_matches: bool,
    captured_compiled: bool,
    captured_options: Option<CalculationOptions>,
    base_revision: u64,
    base_fingerprint: &[u8; 32],
    options: CalculationOptions,
) -> (r: bool)
    ensures
        r == (captured matches Some(c) && c.source_revision_spec() == base_revision
            && c.source_fingerprint_spec()@ == base_fingerprint@ && captured_input_matches
            && c.options_spec()@ == options@
            && captured_compiled
            && (captured_options matches Some(o) && o@ == options@)),
{
    let current = match captured {
        Some(c) => {
            c.source_revision() == base_revision && bytes_equal(c.source_fingerprint(), base_fingerprint)
                && captured_input_matches && c.options().same_as(&options)
        },
        None => false,
    };
    let same_options = match captured_options {
        Some(o) => o.same_as(&options),
        None => false,
    };
    current && captured_compiled && same_options
}

/// Whether two digests are equal.
fn bytes_equal(a: &[u8; 32], b: &[u8; 32]) -> (r: bool)
    ensures
        r == (a@ == b@),
{
    let mut i: usize = 0;
    while i < 32
        invariant
            i <= 32,
            forall|k: int| 0 <= k < i ==> a@[k] == b@[k],
        decreases 32 - i,
    {
        if a[i] != b[i] {
            return false;
        }
        i = i + 1;
    }
    assert(a@ =~= b@);
    true
}

/// Whether a transaction must treat every formula of the candidate as affected: the edit changed
/// topology or calculation metadata, or the base's compiled dependencies are not statically known
/// while some calculation input changed.
pub fn conservative_impact(
    topology_or_metadata_changed: bool,
    base_incremental_safe: bool,
    calculation_changed_cells: usize,
) -> (r: bool)
    ensures
        r == (topology_or_metadata_changed || (!base_incremental_safe && calculation_changed_cells > 0)),
{
    topology_or_metadata_changed || (!base_incremental_safe && calculation_changed_cells > 0)
}

/// The revision an installed transaction's delta starts from: the captured calculation's source
/// revision, or the base revision when nothing was captured.
pub fn install_base_revision(captured: Option<&CalculationSnapshot>, base_revision: u64) -> (r: u64)
    ensures
        r == match captured {
            Some(c) => c.source_revision_spec(),
            None => base_revision,
        },
{
    match captured {
        Some(c) => c.source_revision(),
        None => base_revision,
    }
}

} // verus!
