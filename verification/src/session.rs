//! Session errors, limits, cancellation, and execution-mode vocabulary.
use vstd::prelude::*;

use std::sync::Arc;
use std::sync::atomic::AtomicBool;
use std::sync::atomic::Ordering;

verus! {

/// Stable machine-readable failure produced by a stateful calculation session.
#[derive(Debug, Clone, Copy, PartialEq, Eq, PartialOrd, Ord, Hash, Structural)]
#[non_exhaustive]
pub enum SessionErrorCode {
    /// The caller supplied an outdated expected revision.
    RevisionMismatch,
    /// Incremental calculation was requested before a complete calculation state existed.
    CalculationUninitialized,
    /// Retained calculation state does not match the workbook revision it claims.
    StateRevisionMismatch,
    /// Forced incremental calculation cannot prove a safe impact boundary.
    IncrementalUnsafe,
    /// A completed calculation belongs to older workbook or calculation state and was not installed.
    StaleResult,
    /// One or more session resource limits were configured as zero.
    InvalidLimits,
    /// An edit batch contained no operation.
    EmptyBatch,
    /// An edit batch exceeded its configured operation budget.
    BatchLimitExceeded,
    /// One calculation pass exceeded its configured evaluated-cell budget.
    EvaluationLimitExceeded,
    /// A result delta exceeded its configured changed-cell budget.
    DeltaLimitExceeded,
    /// A requested delta cursor predates the retained history.
    CursorExpired,
    /// A requested delta page exceeded its configured limit.
    PageLimitExceeded,
    /// Cooperative cancellation stopped a calculation before installation.
    Cancelled,
    /// A whole-workbook typed formula rewrite exceeded its configured budget.
    RewriteLimitExceeded,
    /// A table resize exceeded its configured worksheet-materialization budget.
    TableMaterializationLimitExceeded,
    /// A completed transaction was already installed, discarded, or found stale.
    TransactionConsumed,
    /// A transaction detail cursor belongs to another report or section.
    TransactionCursorInvalid,
    /// A transaction report exceeded its configured retained-detail budget.
    TransactionDetailLimitExceeded,
    /// A transaction phase exceeded its configured resource budget.
    TransactionResourceLimitExceeded,
}

impl SessionErrorCode {
    /// The stable dotted identifier of a code.
    pub open spec fn as_str_spec(self) -> Seq<char> {
        match self {
            SessionErrorCode::RevisionMismatch => "session.revision_mismatch"@,
            SessionErrorCode::CalculationUninitialized => "session.calculation_uninitialized"@,
            SessionErrorCode::StateRevisionMismatch => "session.state_revision_mismatch"@,
            SessionErrorCode::IncrementalUnsafe => "session.incremental_unsafe"@,
            SessionErrorCode::StaleResult => "session.stale_result"@,
            SessionErrorCode::InvalidLimits => "session.limits_invalid"@,
            SessionErrorCode::EmptyBatch => "session.edit_batch_empty"@,
            SessionErrorCode::BatchLimitExceeded => "session.edit_batch_limit_exceeded"@,
            SessionErrorCode::EvaluationLimitExceeded => "session.evaluation_limit_exceeded"@,
            SessionErrorCode::DeltaLimitExceeded => "session.delta_limit_exceeded"@,
            SessionErrorCode::CursorExpired => "session.delta_cursor_expired"@,
            SessionErrorCode::PageLimitExceeded => "session.delta_page_limit_exceeded"@,
            SessionErrorCode::Cancelled => "session.cancelled"@,
            SessionErrorCode::RewriteLimitExceeded => "session.formula_rewrite_limit_exceeded"@,
            SessionErrorCode::TableMaterializationLimitExceeded => "session.table_materialization_limit_exceeded"@,
            SessionErrorCode::TransactionConsumed => "session.transaction_consumed"@,
            SessionErrorCode::TransactionCursorInvalid => "session.transaction_cursor_invalid"@,
            SessionErrorCode::TransactionDetailLimitExceeded => "session.transaction_detail_limit_exceeded"@,
            SessionErrorCode::TransactionResourceLimitExceeded => "session.transaction_resource_limit_exceeded"@,
        }
    }

    /// Returns the stable dotted identifier used across bindings.
    pub fn as_str(self) -> (r: &'static str)
        ensures
            r@ == self.as_str_spec(),
    {
        match self {
            SessionErrorCode::RevisionMismatch => "session.revision_mismatch",
            SessionErrorCode::CalculationUninitialized => "session.calculation_uninitialized",
            SessionErrorCode::StateRevisionMismatch => "session.state_revision_mismatch",
            SessionErrorCode::IncrementalUnsafe => "session.incremental_unsafe",
            SessionErrorCode::StaleResult => "session.stale_result",
            SessionErrorCode::InvalidLimits => "session.limits_invalid",
            SessionErrorCode::EmptyBatch => "session.edit_batch_empty",
            SessionErrorCode::BatchLimitExceeded => "session.edit_batch_limit_exceeded",
            SessionErrorCode::EvaluationLimitExceeded => "session.evaluation_limit_exceeded",
            SessionErrorCode::DeltaLimitExceeded => "session.delta_limit_exceeded",
            SessionErrorCode::CursorExpired => "session.delta_cursor_expired",
            SessionErrorCode::PageLimitExceeded => "session.delta_page_limit_exceeded",
            SessionErrorCode::Cancelled => "session.cancelled",
            SessionErrorCode::RewriteLimitExceeded => "session.formula_rewrite_limit_exceeded",
            SessionErrorCode::TableMaterializationLimitExceeded => "session.table_materialization_limit_exceeded",
            SessionErrorCode::TransactionConsumed => "session.transaction_consumed",
            SessionErrorCode::TransactionCursorInvalid => "session.transaction_cursor_invalid",
            SessionErrorCode::TransactionDetailLimitExceeded => "session.transaction_detail_limit_exceeded",
            SessionErrorCode::TransactionResourceLimitExceeded => "session.transaction_resource_limit_exceeded",
        }
    }

    /// The shared human-readable message of a code.
    pub open spec fn message_spec(self) -> Seq<char> {
        match self {
            SessionErrorCode::RevisionMismatch => "expected workbook revision does not match current state"@,
            SessionErrorCode::CalculationUninitialized => "incremental calculation requires an installed complete calculation state"@,
            SessionErrorCode::StateRevisionMismatch => "calculation state does not match the current workbook revision"@,
            SessionErrorCode::IncrementalUnsafe => "the requested workbook change cannot be recalculated incrementally"@,
            SessionErrorCode::StaleResult => "calculation completed for stale session state"@,
            SessionErrorCode::InvalidLimits => "session limits must be greater than zero"@,
            SessionErrorCode::EmptyBatch => "edit batch must contain at least one operation"@,
            SessionErrorCode::BatchLimitExceeded => "edit batch exceeds the configured operation limit"@,
            SessionErrorCode::EvaluationLimitExceeded => "calculation exceeds the configured evaluation limit"@,
            SessionErrorCode::DeltaLimitExceeded => "calculation delta exceeds the configured cell limit"@,
            SessionErrorCode::CursorExpired => "calculation delta cursor is no longer retained"@,
            SessionErrorCode::PageLimitExceeded => "calculation delta page exceeds the configured limit"@,
            SessionErrorCode::Cancelled => "calculation was cancelled"@,
            SessionErrorCode::RewriteLimitExceeded => "formula rewrite exceeds the configured whole-workbook limit"@,
            SessionErrorCode::TableMaterializationLimitExceeded => "table resize exceeds the configured materialization-cell limit"@,
            SessionErrorCode::TransactionConsumed => "workbook transaction was already installed, discarded, or found stale"@,
            SessionErrorCode::TransactionCursorInvalid => "transaction detail cursor does not belong to this report section"@,
            SessionErrorCode::TransactionDetailLimitExceeded => "transaction report exceeds the configured retained-detail limit"@,
            SessionErrorCode::TransactionResourceLimitExceeded => "workbook transaction exceeded the configured resource limit"@,
        }
    }

    /// Returns the shared human-readable message.
    pub fn message(self) -> (r: &'static str)
        ensures
            r@ == self.message_spec(),
    {
        match self {
            SessionErrorCode::RevisionMismatch => "expected workbook revision does not match current state",
            SessionErrorCode::CalculationUninitialized => "incremental calculation requires an installed complete calculation state",
            SessionErrorCode::StateRevisionMismatch => "calculation state does not match the current workbook revision",
            SessionErrorCode::IncrementalUnsafe => "the requested workbook change cannot be recalculated incrementally",
            SessionErrorCode::StaleResult => "calculation completed for stale session state",
            SessionErrorCode::InvalidLimits => "session limits must be greater than zero",
            SessionErrorCode::EmptyBatch => "edit batch must contain at least one operation",
            SessionErrorCode::BatchLimitExceeded => "edit batch exceeds the configured operation limit",
            SessionErrorCode::EvaluationLimitExceeded => "calculation exceeds the configured evaluation limit",
            SessionErrorCode::DeltaLimitExceeded => "calculation delta exceeds the configured cell limit",
            SessionErrorCode::CursorExpired => "calculation delta cursor is no longer retained",
            SessionErrorCode::PageLimitExceeded => "calculation delta page exceeds the configured limit",
            SessionErrorCode::Cancelled => "calculation was cancelled",
            SessionErrorCode::RewriteLimitExceeded => "formula rewrite exceeds the configured whole-workbook limit",
            SessionErrorCode::TableMaterializationLimitExceeded => "table resize exceeds the configured materialization-cell limit",
            SessionErrorCode::TransactionConsumed => "workbook transaction was already installed, discarded, or found stale",
            SessionErrorCode::TransactionCursorInvalid => "transaction detail cursor does not belong to this report section",
            SessionErrorCode::TransactionDetailLimitExceeded => "transaction report exceeds the configured retained-detail limit",
            SessionErrorCode::TransactionResourceLimitExceeded => "workbook transaction exceeded the configured resource limit",
        }
    }
}

/// Structured stateful-session error with a stable code and optional detail.
#[derive(Debug, Clone, PartialEq, Eq)]
pub struct SessionError {
    code: SessionErrorCode,
    detail: Option<String>,
}

impl SessionError {
    pub closed spec fn code_spec(self) -> SessionErrorCode {
        self.code
    }

    pub closed spec fn detail_spec(self) -> Option<String> {
        self.detail
    }

    /// Builds an error with an optional detail.
    pub fn new(code: SessionErrorCode, detail: Option<String>) -> (r: Self)
        ensures
            r.code_spec() == code,
            r.detail_spec() == detail,
    {
        SessionError { code, detail }
    }

    /// Returns the stable error code.
    pub fn code(&self) -> (r: SessionErrorCode)
        ensures
            r == self.code_spec(),
    {
        self.code
    }

    /// Returns structured source-specific context.
    pub fn detail(&self) -> (r: Option<&str>)
        ensures
            match r {
                Some(v) => self.detail_spec() matches Some(s) && v@ == s@,
                None => self.detail_spec() is None,
            },
    {
        match &self.detail {
            Some(v) => Some(v.as_str()),
            None => None,
        }
    }

}

impl SessionError {
    /// Returns the shared human-readable message.
    pub fn message(&self) -> (r: &'static str)
        ensures
            r@ == self.code_spec().message_spec(),
    {
        self.code.message()
    }

    /// Builds an error without detail.
    pub fn bare(code: SessionErrorCode) -> (r: SessionError)
        ensures
            r.code_spec() == code,
            r.detail_spec() is None,
    {
        SessionError::new(code, None)
    }
}

/// Stateful-session resource limits independent of formula-kernel limits.
#[derive(Debug, Clone, Copy, PartialEq, Eq, Structural)]
pub struct SessionLimits {
    max_batch_operations: usize,
    max_evaluated_cells: usize,
    max_delta_cells: usize,
    max_retained_deltas: usize,
    max_delta_page: usize,
}

/// Mathematical model of session limits.
pub struct SessionLimitsModel {
    pub max_batch_operations: usize,
    pub max_evaluated_cells: usize,
    pub max_delta_cells: usize,
    pub max_retained_deltas: usize,
    pub max_delta_page: usize,
}

impl View for SessionLimits {
    type V = SessionLimitsModel;

    closed spec fn view(&self) -> SessionLimitsModel {
        SessionLimitsModel {
            max_batch_operations: self.max_batch_operations,
            max_evaluated_cells: self.max_evaluated_cells,
            max_delta_cells: self.max_delta_cells,
            max_retained_deltas: self.max_retained_deltas,
            max_delta_page: self.max_delta_page,
        }
    }
}

impl SessionLimits {
    #[verifier::type_invariant]
    spec fn nonzero(self) -> bool {
        &&& self.max_batch_operations > 0
        &&& self.max_evaluated_cells > 0
        &&& self.max_delta_cells > 0
        &&& self.max_retained_deltas > 0
        &&& self.max_delta_page > 0
    }

    /// Constructs validated non-zero session limits.
    ///
    /// Fails with `SessionErrorCode::InvalidLimits` when any configured limit is zero.
    pub fn new(
        max_batch_operations: usize,
        max_evaluated_cells: usize,
        max_delta_cells: usize,
        max_retained_deltas: usize,
        max_delta_page: usize,
    ) -> (r: Result<SessionLimits, SessionError>)
        ensures
            ({
                let any_zero = max_batch_operations == 0 || max_evaluated_cells == 0
                    || max_delta_cells == 0 || max_retained_deltas == 0 || max_delta_page == 0;
                &&& any_zero ==> (r matches Err(e) && e.code_spec() == SessionErrorCode::InvalidLimits
                    && e.detail_spec() is None)
                &&& !any_zero ==> (r matches Ok(l) && l@ == (SessionLimitsModel {
                    max_batch_operations,
                    max_evaluated_cells,
                    max_delta_cells,
                    max_retained_deltas,
                    max_delta_page,
                }))
            }),
    {
        if max_batch_operations == 0 || max_evaluated_cells == 0 || max_delta_cells == 0
            || max_retained_deltas == 0 || max_delta_page == 0 {
            return Err(SessionError::new(SessionErrorCode::InvalidLimits, None));
        }
        Ok(SessionLimits {
            max_batch_operations,
            max_evaluated_cells,
            max_delta_cells,
            max_retained_deltas,
            max_delta_page,
        })
    }

    /// Returns the maximum operations in one atomic edit batch.
    pub fn max_batch_operations(self) -> (r: usize)
        ensures
            r == self@.max_batch_operations,
            r > 0,
    {
        proof {
            use_type_invariant(&self);
        }
        self.max_batch_operations
    }

    /// Returns the maximum evaluated formula cells in one pass.
    pub fn max_evaluated_cells(self) -> (r: usize)
        ensures
            r == self@.max_evaluated_cells,
            r > 0,
    {
        proof {
            use_type_invariant(&self);
        }
        self.max_evaluated_cells
    }

    /// Returns the maximum changed and removed cells in one delta.
    pub fn max_delta_cells(self) -> (r: usize)
        ensures
            r == self@.max_delta_cells,
            r > 0,
    {
        proof {
            use_type_invariant(&self);
        }
        self.max_delta_cells
    }

    /// Returns the maximum installed deltas retained by one session.
    pub fn max_retained_deltas(self) -> (r: usize)
        ensures
            r == self@.max_retained_deltas,
            r > 0,
    {
        proof {
            use_type_invariant(&self);
        }
        self.max_retained_deltas
    }

    /// Returns the maximum deltas returned by one cursor page.
    pub fn max_delta_page(self) -> (r: usize)
        ensures
            r == self@.max_delta_page,
            r > 0,
    {
        proof {
            use_type_invariant(&self);
        }
        self.max_delta_page
    }
}

impl Default for SessionLimits {
    fn default() -> (r: Self)
        ensures
            r@ == (SessionLimitsModel {
                max_batch_operations: 100_000,
                max_evaluated_cells: 1_000_000,
                max_delta_cells: 1_000_000,
                max_retained_deltas: 256,
                max_delta_page: 100,
            }),
    {
        SessionLimits {
            max_batch_operations: 100_000,
            max_evaluated_cells: 1_000_000,
            max_delta_cells: 1_000_000,
            max_retained_deltas: 256,
            max_delta_page: 100,
        }
    }
}

/// Thread-safe cooperative cancellation signal for one bounded operation.
#[derive(Debug, Clone)]
pub struct CancellationToken {
    cancelled: Arc<AtomicBool>,
}

impl CancellationToken {
    /// Creates a non-cancelled token.
    pub fn new() -> (r: CancellationToken) {
        CancellationToken { cancelled: Arc::new(AtomicBool::new(false)) }
    }

    /// Requests cancellation. Already completed or installed results are not modified.
    pub fn cancel(&self) {
        self.cancelled.store(true, Ordering::Release);
    }

    /// Returns whether cancellation was requested.
    pub fn is_cancelled(&self) -> (r: bool) {
        self.cancelled.load(Ordering::Acquire)
    }
}

impl Default for CancellationToken {
    fn default() -> (r: Self) {
        CancellationToken::new()
    }
}

/// Caller-selected recalculation policy.
#[derive(Debug, Clone, Copy, PartialEq, Eq, Hash, Structural)]
pub enum RecalculationMode {
    /// Select incremental calculation when its complete impact boundary is known, otherwise full.
    Auto,
    /// Require a safe incremental pass and return an error instead of falling back.
    Incremental,
    /// Evaluate every formula cell.
    Full,
}

impl Default for RecalculationMode {
    fn default() -> (r: Self)
        ensures
            r == RecalculationMode::Auto,
    {
        RecalculationMode::Auto
    }
}

/// Actual schedule used by one installed calculation.
#[derive(Debug, Clone, Copy, PartialEq, Eq, Hash, Structural)]
pub enum CalculationExecutionMode {
    /// Only dirty formula cells were evaluated.
    Incremental,
    /// Every schedulable formula cell was evaluated.
    Full,
}

/// Deterministic explanation for the selected calculation schedule.
#[derive(Debug, Clone, Copy, PartialEq, Eq, Hash, Structural)]
#[non_exhaustive]
pub enum CalculationDecisionReason {
    /// No complete calculation state existed.
    InitialCalculation,
    /// The caller explicitly requested a full pass.
    FullRequested,
    /// The caller explicitly requested an incremental pass.
    IncrementalRequested,
    /// Auto mode selected a safe dirty-only pass.
    DirtySubset,
    /// No formula was dirty, so no evaluator work was required.
    NoDirtyFormulas,
    /// Formula, name, or sheet topology changed.
    TopologyChanged,
    /// Calculation options or workbook interpretation changed.
    OptionsChanged,
    /// Dynamic reference or undeclared spill topology requires a conservative full pass.
    DynamicTopology,
    /// Dirty formulas cover the complete compiled formula set.
    DirtySetCoversWorkbook,
}

/// What the session knows when a recalculation is requested.
#[derive(Debug, Clone, Copy)]
pub struct RecalculationState {
    /// No complete calculation or compiled state is installed.
    pub no_state: bool,
    /// An edit changed formula, name or sheet topology since the last calculation.
    pub requires_full_rebuild: bool,
    /// The table topology differs from the compiled one.
    pub table_topology_changed: bool,
    /// The requested options differ from those of the installed calculation.
    pub options_changed: bool,
    /// The requested limits differ from those the formulas were compiled under.
    pub compiled_limit_changed: bool,
    /// Compiled dependencies are not safe for a dirty-only pass and edits are pending.
    pub unsafe_dynamic: bool,
    /// Number of dirty formula cells.
    pub dirty_count: usize,
    /// Number of compiled formulas, when formulas are compiled.
    pub formula_count: Option<usize>,
}

/// Whether formulas must be compiled again before calculating.
pub open spec fn compile_required_spec(state: RecalculationState) -> bool {
    state.no_state || state.requires_full_rebuild || state.table_topology_changed || state.compiled_limit_changed
        || state.unsafe_dynamic
}

/// Returns whether formulas must be compiled again before calculating.
pub fn compile_required(state: &RecalculationState) -> (r: bool)
    ensures
        r == compile_required_spec(*state),
{
    state.no_state || state.requires_full_rebuild || state.table_topology_changed || state.compiled_limit_changed
        || state.unsafe_dynamic
}

/// Why a requested incremental pass is unsafe, the first applicable reason first.
pub open spec fn incremental_unsafe_spec(topology_changed: bool, options_changed: bool, dynamic_topology: bool) -> Seq<char> {
    if topology_changed {
        "formula, name, sheet, or calculation topology changed"@
    } else if options_changed {
        "calculation options changed"@
    } else if dynamic_topology {
        "dynamic dependency or spill topology requires full recalculation"@
    } else {
        "incremental state is unavailable"@
    }
}

fn incremental_unsafe_detail(topology_changed: bool, options_changed: bool, dynamic_topology: bool) -> (r: String)
    ensures
        r@ == incremental_unsafe_spec(topology_changed, options_changed, dynamic_topology),
{
    let text = if topology_changed {
        "formula, name, sheet, or calculation topology changed"
    } else if options_changed {
        "calculation options changed"
    } else if dynamic_topology {
        "dynamic dependency or spill topology requires full recalculation"
    } else {
        "incremental state is unavailable"
    };
    text.to_string()
}

/// The schedule chosen for a requested mode, or the error that refuses an incremental request.
pub open spec fn schedule_spec(
    mode: RecalculationMode,
    state: RecalculationState,
) -> Result<(CalculationExecutionMode, CalculationDecisionReason), (SessionErrorCode, Option<Seq<char>>)> {
    let topology = state.requires_full_rebuild || state.table_topology_changed;
    let options = state.options_changed || state.compiled_limit_changed;
    match mode {
        RecalculationMode::Full => Ok((CalculationExecutionMode::Full, CalculationDecisionReason::FullRequested)),
        RecalculationMode::Incremental => if state.no_state {
            Err((SessionErrorCode::CalculationUninitialized, None))
        } else if compile_required_spec(state) || state.options_changed || state.unsafe_dynamic {
            Err((SessionErrorCode::IncrementalUnsafe, Some(incremental_unsafe_spec(topology, options, state.unsafe_dynamic))))
        } else if state.dirty_count == 0 {
            Ok((CalculationExecutionMode::Incremental, CalculationDecisionReason::NoDirtyFormulas))
        } else {
            Ok((CalculationExecutionMode::Incremental, CalculationDecisionReason::IncrementalRequested))
        },
        RecalculationMode::Auto => if state.no_state {
            Ok((CalculationExecutionMode::Full, CalculationDecisionReason::InitialCalculation))
        } else if topology {
            Ok((CalculationExecutionMode::Full, CalculationDecisionReason::TopologyChanged))
        } else if options {
            Ok((CalculationExecutionMode::Full, CalculationDecisionReason::OptionsChanged))
        } else if state.unsafe_dynamic {
            Ok((CalculationExecutionMode::Full, CalculationDecisionReason::DynamicTopology))
        } else if state.formula_count matches Some(n) && state.dirty_count > 0 && state.dirty_count >= n {
            Ok((CalculationExecutionMode::Full, CalculationDecisionReason::DirtySetCoversWorkbook))
        } else if state.dirty_count == 0 {
            Ok((CalculationExecutionMode::Incremental, CalculationDecisionReason::NoDirtyFormulas))
        } else {
            Ok((CalculationExecutionMode::Incremental, CalculationDecisionReason::DirtySubset))
        },
    }
}

/// Chooses the execution mode and its reason for a requested recalculation: a full request runs
/// fully; an incremental request is refused without installed state or when a dirty-only pass
/// would be unsafe; auto runs fully whenever a dirty-only pass is unsafe or would cover every
/// formula, and incrementally otherwise.
pub fn decide_schedule(
    mode: RecalculationMode,
    state: &RecalculationState,
) -> (r: Result<(CalculationExecutionMode, CalculationDecisionReason), SessionError>)
    ensures
        match (r, schedule_spec(mode, *state)) {
            (Ok(chosen), Ok(expected)) => chosen == expected,
            (Err(e), Err((code, detail))) => e.code_spec() == code && match (e.detail_spec(), detail) {
                (Some(text), Some(expected)) => text@ == expected,
                (None, None) => true,
                _ => false,
            },
            _ => false,
        },
{
    let topology = state.requires_full_rebuild || state.table_topology_changed;
    let options = state.options_changed || state.compiled_limit_changed;
    match mode {
        RecalculationMode::Full => Ok((CalculationExecutionMode::Full, CalculationDecisionReason::FullRequested)),
        RecalculationMode::Incremental => {
            if state.no_state {
                Err(SessionError::new(SessionErrorCode::CalculationUninitialized, None))
            } else if compile_required(state) || state.options_changed || state.unsafe_dynamic {
                let detail = incremental_unsafe_detail(topology, options, state.unsafe_dynamic);
                Err(SessionError::new(SessionErrorCode::IncrementalUnsafe, Some(detail)))
            } else if state.dirty_count == 0 {
                Ok((CalculationExecutionMode::Incremental, CalculationDecisionReason::NoDirtyFormulas))
            } else {
                Ok((CalculationExecutionMode::Incremental, CalculationDecisionReason::IncrementalRequested))
            }
        },
        RecalculationMode::Auto => {
            if state.no_state {
                Ok((CalculationExecutionMode::Full, CalculationDecisionReason::InitialCalculation))
            } else if topology {
                Ok((CalculationExecutionMode::Full, CalculationDecisionReason::TopologyChanged))
            } else if options {
                Ok((CalculationExecutionMode::Full, CalculationDecisionReason::OptionsChanged))
            } else if state.unsafe_dynamic {
                Ok((CalculationExecutionMode::Full, CalculationDecisionReason::DynamicTopology))
            } else if match state.formula_count {
                Some(n) => state.dirty_count > 0 && state.dirty_count >= n,
                None => false,
            } {
                Ok((CalculationExecutionMode::Full, CalculationDecisionReason::DirtySetCoversWorkbook))
            } else if state.dirty_count == 0 {
                Ok((CalculationExecutionMode::Incremental, CalculationDecisionReason::NoDirtyFormulas))
            } else {
                Ok((CalculationExecutionMode::Incremental, CalculationDecisionReason::DirtySubset))
            }
        },
    }
}

/// Returns the revision the installed calculation was made from (the workbook revision when
/// there is none), refusing a calculation made from a newer revision than the workbook's.
pub fn calculation_base_revision(installed: Option<u64>, workbook_revision: u64) -> (r: Result<u64, SessionError>)
    ensures
        match installed {
            Some(revision) => match r {
                Ok(base) => revision <= workbook_revision && base == revision,
                Err(e) => {
                    &&& revision > workbook_revision
                    &&& e.code_spec() == SessionErrorCode::StateRevisionMismatch
                    &&& e.detail_spec() matches Some(text)
                    &&& text@ == crate::history::detail_pair("calculation="@, revision as nat, ", workbook="@, workbook_revision as nat)
                },
            },
            None => r == Ok::<u64, SessionError>(workbook_revision),
        },
{
    match installed {
        Some(revision) => {
            if revision > workbook_revision {
                let detail = crate::history::detail_text("calculation=", revision, ", workbook=", workbook_revision);
                Err(SessionError::new(SessionErrorCode::StateRevisionMismatch, Some(detail)))
            } else {
                Ok(revision)
            }
        },
        None => Ok(workbook_revision),
    }
}

} // verus!
