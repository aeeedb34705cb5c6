//! The stateful workbook calculation session: guarded edit batches, recalculation jobs captured
//! from the session, their runs, and guarded installation of their results.
//!
//! The workbook draft and the formula evaluator live with the caller. The session holds what its
//! decisions read: the workbook revision, the installed calculation, the compiled-formula facts,
//! the dirty formula cells and the delta history.
use vstd::prelude::*;

use crate::calculation::CalculationOptions;
use crate::cell::CalculationCellId;
use crate::delta::{
    CalculationDelta, DeltaMetadata, build_delta, build_empty_delta, build_incremental_delta, changed_entries,
    lists_changes, materialized_view, removed_view,
};
use crate::history::{DeltaHistory, detail_pair, detail_text};
use crate::limits::CalculationLimits;
use crate::session::{
    CalculationDecisionReason, CalculationExecutionMode, RecalculationMode, RecalculationState, SessionError,
    SessionErrorCode, SessionLimits, calculation_base_revision, compile_required, compile_required_spec,
    decide_schedule, schedule_spec,
};
use crate::snapshot::CalculationSnapshot;

verus! {

/// What the compiled formulas of the workbook tell the session.
#[derive(Debug, Clone, Copy, PartialEq, Eq, Structural)]
pub struct CompiledFacts {
    /// Number of compiled formula cells.
    pub formula_count: usize,
    /// Whether every compiled dependency is known statically, so a dirty-only pass is safe.
    pub incremental_safe: bool,
    /// The limits the formulas were compiled under.
    pub limits: CalculationLimits,
}

/// What applying an edit batch to a copy of the workbook draft reported.
#[derive(Debug)]
pub struct EditOutcome {
    /// The draft's semantic revision after the batch.
    pub revision: u64,
    /// Formula, name or sheet topology changed.
    pub topology_changed: bool,
    /// Calculation metadata of the workbook changed.
    pub calculation_metadata_changed: bool,
    /// Number of cells whose calculation inputs changed.
    pub calculation_changed_cells: usize,
    /// The formula cells the compiled dependency index finds affected by the batch, the dirty
    /// cells included.
    pub affected_formulas: Vec<CalculationCellId>,
}

/// An edit batch staged for guarded installation.
#[derive(Debug)]
pub struct PreparedEditBatch {
    pub base_revision: u64,
    pub base_cursor: u64,
    pub revision: u64,
    pub replacement_dirty: Vec<CalculationCellId>,
    pub next_requires_full_rebuild: bool,
    pub next_calculation_changes_pending: bool,
}

/// Stateful workbook editor and persistent calculation engine state.
#[derive(Debug)]
pub struct WorkbookCalculationSession {
    revision: u64,
    calculation: Option<CalculationSnapshot>,
    calculation_options: Option<CalculationOptions>,
    compiled: Option<CompiledFacts>,
    dirty: Vec<CalculationCellId>,
    calculation_changes_pending: bool,
    requires_full_rebuild: bool,
    history: DeltaHistory,
}

/// A copy of `cells`, element by element.
fn copy_cells(cells: &Vec<CalculationCellId>) -> (r: Vec<CalculationCellId>)
    ensures
        r@ == cells@,
{
    let mut out: Vec<CalculationCellId> = Vec::new();
    let mut i: usize = 0;
    while i < cells.len()
        invariant
            i <= cells@.len(),
            out@ == cells@.take(i as int),
        decreases cells.len() - i,
    {
        out.push(cells[i]);
        i = i + 1;
        assert(out@ =~= cells@.take(i as int));
    }
    assert(cells@.take(i as int) =~= cells@);
    out
}

/// Whether the error carries `code` and no detail.
pub open spec fn bare_error(e: SessionError, code: SessionErrorCode) -> bool {
    e.code_spec() == code && e.detail_spec() is None
}

/// Whether the error carries `code` and the detail `first a second b`.
pub open spec fn paired_error(e: SessionError, code: SessionErrorCode, first: Seq<char>, a: nat, second: Seq<char>, b: nat) -> bool {
    &&& e.code_spec() == code
    &&& e.detail_spec() matches Some(t)
    &&& t@ == detail_pair(first, a, second, b)
}


/// A calculation job captured from a session, ready to run without changing it.
#[derive(Debug)]
pub struct PreparedCalculation<'a> {
    pub expected_revision: u64,
    pub base_cursor: u64,
    pub base_revision: u64,
    pub options: CalculationOptions,
    pub source_fingerprint: [u8; 32],
    pub execution_mode: CalculationExecutionMode,
    pub reason: CalculationDecisionReason,
    pub compile_required: bool,
    pub compiled: Option<CompiledFacts>,
    pub previous: Option<&'a CalculationSnapshot>,
    pub dirty: Vec<CalculationCellId>,
    pub limits: SessionLimits,
}

/// What the formula evaluator produced for a job.
#[derive(Debug)]
pub struct Evaluation {
    pub calculation: CalculationSnapshot,
    /// The compiled formulas the results were calculated with.
    pub compiled: CompiledFacts,
    /// Number of formula cells evaluated.
    pub evaluated_count: usize,
}

/// A calculated but not yet installed result.
#[derive(Debug)]
pub struct CompletedCalculation {
    pub expected_revision: u64,
    pub base_cursor: u64,
    pub options: CalculationOptions,
    pub compiled: CompiledFacts,
    pub calculation: CalculationSnapshot,
    pub delta: CalculationDelta,
}

/// The metadata a job's delta carries for `evaluated` evaluated and `parsed` parsed formulas.
pub open spec fn job_metadata(p: PreparedCalculation, dirty_count: usize, evaluated: usize, parsed: usize) -> DeltaMetadata {
    DeltaMetadata {
        base_revision: p.base_revision,
        result_revision: p.expected_revision,
        mode: p.execution_mode,
        reason: p.reason,
        dirty_count,
        evaluated_count: evaluated,
        parsed_formula_count: parsed,
    }
}

/// Whether a job evaluates only its dirty cells.
pub open spec fn incremental_mode(mode: CalculationExecutionMode) -> bool {
    mode == CalculationExecutionMode::Incremental
}

/// Whether a job reuses the installed results without evaluating: nothing must be compiled and
/// no formula is dirty.
pub open spec fn reuses_previous(p: PreparedCalculation) -> bool {
    !p.compile_required && p.reason == CalculationDecisionReason::NoDirtyFormulas
}

impl<'a> PreparedCalculation<'a> {
    /// Runs the job without changing the session it came from.
    ///
    /// A job over more dirty cells than the evaluation limit is refused. A job that reuses the
    /// installed results copies them under the new source identity and records an empty delta.
    /// Otherwise `evaluate(recompile, incremental)` calculates the results, their number of
    /// evaluated formulas is checked against the limit, and the delta against the installed
    /// results is built (over the dirty owners for an incremental job). `cancelled` is polled
    /// before, between and after the steps.
    pub fn run<E: Fn(bool, bool) -> Result<Evaluation, ()>, F: Fn() -> bool>(
        self,
        evaluate: &E,
        cancelled: &F,
    ) -> (r: Result<CompletedCalculation, SessionError>)
        requires
            call_requires(*evaluate, (self.compile_required, incremental_mode(self.execution_mode))),
            call_requires(*cancelled, ()),
        ensures
            match r {
                Ok(c) => {
                    &&& c.expected_revision == self.expected_revision
                    &&& c.base_cursor == self.base_cursor
                    &&& c.options == self.options
                    &&& self.dirty@.len() <= self.limits@.max_evaluated_cells
                    &&& if reuses_previous(self) {
                        &&& self.previous matches Some(prev)
                        &&& self.compiled == Some(c.compiled)
                        &&& c.calculation.cells_spec() == prev.cells_spec()
                        &&& c.calculation.materialized_spec() == prev.materialized_spec()
                        &&& c.calculation.source_revision_spec() == self.expected_revision
                        &&& c.delta.carries(0, job_metadata(self, 0, 0, 0))
                        &&& c.delta.changed_cells_spec()@.len() == 0
                    } else {
                        exists|ev: Evaluation| {
                            &&& #[trigger] call_ensures(*evaluate, (self.compile_required, incremental_mode(self.execution_mode)), Ok(ev))
                            &&& c.calculation == ev.calculation
                            &&& c.compiled == ev.compiled
                            &&& ev.evaluated_count <= self.limits@.max_evaluated_cells
                            &&& c.delta.carries(0, job_metadata(self, self.dirty@.len() as usize, ev.evaluated_count,
                                if self.compile_required { ev.compiled.formula_count } else { 0 }))
                            &&& !incremental_mode(self.execution_mode) ==> lists_changes(c.delta,
                                changed_entries(materialized_view(self.previous), ev.calculation.materialized_spec()),
                                removed_view(self.previous, &ev.calculation))
                            &&& incremental_mode(self.execution_mode) ==> self.previous is Some
                        }
                    }
                },
                Err(e) => {
                    ||| bare_error(e, SessionErrorCode::Cancelled)
                    ||| paired_error(e, SessionErrorCode::EvaluationLimitExceeded, "planned="@, self.dirty@.len(), ", limit="@,
                        self.limits@.max_evaluated_cells as nat) && self.dirty@.len() > self.limits@.max_evaluated_cells
                    ||| e.code_spec() == SessionErrorCode::EvaluationLimitExceeded && self.dirty@.len() <= self.limits@.max_evaluated_cells
                    ||| bare_error(e, SessionErrorCode::CalculationUninitialized)
                    ||| e.code_spec() == SessionErrorCode::DeltaLimitExceeded
                },
            },
            (forall|b: bool| call_ensures(*cancelled, (), b) ==> b) ==> r is Err,
    {
        if cancelled() {
            return Err(SessionError::new(SessionErrorCode::Cancelled, None));
        }
        let planned = self.dirty.len();
        let max_evaluated = self.limits.max_evaluated_cells();
        if planned > max_evaluated {
            let detail = detail_text("planned=", planned as u64, ", limit=", max_evaluated as u64);
            return Err(SessionError::new(SessionErrorCode::EvaluationLimitExceeded, Some(detail)));
        }
        let incremental = self.execution_mode == CalculationExecutionMode::Incremental;
        if !self.compile_required && self.reason == CalculationDecisionReason::NoDirtyFormulas {
            let previous = match self.previous {
                Some(p) => p,
                None => return Err(SessionError::new(SessionErrorCode::CalculationUninitialized, None)),
            };
            let compiled = match self.compiled {
                Some(c) => c,
                None => return Err(SessionError::new(SessionErrorCode::CalculationUninitialized, None)),
            };
            let calculation = match previous.rebase_source_cancellable(
                self.options, self.expected_revision, self.source_fingerprint, cancelled,
            ) {
                Ok(c) => c,
                Err(()) => return Err(SessionError::new(SessionErrorCode::Cancelled, None)),
            };
            let delta = build_empty_delta(DeltaMetadata {
                base_revision: self.base_revision,
                result_revision: self.expected_revision,
                mode: self.execution_mode,
                reason: self.reason,
                dirty_count: 0,
                evaluated_count: 0,
                parsed_formula_count: 0,
            });
            return Ok(CompletedCalculation {
                expected_revision: self.expected_revision,
                base_cursor: self.base_cursor,
                options: self.options,
                compiled,
                calculation,
                delta,
            });
        }
        if !self.compile_required && self.compiled.is_none() {
            return Err(SessionError::new(SessionErrorCode::CalculationUninitialized, None));
        }
        let evaluation = match evaluate(self.compile_required, incremental) {
            Ok(ev) => ev,
            Err(()) => return Err(SessionError::new(SessionErrorCode::Cancelled, None)),
        };
        let ghost ev_ghost = evaluation;
        if cancelled() {
            return Err(SessionError::new(SessionErrorCode::Cancelled, None));
        }
        if evaluation.evaluated_count > max_evaluated {
            let detail = detail_text("evaluated=", evaluation.evaluated_count as u64, ", limit=", max_evaluated as u64);
            return Err(SessionError::new(SessionErrorCode::EvaluationLimitExceeded, Some(detail)));
        }
        let parsed = if self.compile_required { evaluation.compiled.formula_count } else { 0 };
        let metadata = DeltaMetadata {
            base_revision: self.base_revision,
            result_revision: self.expected_revision,
            mode: self.execution_mode,
            reason: self.reason,
            dirty_count: planned,
            evaluated_count: evaluation.evaluated_count,
            parsed_formula_count: parsed,
        };
        let delta = if incremental {
            let previous = match self.previous {
                Some(p) => p,
                None => return Err(SessionError::new(SessionErrorCode::CalculationUninitialized, None)),
            };
            build_incremental_delta(previous, &evaluation.calculation, &self.dirty, metadata,
                self.limits.max_delta_cells(), cancelled)?
        } else {
            build_delta(self.previous, &evaluation.calculation, metadata, self.limits.max_delta_cells(), cancelled)?
        };
        if cancelled() {
            return Err(SessionError::new(SessionErrorCode::Cancelled, None));
        }
        Ok(CompletedCalculation {
            expected_revision: self.expected_revision,
            base_cursor: self.base_cursor,
            options: self.options,
            compiled: evaluation.compiled,
            calculation: evaluation.calculation,
            delta,
        })
    }
}

impl WorkbookCalculationSession {
    pub closed spec fn revision_spec(self) -> u64 {
        self.revision
    }

    pub closed spec fn calculation_spec(self) -> Option<CalculationSnapshot> {
        self.calculation
    }

    pub closed spec fn calculation_options_spec(self) -> Option<CalculationOptions> {
        self.calculation_options
    }

    pub closed spec fn compiled_spec(self) -> Option<CompiledFacts> {
        self.compiled
    }

    pub closed spec fn dirty_spec(self) -> Seq<CalculationCellId> {
        self.dirty@
    }

    pub closed spec fn changes_pending_spec(self) -> bool {
        self.calculation_changes_pending
    }

    pub closed spec fn requires_full_rebuild_spec(self) -> bool {
        self.requires_full_rebuild
    }

    pub closed spec fn history_spec(self) -> DeltaHistory {
        self.history
    }

    /// A session around a workbook at `revision`, with nothing calculated yet.
    pub fn new(revision: u64, limits: SessionLimits) -> (r: Self)
        ensures
            r.revision_spec() == revision,
            r.calculation_spec() is None,
            r.calculation_options_spec() is None,
            r.compiled_spec() is None,
            r.dirty_spec().len() == 0,
            !r.changes_pending_spec(),
            r.requires_full_rebuild_spec(),
            r.history_spec().limits_spec() == limits,
            r.history_spec().next_cursor_spec() == 1,
            r.history_spec().deltas_spec().len() == 0,
    {
        WorkbookCalculationSession {
            revision,
            calculation: None,
            calculation_options: None,
            compiled: None,
            dirty: Vec::new(),
            calculation_changes_pending: false,
            requires_full_rebuild: true,
            history: DeltaHistory::new(limits),
        }
    }

    /// The workbook revision the session holds.
    pub fn revision(&self) -> (r: u64)
        ensures
            r == self.revision_spec(),
    {
        self.revision
    }

    /// The installed complete calculation, when there is one.
    pub fn calculation(&self) -> (r: Option<&CalculationSnapshot>)
        ensures
            r == match self.calculation_spec() {
                Some(c) => Some(&c),
                None => None::<&CalculationSnapshot>,
            },
    {
        match &self.calculation {
            Some(c) => Some(c),
            None => None,
        }
    }

    /// The formula cells waiting for an incremental pass.
    pub fn dirty(&self) -> (r: &[CalculationCellId])
        ensures
            r@ == self.dirty_spec(),
    {
        self.dirty.as_slice()
    }

    /// The delta history.
    pub fn history(&self) -> (r: &DeltaHistory)
        ensures
            *r == self.history_spec(),
    {
        &self.history
    }

    /// The refusal, if any, of an edit batch of `batch_len` operations expected at
    /// `expected_revision`, before the batch is applied.
    pub open spec fn change_refusal(self, expected_revision: u64, batch_len: usize) -> Option<(SessionErrorCode, Option<Seq<char>>)> {
        let max = self.history_spec().limits_spec()@.max_batch_operations;
        if expected_revision != self.revision_spec() {
            Some((SessionErrorCode::RevisionMismatch, Some(detail_pair("expected="@, expected_revision as nat, ", current="@, self.revision_spec() as nat))))
        } else if batch_len == 0 {
            Some((SessionErrorCode::EmptyBatch, None))
        } else if batch_len > max {
            Some((SessionErrorCode::BatchLimitExceeded, Some(detail_pair("operations="@, batch_len as nat, ", limit="@, max as nat))))
        } else {
            None
        }
    }

    /// Checks an edit batch of `batch_len` operations expected at `expected_revision` before it is
    /// applied: an outdated revision, an empty batch, a batch over the operation limit, or a
    /// cancellation is refused.
    pub fn check_changes<F: Fn() -> bool>(&self, expected_revision: u64, batch_len: usize, cancelled: &F) -> (r: Result<(), SessionError>)
        requires
            call_requires(*cancelled, ()),
        ensures
            match self.change_refusal(expected_revision, batch_len) {
                Some((code, detail)) => r matches Err(e) && e.code_spec() == code && match (e.detail_spec(), detail) {
                    (Some(t), Some(d)) => t@ == d,
                    (None, None) => true,
                    _ => false,
                },
                None => match r {
                    Ok(()) => call_ensures(*cancelled, (), false),
                    Err(e) => bare_error(e, SessionErrorCode::Cancelled) && call_ensures(*cancelled, (), true),
                },
            },
    {
        if expected_revision != self.revision {
            let detail = detail_text("expected=", expected_revision, ", current=", self.revision);
            return Err(SessionError::new(SessionErrorCode::RevisionMismatch, Some(detail)));
        }
        if batch_len == 0 {
            return Err(SessionError::new(SessionErrorCode::EmptyBatch, None));
        }
        let max = self.history.limits().max_batch_operations();
        if batch_len > max {
            let detail = detail_text("operations=", batch_len as u64, ", limit=", max as u64);
            return Err(SessionError::new(SessionErrorCode::BatchLimitExceeded, Some(detail)));
        }
        if cancelled() {
            return Err(SessionError::new(SessionErrorCode::Cancelled, None));
        }
        Ok(())
    }

    /// The dirty formula cells after a batch: the affected formulas the compiled index found when
    /// no topology or metadata changed and formulas are compiled, the current dirty cells
    /// otherwise.
    pub open spec fn replacement_dirty_spec(self, outcome: EditOutcome) -> Seq<CalculationCellId> {
        if !(outcome.topology_changed || outcome.calculation_metadata_changed) && self.compiled_spec() is Some {
            outcome.affected_formulas@
        } else {
            self.dirty_spec()
        }
    }

    /// Stages an applied edit batch for guarded installation. The batch is checked as
    /// `check_changes` checks it, and `cancelled` is polled again once it was applied.
    pub fn stage_changes<F: Fn() -> bool>(
        &self,
        expected_revision: u64,
        batch_len: usize,
        outcome: EditOutcome,
        cancelled: &F,
    ) -> (r: Result<PreparedEditBatch, SessionError>)
        requires
            call_requires(*cancelled, ()),
        ensures
            match r {
                Ok(p) => {
                    &&& self.change_refusal(expected_revision, batch_len) is None
                    &&& p.base_revision == self.revision_spec()
                    &&& p.base_cursor == self.history_spec().next_cursor_spec()
                    &&& p.revision == outcome.revision
                    &&& p.replacement_dirty@ == self.replacement_dirty_spec(outcome)
                    &&& p.next_requires_full_rebuild == (self.requires_full_rebuild_spec()
                        || outcome.topology_changed || outcome.calculation_metadata_changed)
                    &&& p.next_calculation_changes_pending == (self.changes_pending_spec()
                        || outcome.calculation_changed_cells > 0)
                },
                Err(e) => match self.change_refusal(expected_revision, batch_len) {
                    Some((code, detail)) => e.code_spec() == code,
                    None => bare_error(e, SessionErrorCode::Cancelled) && call_ensures(*cancelled, (), true),
                },
            },
    {
        self.check_changes(expected_revision, batch_len, cancelled)?;
        if cancelled() {
            return Err(SessionError::new(SessionErrorCode::Cancelled, None));
        }
        let topology_or_metadata = outcome.topology_changed || outcome.calculation_metadata_changed;
        let replacement_dirty = if !topology_or_metadata && self.compiled.is_some() {
            outcome.affected_formulas
        } else {
            copy_cells(&self.dirty)
        };
        Ok(PreparedEditBatch {
            base_revision: self.revision,
            base_cursor: self.history.next_cursor(),
            revision: outcome.revision,
            replacement_dirty,
            next_requires_full_rebuild: self.requires_full_rebuild || topology_or_metadata,
            next_calculation_changes_pending: self.calculation_changes_pending || outcome.calculation_changed_cells > 0,
        })
    }

    /// Installs a staged edit batch when the workbook revision and the delta cursor are still
    /// those it was staged against; otherwise the session is left unchanged.
    pub fn install_changes(&mut self, prepared: PreparedEditBatch) -> (r: Result<(), SessionError>)
        ensures
            r is Ok <==> (prepared.base_revision == old(self).revision_spec()
                && prepared.base_cursor == old(self).history_spec().next_cursor_spec()),
            r is Ok ==> {
                &&& final(self).revision_spec() == prepared.revision
                &&& final(self).dirty_spec() == prepared.replacement_dirty@
                &&& final(self).requires_full_rebuild_spec() == prepared.next_requires_full_rebuild
                &&& final(self).changes_pending_spec() == prepared.next_calculation_changes_pending
                &&& final(self).calculation_spec() == old(self).calculation_spec()
                &&& final(self).calculation_options_spec() == old(self).calculation_options_spec()
                &&& final(self).compiled_spec() == old(self).compiled_spec()
                &&& final(self).history_spec() == old(self).history_spec()
            },
            r matches Err(e) ==> *final(self) == *old(self) && (if prepared.base_revision != old(self).revision_spec() {
                paired_error(e, SessionErrorCode::RevisionMismatch, "expected="@, prepared.base_revision as nat, ", current="@, old(self).revision_spec() as nat)
            } else {
                paired_error(e, SessionErrorCode::StaleResult, "calculation_cursor="@, prepared.base_cursor as nat, ", current="@, old(self).history_spec().next_cursor_spec() as nat)
            }),
    {
        if prepared.base_revision != self.revision {
            let detail = detail_text("expected=", prepared.base_revision, ", current=", self.revision);
            return Err(SessionError::new(SessionErrorCode::RevisionMismatch, Some(detail)));
        }
        let next = self.history.next_cursor();
        if prepared.base_cursor != next {
            let detail = detail_text("calculation_cursor=", prepared.base_cursor, ", current=", next);
            return Err(SessionError::new(SessionErrorCode::StaleResult, Some(detail)));
        }
        self.requires_full_rebuild = prepared.next_requires_full_rebuild;
        self.dirty = prepared.replacement_dirty;
        self.calculation_changes_pending = prepared.next_calculation_changes_pending;
        self.revision = prepared.revision;
        Ok(())
    }

    /// What the session knows for a recalculation under `options`, with the caller's finding of
    /// whether the table topology differs from the compiled one.
    pub open spec fn recalculation_state_spec(self, options: CalculationOptions, table_topology_changed: bool) -> RecalculationState {
        RecalculationState {
            no_state: self.calculation_spec() is None || self.compiled_spec() is None,
            requires_full_rebuild: self.requires_full_rebuild_spec(),
            table_topology_changed: self.compiled_spec() is Some && table_topology_changed,
            options_changed: (self.calculation_options_spec() matches Some(p) && p@ != options@),
            compiled_limit_changed: (self.compiled_spec() matches Some(c) && c.limits != options@.limits),
            unsafe_dynamic: (self.compiled_spec() matches Some(c) && !c.incremental_safe) && self.changes_pending_spec(),
            dirty_count: self.dirty_spec().len() as usize,
            formula_count: match self.compiled_spec() {
                Some(c) => Some(c.formula_count),
                None => None,
            },
        }
    }

    /// Returns what the session knows for a recalculation under `options`.
    pub fn recalculation_state(&self, options: CalculationOptions, table_topology_changed: bool) -> (r: RecalculationState)
        ensures
            r == self.recalculation_state_spec(options, table_topology_changed),
    {
        let options_changed = match self.calculation_options {
            Some(p) => !p.same_as(&options),
            None => false,
        };
        let compiled_limit_changed = match self.compiled {
            Some(c) => c.limits != options.limits(),
            None => false,
        };
        let unsafe_dynamic = match self.compiled {
            Some(c) => !c.incremental_safe && self.calculation_changes_pending,
            None => false,
        };
        RecalculationState {
            no_state: self.calculation.is_none() || self.compiled.is_none(),
            requires_full_rebuild: self.requires_full_rebuild,
            table_topology_changed: self.compiled.is_some() && table_topology_changed,
            options_changed,
            compiled_limit_changed,
            unsafe_dynamic,
            dirty_count: self.dirty.len(),
            formula_count: match self.compiled {
                Some(c) => Some(c.formula_count),
                None => None,
            },
        }
    }

    /// Captures a calculation job. The mode and reason are those `decide_schedule` chooses for the
    /// session's state; a full job evaluates `formula_cells` (the workbook's formula cells, as the
    /// caller lists them), an incremental job the session's dirty cells. A calculation installed
    /// from a newer revision than the workbook's is refused, and `cancelled` is polled before and
    /// after.
    pub fn prepare_recalculation<F: Fn() -> bool>(
        &self,
        mode: RecalculationMode,
        options: CalculationOptions,
        table_topology_changed: bool,
        source_fingerprint: [u8; 32],
        formula_cells: Vec<CalculationCellId>,
        cancelled: &F,
    ) -> (r: Result<PreparedCalculation<'_>, SessionError>)
        requires
            call_requires(*cancelled, ()),
        ensures
            ({
                let state = self.recalculation_state_spec(options, table_topology_changed);
                match r {
                    Ok(p) => {
                        &&& schedule_spec(mode, state) == Ok::<_, (SessionErrorCode, Option<Seq<char>>)>((p.execution_mode, p.reason))
                        &&& p.expected_revision == self.revision_spec()
                        &&& p.base_cursor == self.history_spec().next_cursor_spec()
                        &&& p.base_revision == match self.calculation_spec() {
                            Some(c) => c.source_revision_spec(),
                            None => self.revision_spec(),
                        }
                        &&& p.options == options
                        &&& p.source_fingerprint == source_fingerprint
                        &&& p.compile_required == compile_required_spec(state)
                        &&& p.compiled == self.compiled_spec()
                        &&& p.previous == match self.calculation_spec() {
                            Some(c) => Some(&c),
                            None => None::<&CalculationSnapshot>,
                        }
                        &&& p.dirty@ == if p.execution_mode == CalculationExecutionMode::Full {
                            formula_cells@
                        } else {
                            self.dirty_spec()
                        }
                        &&& p.limits == self.history_spec().limits_spec()
                    },
                    Err(e) => {
                        ||| bare_error(e, SessionErrorCode::Cancelled) && call_ensures(*cancelled, (), true)
                        ||| e.code_spec() == SessionErrorCode::StateRevisionMismatch
                            && (self.calculation_spec() matches Some(c) && c.source_revision_spec() > self.revision_spec())
                        ||| schedule_spec(mode, state) matches Err((code, _)) && e.code_spec() == code
                    },
                }
            }),
    {
        if cancelled() {
            return Err(SessionError::new(SessionErrorCode::Cancelled, None));
        }
        let installed = match &self.calculation {
            Some(c) => Some(c.source_revision()),
            None => None,
        };
        let base_revision = calculation_base_revision(installed, self.revision)?;
        let state = self.recalculation_state(options, table_topology_changed);
        let (execution_mode, reason) = decide_schedule(mode, &state)?;
        let dirty = match execution_mode {
            CalculationExecutionMode::Full => formula_cells,
            CalculationExecutionMode::Incremental => copy_cells(&self.dirty),
        };
        if cancelled() {
            return Err(SessionError::new(SessionErrorCode::Cancelled, None));
        }
        let previous = match &self.calculation {
            Some(c) => Some(c),
            None => None,
        };
        Ok(PreparedCalculation {
            expected_revision: self.revision,
            base_cursor: self.history.next_cursor(),
            base_revision,
            options,
            source_fingerprint,
            execution_mode,
            reason,
            compile_required: compile_required(&state),
            compiled: self.compiled,
            previous,
            dirty,
            limits: self.history.limits(),
        })
    }

    /// Installs a completed calculation only when its workbook revision and delta cursor are
    /// current; the installed calculation, options and compiled formulas are replaced, the dirty
    /// cells cleared, and the delta recorded in the history under the next cursor. Any refusal
    /// leaves the session unchanged.
    pub fn install<F: Fn() -> bool>(&mut self, completed: CompletedCalculation, cancelled: &F) -> (r: Result<CalculationDelta, SessionError>)
        requires
            call_requires(*cancelled, ()),
        ensures
            match r {
                Ok(d) => {
                    &&& completed.expected_revision == old(self).revision_spec()
                    &&& completed.base_cursor == old(self).history_spec().next_cursor_spec()
                    &&& d.cursor_spec() == old(self).history_spec().next_cursor_spec()
                    &&& d.same_changes(completed.delta)
                    &&& final(self).history_spec().next_cursor_spec() == old(self).history_spec().next_cursor_spec() + 1
                    &&& final(self).history_spec().deltas_spec().last().same_delta(d)
                    &&& final(self).revision_spec() == old(self).revision_spec()
                    &&& final(self).calculation_spec() == Some(completed.calculation)
                    &&& final(self).calculation_options_spec() == Some(completed.options)
                    &&& final(self).compiled_spec() == Some(completed.compiled)
                    &&& final(self).dirty_spec().len() == 0
                    &&& !final(self).changes_pending_spec()
                    &&& !final(self).requires_full_rebuild_spec()
                },
                Err(e) => {
                    &&& *final(self) == *old(self)
                    &&& old(self).history_spec().install_refusal(e, completed.expected_revision, old(self).revision_spec(), completed.base_cursor)
                },
            },
    {
        let delta = self.history.install(&completed.delta, completed.expected_revision, self.revision, completed.base_cursor, cancelled)?;
        self.calculation = Some(completed.calculation);
        self.calculation_options = Some(completed.options);
        self.compiled = Some(completed.compiled);
        self.dirty = Vec::new();
        self.calculation_changes_pending = false;
        self.requires_full_rebuild = false;
        Ok(delta)
    }

    /// Applies one atomic, already-applied edit batch after checking the caller's expected
    /// revision: the session changes only when the batch passes the checks, and is left unchanged
    /// otherwise.
    pub fn apply_changes<F: Fn() -> bool>(
        &mut self,
        expected_revision: u64,
        batch_len: usize,
        outcome: EditOutcome,
        cancelled: &F,
    ) -> (r: Result<(), SessionError>)
        requires
            call_requires(*cancelled, ()),
        ensures
            r is Ok ==> {
                &&& old(self).change_refusal(expected_revision, batch_len) is None
                &&& final(self).revision_spec() == outcome.revision
                &&& final(self).dirty_spec() == old(self).replacement_dirty_spec(outcome)
                &&& final(self).requires_full_rebuild_spec() == (old(self).requires_full_rebuild_spec()
                    || outcome.topology_changed || outcome.calculation_metadata_changed)
                &&& final(self).changes_pending_spec() == (old(self).changes_pending_spec()
                    || outcome.calculation_changed_cells > 0)
                &&& final(self).calculation_spec() == old(self).calculation_spec()
                &&& final(self).history_spec() == old(self).history_spec()
            },
            r matches Err(e) ==> *final(self) == *old(self) && match old(self).change_refusal(expected_revision, batch_len) {
                Some((code, detail)) => e.code_spec() == code,
                None => bare_error(e, SessionErrorCode::Cancelled) && call_ensures(*cancelled, (), true),
            },
            old(self).change_refusal(expected_revision, batch_len) is None
                && (forall|b: bool| call_ensures(*cancelled, (), b) ==> !b) ==> r is Ok,
    {
        let prepared = self.stage_changes(expected_revision, batch_len, outcome, cancelled)?;
        self.install_changes(prepared)
    }
}

} // verus!
