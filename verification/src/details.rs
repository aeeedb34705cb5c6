//! The report of one calculated transaction and item-bounded pages over its detail sections.
use vstd::prelude::*;
use vstd::string::StringSliceAdditionalSpecFns;

use std::collections::hash_map::DefaultHasher;
use std::collections::hash_map::RandomState;
use std::hash::BuildHasher;
use std::hash::Hasher;

use crate::calculation::CalculationOptions;
use crate::cursor::{be_bytes, push_be, token_decodes_to, TransactionPageCursor};
use crate::delta::CalculationDelta;
use crate::history::{detail_pair, detail_text};
use crate::report::{
    detail_section_code, same_item, section_code_spec, InstallDeltaBasisReason, TransactionDetailItem, TransactionDetailSection,
    TransactionImpactCoverage, TRANSACTION_REPORT_CONTRACT_VERSION,
};
use crate::session::{
    CalculationDecisionReason, CalculationExecutionMode, CancellationToken, RecalculationMode, SessionError,
    SessionErrorCode,
};

verus! {

/// Calls `RandomState::new`, which seeds a hash builder with per-process random keys; nothing is
/// claimed of the keys.
#[verifier::external_body]
fn new_hash_keys() -> (r: RandomState) {
    RandomState::new()
}

/// Calls `RandomState::build_hasher`, which starts a hasher under the builder's keys; nothing is
/// claimed of the hasher's state.
#[verifier::external_body]
fn start_hasher(keys: &RandomState) -> (r: DefaultHasher) {
    keys.build_hasher()
}

/// Calls `Hasher::write` on a `DefaultHasher`, feeding it bytes; nothing is claimed of the new state.
#[verifier::external_body]
fn feed_bytes(hasher: &mut DefaultHasher, bytes: &[u8]) {
    hasher.write(bytes)
}

/// Calls `Hasher::finish` on a `DefaultHasher`; the value depends on the per-process keys, so
/// nothing is claimed of it.
#[verifier::external_body]
fn hasher_finish(hasher: &DefaultHasher) -> (r: u64) {
    hasher.finish()
}

/// The bytes a cursor authenticator hashes: a fixed label, then the contract version, report
/// identity, section code and offset, each big-endian.
pub open spec fn authenticator_message(
    version: u16,
    identity: u64,
    section: TransactionDetailSection,
    offset: usize,
) -> Seq<u8> {
    "cellrune.transaction.cursor.v1".spec_bytes() + be_bytes(version as nat, 2) + be_bytes(identity as nat, 8)
        + seq![section_code_spec(section)] + be_bytes(offset as nat, 8)
}

/// Lays out the bytes a cursor authenticator hashes.
pub fn authenticator_message_bytes(
    version: u16,
    identity: u64,
    section: TransactionDetailSection,
    offset: usize,
) -> (r: Vec<u8>)
    ensures
        r@ == authenticator_message(version, identity, section, offset),
{
    let label = "cellrune.transaction.cursor.v1".as_bytes();
    let mut out: Vec<u8> = Vec::new();
    let mut i: usize = 0;
    while i < label.len()
        invariant
            i <= label@.len(),
            out@ == label@.take(i as int),
        decreases label@.len() - i,
    {
        out.push(label[i]);
        assert(label@.take(i + 1) =~= label@.take(i as int).push(label@[i as int]));
        i = i + 1;
    }
    assert(label@.take(label@.len() as int) =~= label@);
    push_be(&mut out, version as u64, 2);
    push_be(&mut out, identity, 8);
    out.push(detail_section_code(section));
    push_be(&mut out, offset as u64, 8);
    assert(out@ =~= authenticator_message(version, identity, section, offset));
    out
}

/// One complete item-bounded transaction detail page.
#[derive(Debug)]
pub struct TransactionImpactPage {
    section: TransactionDetailSection,
    items: Vec<TransactionDetailItem>,
    next_cursor: Option<TransactionPageCursor>,
}

impl TransactionImpactPage {
    pub closed spec fn section_spec(self) -> TransactionDetailSection {
        self.section
    }

    pub closed spec fn items_spec(self) -> Seq<TransactionDetailItem> {
        self.items@
    }

    pub closed spec fn next_cursor_spec(self) -> Option<TransactionPageCursor> {
        self.next_cursor
    }

    /// Returns the detail section represented by this page.
    pub fn section(&self) -> (r: TransactionDetailSection)
        ensures
            r == self.section_spec(),
    {
        self.section
    }

    /// Returns the complete items in deterministic cell order.
    pub fn items(&self) -> (r: &[TransactionDetailItem])
        ensures
            r@ == self.items_spec(),
    {
        self.items.as_slice()
    }

    /// Returns the cursor for the next page, or `None` when this section is complete.
    pub fn next_cursor(&self) -> (r: Option<&TransactionPageCursor>)
        ensures
            match r {
                Some(c) => self.next_cursor_spec() == Some(*c),
                None => self.next_cursor_spec() is None,
            },
    {
        match &self.next_cursor {
            Some(c) => Some(c),
            None => None,
        }
    }
}

/// Identities, modes and counts that summarize one calculated transaction.
#[derive(Debug, Clone, Copy)]
pub struct TransactionSummary {
    /// Semantic revision of the transaction base.
    pub base_revision: u64,
    /// Semantic revision of the candidate.
    pub result_revision: u64,
    /// Semantic fingerprint of the transaction base.
    pub base_fingerprint: [u8; 32],
    /// Semantic fingerprint of the candidate.
    pub result_fingerprint: [u8; 32],
    /// Package input SHA-256 when the base is package-backed.
    pub input_hash: Option<[u8; 32]>,
    /// Options shared by base and candidate calculation.
    pub options: CalculationOptions,
    /// Whether the installed base calculation was reused without evaluator work.
    pub base_calculation_reused: bool,
    /// Base calculation execution mode.
    pub base_execution_mode: CalculationExecutionMode,
    /// Base calculation decision reason.
    pub base_decision_reason: CalculationDecisionReason,
    /// Caller-requested candidate recalculation mode.
    pub candidate_requested_mode: RecalculationMode,
    /// Selected candidate execution mode.
    pub candidate_execution_mode: CalculationExecutionMode,
    /// Candidate decision reason.
    pub candidate_decision_reason: CalculationDecisionReason,
    /// Whether the affected set is exact or conservative.
    pub impact_coverage: TransactionImpactCoverage,
    /// Formulas directly affected by the edit batch.
    pub direct_affected_count: usize,
    /// Formulas transitively affected by the edit batch.
    pub transitive_affected_count: usize,
    /// Formulas conservatively included when impact is not exact.
    pub conservative_affected_count: usize,
    /// Formula executions spent calculating an uncached base.
    pub base_evaluated_count: usize,
    /// Formula cells executed for the candidate.
    pub candidate_evaluated_count: usize,
    /// Formulas parsed across base and candidate work.
    pub parsed_formula_count: usize,
    /// Function iterations charged across base and candidate work.
    pub function_iteration_count: u64,
    /// Referenced cells charged across base and candidate work.
    pub reference_cell_count: u64,
    /// Introduced or changed preview materialized results.
    pub preview_changed_count: usize,
    /// Removed preview materialized results.
    pub preview_removed_count: usize,
    /// Introduced calculation issues.
    pub introduced_issue_count: usize,
    /// Resolved calculation issues.
    pub resolved_issue_count: usize,
    /// Issues replaced by a different issue.
    pub changed_issue_count: usize,
    /// Revision of the prior installed calculation used by the install delta.
    pub installed_calculation_revision: Option<u64>,
    /// Fingerprint of the prior installed calculation used by the install delta.
    pub installed_calculation_fingerprint: Option<[u8; 32]>,
    /// Options of the prior installed calculation used by the install delta.
    pub installed_calculation_options: Option<CalculationOptions>,
}

/// Complete bounded summary and pageable details for one calculated transaction, with the keys
/// that authenticate its cursors.
#[derive(Debug)]
pub struct WorkbookTransactionReport {
    identity: u64,
    cursor_keys: RandomState,
    summary: TransactionSummary,
    install_delta: CalculationDelta,
    install_basis_reasons: Vec<InstallDeltaBasisReason>,
    max_page_items: usize,
    affected_detail_count: usize,
    evaluated_detail_count: usize,
    preview_result_detail_count: usize,
    preview_issue_detail_count: usize,
    install_result_detail_count: usize,
    affected: Vec<TransactionDetailItem>,
    evaluated: Vec<TransactionDetailItem>,
    preview_results: Vec<TransactionDetailItem>,
    preview_issues: Vec<TransactionDetailItem>,
    install_results: Vec<TransactionDetailItem>,
}

/// Detail text of a page request above the configured maximum.
pub open spec fn page_limit_detail(requested: nat, limit: nat) -> Seq<char> {
    detail_pair("requested="@, requested, ", limit="@, limit)
}

impl WorkbookTransactionReport {
    pub closed spec fn identity_spec(self) -> u64 {
        self.identity
    }

    pub closed spec fn summary_spec(self) -> TransactionSummary {
        self.summary
    }

    pub closed spec fn install_delta_spec(self) -> CalculationDelta {
        self.install_delta
    }

    pub closed spec fn install_basis_reasons_spec(self) -> Seq<InstallDeltaBasisReason> {
        self.install_basis_reasons@
    }

    pub closed spec fn max_page_items_spec(self) -> usize {
        self.max_page_items
    }

    /// The retained items of one section.
    pub closed spec fn details_spec(self, section: TransactionDetailSection) -> Seq<TransactionDetailItem> {
        match section {
            TransactionDetailSection::Affected => self.affected@,
            TransactionDetailSection::Evaluated => self.evaluated@,
            TransactionDetailSection::PreviewResults => self.preview_results@,
            TransactionDetailSection::PreviewIssues => self.preview_issues@,
            TransactionDetailSection::InstallResults => self.install_results@,
        }
    }

    /// The complete item count of one section, kept when the retained items are released.
    pub closed spec fn detail_count_spec(self, section: TransactionDetailSection) -> usize {
        match section {
            TransactionDetailSection::Affected => self.affected_detail_count,
            TransactionDetailSection::Evaluated => self.evaluated_detail_count,
            TransactionDetailSection::PreviewResults => self.preview_result_detail_count,
            TransactionDetailSection::PreviewIssues => self.preview_issue_detail_count,
            TransactionDetailSection::InstallResults => self.install_result_detail_count,
        }
    }

    /// A report with identity `identity`, fresh cursor keys, and the given detail sections.
    pub fn new(
        identity: u64,
        summary: TransactionSummary,
        install_delta: CalculationDelta,
        install_basis_reasons: Vec<InstallDeltaBasisReason>,
        max_page_items: usize,
        affected: Vec<TransactionDetailItem>,
        evaluated: Vec<TransactionDetailItem>,
        preview_results: Vec<TransactionDetailItem>,
        preview_issues: Vec<TransactionDetailItem>,
        install_results: Vec<TransactionDetailItem>,
    ) -> (r: Self)
        ensures
            r.identity_spec() == identity,
            r.summary_spec() == summary,
            r.install_delta_spec() == install_delta,
            r.install_basis_reasons_spec() == install_basis_reasons@,
            r.max_page_items_spec() == max_page_items,
            r.details_spec(TransactionDetailSection::Affected) == affected@,
            r.details_spec(TransactionDetailSection::Evaluated) == evaluated@,
            r.details_spec(TransactionDetailSection::PreviewResults) == preview_results@,
            r.details_spec(TransactionDetailSection::PreviewIssues) == preview_issues@,
            r.details_spec(TransactionDetailSection::InstallResults) == install_results@,
            forall|section: TransactionDetailSection| #[trigger] r.detail_count_spec(section) == r.details_spec(section).len(),
    {
        WorkbookTransactionReport {
            identity,
            cursor_keys: new_hash_keys(),
            summary,
            install_delta,
            install_basis_reasons,
            max_page_items,
            affected_detail_count: affected.len(),
            evaluated_detail_count: evaluated.len(),
            preview_result_detail_count: preview_results.len(),
            preview_issue_detail_count: preview_issues.len(),
            install_result_detail_count: install_results.len(),
            affected,
            evaluated,
            preview_results,
            preview_issues,
            install_results,
        }
    }

    /// Returns the version of this report and cursor contract.
    pub fn contract_version(&self) -> (r: u16)
        ensures
            r == TRANSACTION_REPORT_CONTRACT_VERSION,
    {
        TRANSACTION_REPORT_CONTRACT_VERSION
    }

    /// Returns the transaction base semantic revision.
    pub fn base_revision(&self) -> (r: u64)
        ensures
            r == self.summary_spec().base_revision,
    {
        self.summary.base_revision
    }

    /// Returns the candidate semantic revision.
    pub fn result_revision(&self) -> (r: u64)
        ensures
            r == self.summary_spec().result_revision,
    {
        self.summary.result_revision
    }

    /// Returns the transaction base semantic fingerprint.
    pub fn base_fingerprint(&self) -> (r: [u8; 32])
        ensures
            r == self.summary_spec().base_fingerprint,
    {
        self.summary.base_fingerprint
    }

    /// Returns the candidate semantic fingerprint.
    pub fn result_fingerprint(&self) -> (r: [u8; 32])
        ensures
            r == self.summary_spec().result_fingerprint,
    {
        self.summary.result_fingerprint
    }

    /// Returns the package input SHA-256 when the base is package-backed.
    pub fn input_hash(&self) -> (r: Option<[u8; 32]>)
        ensures
            r == self.summary_spec().input_hash,
    {
        self.summary.input_hash
    }

    /// Returns the complete options shared by base and candidate calculation.
    pub fn calculation_options(&self) -> (r: CalculationOptions)
        ensures
            r == self.summary_spec().options,
    {
        self.summary.options
    }

    /// Returns whether the installed current base calculation was reused without evaluator work.
    pub fn base_calculation_reused(&self) -> (r: bool)
        ensures
            r == self.summary_spec().base_calculation_reused,
    {
        self.summary.base_calculation_reused
    }

    /// Returns the base calculation execution mode.
    pub fn base_execution_mode(&self) -> (r: CalculationExecutionMode)
        ensures
            r == self.summary_spec().base_execution_mode,
    {
        self.summary.base_execution_mode
    }

    /// Returns the base calculation decision reason.
    pub fn base_decision_reason(&self) -> (r: CalculationDecisionReason)
        ensures
            r == self.summary_spec().base_decision_reason,
    {
        self.summary.base_decision_reason
    }

    /// Returns the caller-requested candidate recalculation mode.
    pub fn candidate_requested_mode(&self) -> (r: RecalculationMode)
        ensures
            r == self.summary_spec().candidate_requested_mode,
    {
        self.summary.candidate_requested_mode
    }

    /// Returns the selected candidate calculation execution mode.
    pub fn candidate_execution_mode(&self) -> (r: CalculationExecutionMode)
        ensures
            r == self.summary_spec().candidate_execution_mode,
    {
        self.summary.candidate_execution_mode
    }

    /// Returns the candidate calculation decision reason.
    pub fn candidate_decision_reason(&self) -> (r: CalculationDecisionReason)
        ensures
            r == self.summary_spec().candidate_decision_reason,
    {
        self.summary.candidate_decision_reason
    }

    /// Returns whether the semantic affected set is exact or conservative.
    pub fn impact_coverage(&self) -> (r: TransactionImpactCoverage)
        ensures
            r == self.summary_spec().impact_coverage,
    {
        self.summary.impact_coverage
    }

    /// Returns the number of formulas directly affected by this edit batch.
    pub fn direct_affected_count(&self) -> (r: usize)
        ensures
            r == self.summary_spec().direct_affected_count,
    {
        self.summary.direct_affected_count
    }

    /// Returns the number of formulas transitively affected by this edit batch.
    pub fn transitive_affected_count(&self) -> (r: usize)
        ensures
            r == self.summary_spec().transitive_affected_count,
    {
        self.summary.transitive_affected_count
    }

    /// Returns the number of formulas conservatively included when impact is not exact.
    pub fn conservative_affected_count(&self) -> (r: usize)
        ensures
            r == self.summary_spec().conservative_affected_count,
    {
        self.summary.conservative_affected_count
    }

    /// Returns formula executions spent calculating an uncached transaction base.
    pub fn base_evaluated_count(&self) -> (r: usize)
        ensures
            r == self.summary_spec().base_evaluated_count,
    {
        self.summary.base_evaluated_count
    }

    /// Returns formula cells actually executed for the candidate.
    pub fn candidate_evaluated_count(&self) -> (r: usize)
        ensures
            r == self.summary_spec().candidate_evaluated_count,
    {
        self.summary.candidate_evaluated_count
    }

    /// Returns formulas parsed across base and candidate calculation work.
    pub fn parsed_formula_count(&self) -> (r: usize)
        ensures
            r == self.summary_spec().parsed_formula_count,
    {
        self.summary.parsed_formula_count
    }

    /// Returns function iterations charged across uncached base and candidate calculation work.
    pub fn function_iteration_count(&self) -> (r: u64)
        ensures
            r == self.summary_spec().function_iteration_count,
    {
        self.summary.function_iteration_count
    }

    /// Returns referenced cells charged across uncached base and candidate calculation work.
    pub fn reference_cell_count(&self) -> (r: u64)
        ensures
            r == self.summary_spec().reference_cell_count,
    {
        self.summary.reference_cell_count
    }

    /// Returns the number of introduced or changed preview materialized results.
    pub fn preview_changed_count(&self) -> (r: usize)
        ensures
            r == self.summary_spec().preview_changed_count,
    {
        self.summary.preview_changed_count
    }

    /// Returns the number of removed preview materialized results.
    pub fn preview_removed_count(&self) -> (r: usize)
        ensures
            r == self.summary_spec().preview_removed_count,
    {
        self.summary.preview_removed_count
    }

    /// Returns the number of introduced calculation issues.
    pub fn introduced_issue_count(&self) -> (r: usize)
        ensures
            r == self.summary_spec().introduced_issue_count,
    {
        self.summary.introduced_issue_count
    }

    /// Returns the number of resolved calculation issues.
    pub fn resolved_issue_count(&self) -> (r: usize)
        ensures
            r == self.summary_spec().resolved_issue_count,
    {
        self.summary.resolved_issue_count
    }

    /// Returns the number of calculation issues replaced by a different issue.
    pub fn changed_issue_count(&self) -> (r: usize)
        ensures
            r == self.summary_spec().changed_issue_count,
    {
        self.summary.changed_issue_count
    }

    /// Returns the exact delta reserved for installation and history append.
    pub fn install_delta(&self) -> (r: &CalculationDelta)
        ensures
            *r == self.install_delta_spec(),
    {
        &self.install_delta
    }

    /// Returns the prior installed calculation revision used by the install delta, when present.
    pub fn installed_calculation_revision(&self) -> (r: Option<u64>)
        ensures
            r == self.summary_spec().installed_calculation_revision,
    {
        self.summary.installed_calculation_revision
    }

    /// Returns the prior installed calculation fingerprint used by the install delta, when present.
    pub fn installed_calculation_fingerprint(&self) -> (r: Option<[u8; 32]>)
        ensures
            r == self.summary_spec().installed_calculation_fingerprint,
    {
        self.summary.installed_calculation_fingerprint
    }

    /// Returns the prior installed calculation options used by the install delta, when present.
    pub fn installed_calculation_options(&self) -> (r: Option<CalculationOptions>)
        ensures
            r == self.summary_spec().installed_calculation_options,
    {
        self.summary.installed_calculation_options
    }

    /// Returns whether installation compares against a different basis than preview.
    pub fn install_delta_basis_differs_from_preview_base(&self) -> (r: bool)
        ensures
            r == (self.install_basis_reasons_spec().len() > 0),
    {
        self.install_basis_reasons.len() > 0
    }

    /// Returns ordered reasons why the install-delta basis differs from the preview base.
    pub fn install_delta_basis_reasons(&self) -> (r: &[InstallDeltaBasisReason])
        ensures
            r@ == self.install_basis_reasons_spec(),
    {
        self.install_basis_reasons.as_slice()
    }

    /// Drops the retained detail items; the complete counts and the summary remain.
    pub fn release_details(&mut self)
        ensures
            final(self).identity_spec() == old(self).identity_spec(),
            final(self).summary_spec() == old(self).summary_spec(),
            final(self).install_delta_spec() == old(self).install_delta_spec(),
            final(self).install_basis_reasons_spec() == old(self).install_basis_reasons_spec(),
            final(self).max_page_items_spec() == old(self).max_page_items_spec(),
            forall|section: TransactionDetailSection| #[trigger] final(self).details_spec(section).len() == 0,
            forall|section: TransactionDetailSection| #[trigger] final(self).detail_count_spec(section)
                == old(self).detail_count_spec(section),
    {
        self.affected = Vec::new();
        self.evaluated = Vec::new();
        self.preview_results = Vec::new();
        self.preview_issues = Vec::new();
        self.install_results = Vec::new();
    }

    /// Returns the complete item count for one detail section.
    pub fn detail_count(&self, section: TransactionDetailSection) -> (r: usize)
        ensures
            r == self.detail_count_spec(section),
    {
        match section {
            TransactionDetailSection::Affected => self.affected_detail_count,
            TransactionDetailSection::Evaluated => self.evaluated_detail_count,
            TransactionDetailSection::PreviewResults => self.preview_result_detail_count,
            TransactionDetailSection::PreviewIssues => self.preview_issue_detail_count,
            TransactionDetailSection::InstallResults => self.install_result_detail_count,
        }
    }

    /// Returns the retained items of one section.
    pub fn details(&self, section: TransactionDetailSection) -> (r: &[TransactionDetailItem])
        ensures
            r@ == self.details_spec(section),
    {
        match section {
            TransactionDetailSection::Affected => self.affected.as_slice(),
            TransactionDetailSection::Evaluated => self.evaluated.as_slice(),
            TransactionDetailSection::PreviewResults => self.preview_results.as_slice(),
            TransactionDetailSection::PreviewIssues => self.preview_issues.as_slice(),
            TransactionDetailSection::InstallResults => self.install_results.as_slice(),
        }
    }

    /// The authenticator of a cursor position: the hash of `authenticator_message` of its fields
    /// under this report's per-process keys. The hash value is not stated.
    fn cursor_authenticator(
        &self,
        contract_version: u16,
        report_identity: u64,
        section: TransactionDetailSection,
        offset: usize,
    ) -> u64 {
        let message = authenticator_message_bytes(contract_version, report_identity, section, offset);
        let mut hasher = start_hasher(&self.cursor_keys);
        feed_bytes(&mut hasher, message.as_slice());
        hasher_finish(&hasher)
    }

    /// A cursor of this report at `offset` of `section`.
    fn cursor(&self, section: TransactionDetailSection, offset: usize) -> (r: TransactionPageCursor)
        ensures
            r.identity_spec() == self.identity_spec(),
            r.version_spec() == TRANSACTION_REPORT_CONTRACT_VERSION,
            r.section_spec() == section,
            r.offset_spec() == offset,
    {
        let authenticator = self.cursor_authenticator(TRANSACTION_REPORT_CONTRACT_VERSION, self.identity, section, offset);
        TransactionPageCursor::new(self.identity, TRANSACTION_REPORT_CONTRACT_VERSION, section, offset, authenticator)
    }

    /// Reads a cursor of this report back from its token; a token that does not decode, or
    /// whose identity, version or authenticator is not this report's, is refused with
    /// `TransactionCursorInvalid`.
    pub fn cursor_from_token(&self, token: &str) -> (r: Result<TransactionPageCursor, SessionError>)
        ensures
            match r {
                Ok(c) => {
                    &&& crate::cursor::decode_token(token@) == Some((
                        c.version_spec(),
                        c.identity_spec(),
                        c.section_spec(),
                        c.offset_spec(),
                        c.authenticator_spec(),
                    ))
                    &&& c.identity_spec() == self.identity_spec()
                    &&& c.version_spec() == TRANSACTION_REPORT_CONTRACT_VERSION
                },
                Err(e) => {
                    &&& e.code_spec() == SessionErrorCode::TransactionCursorInvalid
                    &&& e.detail_spec() is None
                    &&& crate::cursor::decode_token(token@) is Some ==> exists|c: TransactionPageCursor|
                        #[trigger] token_decodes_to(token@, c)
                },
            },
    {
        let cursor = match TransactionPageCursor::from_token(token) {
            Ok(c) => c,
            Err(e) => return Err(e),
        };
        assert(token_decodes_to(token@, cursor));
        if cursor.report_identity() != self.identity || cursor.contract_version() != TRANSACTION_REPORT_CONTRACT_VERSION {
            return Err(SessionError::new(SessionErrorCode::TransactionCursorInvalid, None));
        }
        let expected = self.cursor_authenticator(
            cursor.contract_version(),
            cursor.report_identity(),
            cursor.section(),
            cursor.offset(),
        );
        if cursor.authenticator() != expected {
            return Err(SessionError::new(SessionErrorCode::TransactionCursorInvalid, None));
        }
        Ok(cursor)
    }

    /// Whether `cursor`, if there is one, was issued by this report for `section` with the
    /// authenticator `expected`.
    pub open spec fn cursor_accepted(
        self,
        section: TransactionDetailSection,
        cursor: Option<&TransactionPageCursor>,
        expected: u64,
    ) -> bool {
        match cursor {
            None => true,
            Some(c) => {
                &&& c.identity_spec() == self.identity_spec()
                &&& c.version_spec() == TRANSACTION_REPORT_CONTRACT_VERSION
                &&& c.section_spec() == section
                &&& c.authenticator_spec() == expected
            },
        }
    }

    /// Whether `r` answers a request for the page of `section` after `cursor`, or from the start,
    /// of `limit` items (the configured maximum when zero), when `expected` is the authenticator
    /// this report gives the cursor's position: the items from the cursor's offset up to the
    /// limit with a cursor to the rest; `TransactionCursorInvalid` exactly when the cursor is not
    /// accepted or, under an allowed size, starts past the end; `PageLimitExceeded` exactly when
    /// an accepted request asks for more than the maximum; or a cancellation.
    pub open spec fn answers_page_with(
        self,
        section: TransactionDetailSection,
        cursor: Option<&TransactionPageCursor>,
        limit: usize,
        expected: u64,
        r: Result<TransactionImpactPage, SessionError>,
    ) -> bool {
        let details = self.details_spec(section);
        let max = self.max_page_items_spec();
        let size = if limit == 0 { max as int } else { limit as int };
        let accepted = self.cursor_accepted(section, cursor, expected);
        let offset = match cursor {
            Some(c) => c.offset_spec() as int,
            None => 0,
        };
        match r {
            Ok(page) => {
                let end = if offset + size < details.len() { offset + size } else { details.len() as int };
                &&& accepted
                &&& size <= max
                &&& offset <= details.len()
                &&& page.section_spec() == section
                &&& page.items_spec().len() == end - offset
                &&& forall|i: int| 0 <= i < end - offset
                    ==> same_item(#[trigger] page.items_spec()[i], details[offset + i])
                &&& match page.next_cursor_spec() {
                    Some(next) => end < details.len() && next.identity_spec() == self.identity_spec()
                        && next.version_spec() == TRANSACTION_REPORT_CONTRACT_VERSION
                        && next.section_spec() == section && next.offset_spec() == end,
                    None => end == details.len(),
                }
            },
            Err(e) => {
                ||| e.code_spec() == SessionErrorCode::Cancelled && e.detail_spec() is None
                ||| {
                    &&& e.code_spec() == SessionErrorCode::TransactionCursorInvalid
                    &&& e.detail_spec() is None
                    &&& (!accepted || (size <= max && offset > details.len()))
                }
                ||| {
                    &&& e.code_spec() == SessionErrorCode::PageLimitExceeded
                    &&& accepted
                    &&& size > max
                    &&& e.detail_spec() matches Some(t)
                    &&& t@ == page_limit_detail(size as nat, max as nat)
                }
            },
        }
    }

    /// Whether `r` answers the page request for some authenticator of the cursor's position; the
    /// authenticator comes from per-process keys, so only a request without a cursor is decided
    /// in full.
    pub open spec fn answers_page(
        self,
        section: TransactionDetailSection,
        cursor: Option<&TransactionPageCursor>,
        limit: usize,
        r: Result<TransactionImpactPage, SessionError>,
    ) -> bool {
        exists|expected: u64| #[trigger] self.answers_page_with(section, cursor, limit, expected, r)
    }

    /// Returns one complete item-bounded page of a section, after `cursor` or from the start,
    /// where `expected` is the authenticator this report gives the cursor's position.
    ///
    /// A zero `limit` selects the configured maximum. A cursor of another report, version or
    /// section, with another authenticator than `expected` or past the end of the section is
    /// refused with `TransactionCursorInvalid`; a larger limit than the maximum with
    /// `PageLimitExceeded`; `cancelled` is polled before, during and after copying the items.
    pub fn page_with_authenticator<F: Fn() -> bool>(
        &self,
        section: TransactionDetailSection,
        cursor: Option<&TransactionPageCursor>,
        limit: usize,
        expected: u64,
        cancelled: &F,
    ) -> (r: Result<TransactionImpactPage, SessionError>)
        requires
            call_requires(*cancelled, ()),
        ensures
            self.answers_page_with(section, cursor, limit, expected, r),
            r matches Err(e) && e.code_spec() == SessionErrorCode::Cancelled ==> call_ensures(*cancelled, (), true),
            (forall|b: bool| call_ensures(*cancelled, (), b) ==> b) ==> (r matches Err(e)
                && e.code_spec() == SessionErrorCode::Cancelled),
    {
        if cancelled() {
            return Err(SessionError::new(SessionErrorCode::Cancelled, None));
        }
        let offset = match cursor {
            Some(c) => {
                if c.report_identity() != self.identity || c.contract_version() != TRANSACTION_REPORT_CONTRACT_VERSION
                    || c.section() != section || c.authenticator() != expected {
                    return Err(SessionError::new(SessionErrorCode::TransactionCursorInvalid, None));
                }
                c.offset()
            },
            None => 0,
        };
        let size = if limit == 0 { self.max_page_items } else { limit };
        if size > self.max_page_items {
            let detail = detail_text("requested=", size as u64, ", limit=", self.max_page_items as u64);
            return Err(SessionError::new(SessionErrorCode::PageLimitExceeded, Some(detail)));
        }
        let details = self.details(section);
        if offset > details.len() {
            return Err(SessionError::new(SessionErrorCode::TransactionCursorInvalid, None));
        }
        let end = if details.len() - offset > size { offset + size } else { details.len() };
        let mut items: Vec<TransactionDetailItem> = Vec::new();
        let mut i = offset;
        while i < end
            invariant
                offset <= i <= end <= details@.len(),
                items@.len() == i - offset,
                call_requires(*cancelled, ()),
                forall|k: int| 0 <= k < i - offset ==> same_item(#[trigger] items@[k], details@[offset + k]),
            decreases end - i,
        {
            if cancelled() {
                return Err(SessionError::new(SessionErrorCode::Cancelled, None));
            }
            items.push(details[i].duplicate());
            i = i + 1;
        }
        if cancelled() {
            return Err(SessionError::new(SessionErrorCode::Cancelled, None));
        }
        let next_cursor = if end < details.len() { Some(self.cursor(section, end)) } else { None };
        Ok(TransactionImpactPage { section, items, next_cursor })
    }

    /// Returns one complete item-bounded page of a section, after `cursor` or from the start,
    /// checking the cursor's authenticator under this report's keys.
    pub fn page_polling<F: Fn() -> bool>(
        &self,
        section: TransactionDetailSection,
        cursor: Option<&TransactionPageCursor>,
        limit: usize,
        cancelled: &F,
    ) -> (r: Result<TransactionImpactPage, SessionError>)
        requires
            call_requires(*cancelled, ()),
        ensures
            self.answers_page(section, cursor, limit, r),
            r matches Err(e) && e.code_spec() == SessionErrorCode::Cancelled ==> call_ensures(*cancelled, (), true),
            (forall|b: bool| call_ensures(*cancelled, (), b) ==> b) ==> (r matches Err(e)
                && e.code_spec() == SessionErrorCode::Cancelled),
    {
        let expected = match cursor {
            Some(c) => self.cursor_authenticator(c.contract_version(), c.report_identity(), c.section(), c.offset()),
            None => 0,
        };
        let r = self.page_with_authenticator(section, cursor, limit, expected, cancelled);
        assert(self.answers_page_with(section, cursor, limit, expected, r));
        r
    }

    /// Returns one complete item-bounded page, polling `cancellation`.
    pub fn page_cancellable(
        &self,
        section: TransactionDetailSection,
        cursor: Option<&TransactionPageCursor>,
        limit: usize,
        cancellation: &CancellationToken,
    ) -> (r: Result<TransactionImpactPage, SessionError>)
        ensures
            self.answers_page(section, cursor, limit, r),
    {
        let poll = || cancellation.is_cancelled();
        self.page_polling(section, cursor, limit, &poll)
    }

    /// Returns one complete item-bounded page.
    pub fn page(
        &self,
        section: TransactionDetailSection,
        cursor: Option<&TransactionPageCursor>,
        limit: usize,
    ) -> (r: Result<TransactionImpactPage, SessionError>)
        ensures
            self.answers_page(section, cursor, limit, r),
            !(r matches Err(e) && e.code_spec() == SessionErrorCode::Cancelled),
    {
        let never = || -> (c: bool)
            ensures
                !c,
        { false };
        self.page_polling(section, cursor, limit, &never)
    }
}

/// Calculation delta and fingerprints returned by a successful transaction install.
#[derive(Debug)]
pub struct WorkbookTransactionReceipt {
    calculation_delta: CalculationDelta,
    base_fingerprint: [u8; 32],
    result_fingerprint: [u8; 32],
}

impl WorkbookTransactionReceipt {
    pub closed spec fn calculation_delta_spec(self) -> CalculationDelta {
        self.calculation_delta
    }

    pub closed spec fn base_fingerprint_spec(self) -> [u8; 32] {
        self.base_fingerprint
    }

    pub closed spec fn result_fingerprint_spec(self) -> [u8; 32] {
        self.result_fingerprint
    }

    /// Records an installed delta and the fingerprints checked before and produced by it.
    pub fn new(calculation_delta: CalculationDelta, base_fingerprint: [u8; 32], result_fingerprint: [u8; 32]) -> (r: Self)
        ensures
            r.calculation_delta_spec() == calculation_delta,
            r.base_fingerprint_spec() == base_fingerprint,
            r.result_fingerprint_spec() == result_fingerprint,
    {
        WorkbookTransactionReceipt { calculation_delta, base_fingerprint, result_fingerprint }
    }

    /// Returns the exact installed and history-appended calculation delta.
    pub fn calculation_delta(&self) -> (r: &CalculationDelta)
        ensures
            *r == self.calculation_delta_spec(),
    {
        &self.calculation_delta
    }

    /// Returns the semantic fingerprint checked before installation.
    pub fn base_fingerprint(&self) -> (r: [u8; 32])
        ensures
            r == self.base_fingerprint_spec(),
    {
        self.base_fingerprint
    }

    /// Returns the installed candidate semantic fingerprint.
    pub fn result_fingerprint(&self) -> (r: [u8; 32])
        ensures
            r == self.result_fingerprint_spec(),
    {
        self.result_fingerprint
    }
}

/// Lifecycle of a completed transaction.
#[derive(Debug, Clone, Copy, PartialEq, Eq, Structural)]
pub enum CompletedTransactionState {
    /// Calculated and still pageable.
    Completed,
    /// Released without installing.
    Discarded,
}

/// A fully calculated transaction whose report can be paged until it is discarded.
#[derive(Debug)]
pub struct CompletedWorkbookTransaction {
    report: WorkbookTransactionReport,
    state: CompletedTransactionState,
}

/// The error answered once a transaction has been consumed.
pub open spec fn consumed_error(e: SessionError) -> bool {
    e.code_spec() == SessionErrorCode::TransactionConsumed && e.detail_spec() is None
}

impl CompletedWorkbookTransaction {
    pub closed spec fn report_spec(self) -> WorkbookTransactionReport {
        self.report
    }

    pub closed spec fn state_spec(self) -> CompletedTransactionState {
        self.state
    }

    /// A completed, pageable transaction with its report.
    pub fn new(report: WorkbookTransactionReport) -> (r: Self)
        ensures
            r.report_spec() == report,
            r.state_spec() == CompletedTransactionState::Completed,
    {
        CompletedWorkbookTransaction { report, state: CompletedTransactionState::Completed }
    }

    /// Returns the complete summary; detail paging is available only before the transaction is
    /// consumed.
    pub fn report(&self) -> (r: &WorkbookTransactionReport)
        ensures
            *r == self.report_spec(),
    {
        &self.report
    }

    fn ensure_pageable(&self) -> (r: Result<(), SessionError>)
        ensures
            match r {
                Ok(()) => self.state_spec() == CompletedTransactionState::Completed,
                Err(e) => self.state_spec() != CompletedTransactionState::Completed && consumed_error(e),
            },
    {
        if self.state == CompletedTransactionState::Completed {
            Ok(())
        } else {
            Err(SessionError::new(SessionErrorCode::TransactionConsumed, None))
        }
    }

    /// Returns one bounded detail page of the retained report, or `TransactionConsumed` once
    /// the transaction was discarded.
    pub fn page(
        &self,
        section: TransactionDetailSection,
        cursor: Option<&TransactionPageCursor>,
        limit: usize,
    ) -> (r: Result<TransactionImpactPage, SessionError>)
        ensures
            self.state_spec() == CompletedTransactionState::Completed ==> self.report_spec().answers_page(section, cursor, limit, r),
            self.state_spec() != CompletedTransactionState::Completed ==> (r matches Err(e) && consumed_error(e)),
    {
        match self.ensure_pageable() {
            Ok(()) => {},
            Err(e) => return Err(e),
        }
        self.report.page(section, cursor, limit)
    }

    /// Returns one bounded detail page, polling `cancellation`.
    pub fn page_cancellable(
        &self,
        section: TransactionDetailSection,
        cursor: Option<&TransactionPageCursor>,
        limit: usize,
        cancellation: &CancellationToken,
    ) -> (r: Result<TransactionImpactPage, SessionError>)
        ensures
            self.state_spec() == CompletedTransactionState::Completed ==> self.report_spec().answers_page(section, cursor, limit, r),
            self.state_spec() != CompletedTransactionState::Completed ==> (r matches Err(e) && consumed_error(e)),
    {
        match self.ensure_pageable() {
            Ok(()) => {},
            Err(e) => return Err(e),
        }
        self.report.page_cancellable(section, cursor, limit, cancellation)
    }

    /// Returns one bounded detail page after the cursor a token carries, from the start when
    /// there is no token, polling `cancellation`; a token that is not one of this report's
    /// cursors is refused with `TransactionCursorInvalid`.
    pub fn page_from_token_cancellable(
        &self,
        section: TransactionDetailSection,
        cursor_token: Option<&str>,
        limit: usize,
        cancellation: &CancellationToken,
    ) -> (r: Result<TransactionImpactPage, SessionError>)
        ensures
            self.state_spec() != CompletedTransactionState::Completed ==> (r matches Err(e) && consumed_error(e)),
            self.state_spec() == CompletedTransactionState::Completed ==> match cursor_token {
                None => self.report_spec().answers_page(section, None, limit, r),
                Some(token) => (r matches Err(e) && e.code_spec() == SessionErrorCode::TransactionCursorInvalid
                    && e.detail_spec() is None) && crate::cursor::decode_token(token@) is None
                    || crate::cursor::decode_token(token@) is Some && exists|c: TransactionPageCursor| {
                    &&& token_decodes_to(token@, c)
                    &&& #[trigger] self.report_spec().answers_page(section, Some(&c), limit, r)
                },
            },
    {
        match self.ensure_pageable() {
            Ok(()) => {},
            Err(e) => return Err(e),
        }
        match cursor_token {
            None => self.report.page_cancellable(section, None, limit, cancellation),
            Some(token) => {
                let cursor = match self.report.cursor_from_token(token) {
                    Ok(c) => c,
                    Err(e) => {
                        proof {
                            if crate::cursor::decode_token(token@) is Some {
                                let c = choose|c: TransactionPageCursor| #[trigger] token_decodes_to(token@, c);
                                let other: u64 = if c.authenticator_spec() == 0 { 1 } else { 0 };
                                let r: Result<TransactionImpactPage, SessionError> = Err(e);
                                assert(self.report_spec().answers_page_with(section, Some(&c), limit, other, r));
                                assert(self.report_spec().answers_page(section, Some(&c), limit, r));
                            }
                        }
                        return Err(e);
                    },
                };
                assert(token_decodes_to(token@, cursor));
                let r = self.report.page_cancellable(section, Some(&cursor), limit, cancellation);
                assert(self.report_spec().answers_page(section, Some(&cursor), limit, r));
                r
            },
        }
    }

    /// Returns one bounded detail page after the cursor a token carries, from the start when
    /// there is no token.
    pub fn page_from_token(
        &self,
        section: TransactionDetailSection,
        cursor_token: Option<&str>,
        limit: usize,
    ) -> (r: Result<TransactionImpactPage, SessionError>)
        ensures
            self.state_spec() != CompletedTransactionState::Completed ==> (r matches Err(e) && consumed_error(e)),
            self.state_spec() == CompletedTransactionState::Completed ==> match cursor_token {
                None => self.report_spec().answers_page(section, None, limit, r),
                Some(token) => (r matches Err(e) && e.code_spec() == SessionErrorCode::TransactionCursorInvalid
                    && e.detail_spec() is None) && crate::cursor::decode_token(token@) is None
                    || crate::cursor::decode_token(token@) is Some && exists|c: TransactionPageCursor| {
                    &&& token_decodes_to(token@, c)
                    &&& #[trigger] self.report_spec().answers_page(section, Some(&c), limit, r)
                },
            },
    {
        let never = CancellationToken::new();
        self.page_from_token_cancellable(section, cursor_token, limit, &never)
    }

    /// Releases the transaction's retained details; a consumed transaction is refused with
    /// `TransactionConsumed` and left as it is.
    pub fn discard(&mut self) -> (r: Result<(), SessionError>)
        ensures
            final(self).state_spec() != CompletedTransactionState::Completed,
            match r {
                Ok(()) => {
                    &&& old(self).state_spec() == CompletedTransactionState::Completed
                    &&& final(self).state_spec() == CompletedTransactionState::Discarded
                    &&& final(self).report_spec().summary_spec() == old(self).report_spec().summary_spec()
                    &&& forall|section: TransactionDetailSection| #[trigger] final(self).report_spec().details_spec(section).len() == 0
                    &&& forall|section: TransactionDetailSection| #[trigger] final(self).report_spec().detail_count_spec(section)
                        == old(self).report_spec().detail_count_spec(section)
                },
                Err(e) => {
                    &&& old(self).state_spec() != CompletedTransactionState::Completed
                    &&& consumed_error(e)
                    &&& *final(self) == *old(self)
                },
            },
    {
        if self.state != CompletedTransactionState::Completed {
            return Err(SessionError::new(SessionErrorCode::TransactionConsumed, None));
        }
        self.report.release_details();
        self.state = CompletedTransactionState::Discarded;
        Ok(())
    }
}


/// The items of `pages`, page after page.
pub open spec fn paged_items(pages: Seq<TransactionImpactPage>) -> Seq<TransactionDetailItem>
    decreases pages.len(),
{
    if pages.len() == 0 {
        Seq::empty()
    } else {
        paged_items(pages.drop_last()) + pages.last().items_spec()
    }
}

/// Where the reader stands after `page`: at its next cursor's offset, or at the end of `details`.
pub open spec fn page_end(page: TransactionImpactPage, details_len: int) -> int {
    match page.next_cursor_spec() {
        Some(c) => c.offset_spec() as int,
        None => details_len,
    }
}

/// Whether `pages` are the pages a reader of `section` gets by starting without a cursor and then
/// following each page's next cursor, each presented with the authenticator it carries, until a
/// page has no next cursor.
pub open spec fn follows_cursors(
    report: WorkbookTransactionReport,
    section: TransactionDetailSection,
    limit: usize,
    pages: Seq<TransactionImpactPage>,
) -> bool {
    &&& pages.len() > 0
    &&& report.answers_page_with(section, None, limit, 0, Ok(pages[0]))
    &&& forall|k: int| 0 <= k < pages.len() - 1 ==> (#[trigger] pages[k].next_cursor_spec() matches Some(c)
        && report.answers_page_with(section, Some(&c), limit, c.authenticator_spec(), Ok(pages[k + 1])))
    &&& pages.last().next_cursor_spec() is None
}

proof fn lemma_paging_prefix(
    report: WorkbookTransactionReport,
    section: TransactionDetailSection,
    limit: usize,
    pages: Seq<TransactionImpactPage>,
    j: int,
)
    requires
        follows_cursors(report, section, limit, pages),
        0 <= j < pages.len(),
    ensures
        paged_items(pages.take(j + 1)).len() == page_end(pages[j], report.details_spec(section).len() as int),
        page_end(pages[j], report.details_spec(section).len() as int) <= report.details_spec(section).len(),
        forall|i: int| 0 <= i < paged_items(pages.take(j + 1)).len()
            ==> same_item(#[trigger] paged_items(pages.take(j + 1))[i], report.details_spec(section)[i]),
    decreases j,
{
    let details = report.details_spec(section);
    let taken = pages.take(j + 1);
    assert(taken.drop_last() =~= pages.take(j));
    assert(taken.last() == pages[j]);
    if j == 0 {
        assert(pages.take(0) =~= Seq::<TransactionImpactPage>::empty());
        assert(paged_items(pages.take(0)) == Seq::<TransactionDetailItem>::empty());
        assert(paged_items(taken) == paged_items(pages.take(0)) + pages[0].items_spec());
        assert(paged_items(taken) =~= pages[0].items_spec());
    } else {
        lemma_paging_prefix(report, section, limit, pages, j - 1);
        let before = paged_items(pages.take(j));
        assert(pages[j - 1].next_cursor_spec() is Some);
        let c = pages[j - 1].next_cursor_spec()->0;
        assert(report.answers_page_with(section, Some(&c), limit, c.authenticator_spec(), Ok(pages[j])));
        assert(paged_items(taken) == before + pages[j].items_spec());
        assert forall|i: int| 0 <= i < paged_items(taken).len()
            implies same_item(#[trigger] paged_items(taken)[i], details[i]) by {
            if i >= before.len() {
                assert(paged_items(taken)[i] == pages[j].items_spec()[i - before.len()]);
            } else {
                assert(paged_items(taken)[i] == before[i]);
            }
        }
    }
}

/// Reading a section page by page, starting without a cursor and following each page's next
/// cursor with the authenticator it carries, yields the section's items in order, all of them:
/// every page belongs to the section, holds at most the page size, and every page but the last
/// holds exactly the page size.
pub proof fn lemma_paging_covers_section(
    report: WorkbookTransactionReport,
    section: TransactionDetailSection,
    limit: usize,
    pages: Seq<TransactionImpactPage>,
)
    requires
        follows_cursors(report, section, limit, pages),
    ensures
        paged_items(pages).len() == report.details_spec(section).len(),
        forall|i: int| 0 <= i < paged_items(pages).len()
            ==> same_item(#[trigger] paged_items(pages)[i], report.details_spec(section)[i]),
        forall|k: int| 0 <= k < pages.len() ==> (#[trigger] pages[k]).section_spec() == section
            && pages[k].items_spec().len() <= (if limit == 0 { report.max_page_items_spec() as int } else { limit as int }),
        forall|k: int| 0 <= k < pages.len() - 1 ==> (#[trigger] pages[k]).items_spec().len()
            == (if limit == 0 { report.max_page_items_spec() as int } else { limit as int }),
{
    lemma_paging_prefix(report, section, limit, pages, pages.len() - 1);
    assert(pages.take(pages.len() as int) =~= pages);
    assert forall|k: int| 0 <= k < pages.len() implies (#[trigger] pages[k]).section_spec() == section
        && pages[k].items_spec().len() <= (if limit == 0 { report.max_page_items_spec() as int } else { limit as int }) by {
        if k > 0 {
            let c = pages[k - 1].next_cursor_spec()->0;
            assert(report.answers_page_with(section, Some(&c), limit, c.authenticator_spec(), Ok(pages[k])));
        }
    }
    assert forall|k: int| 0 <= k < pages.len() - 1 implies (#[trigger] pages[k]).items_spec().len()
        == (if limit == 0 { report.max_page_items_spec() as int } else { limit as int }) by {
        if k > 0 {
            let c = pages[k - 1].next_cursor_spec()->0;
            assert(report.answers_page_with(section, Some(&c), limit, c.authenticator_spec(), Ok(pages[k])));
        }
        assert(pages[k].next_cursor_spec() is Some);
    }
}


/// A cursor's token names that cursor: any cursor the token decodes to carries the cursor's
/// fields, so a page requested with the token is answered exactly as the page after the cursor.
pub proof fn lemma_token_page_is_cursor_page(
    report: WorkbookTransactionReport,
    section: TransactionDetailSection,
    c: TransactionPageCursor,
    d: TransactionPageCursor,
    limit: usize,
    r: Result<TransactionImpactPage, SessionError>,
)
    requires
        token_decodes_to(c.token_spec(), d),
    ensures
        forall|expected: u64| #[trigger] report.answers_page_with(section, Some(&d), limit, expected, r)
            == report.answers_page_with(section, Some(&c), limit, expected, r),
        report.answers_page(section, Some(&d), limit, r) == report.answers_page(section, Some(&c), limit, r),
{
    crate::cursor::lemma_token_round_trip(c);
    assert forall|expected: u64| #[trigger] report.answers_page_with(section, Some(&d), limit, expected, r)
        == report.answers_page_with(section, Some(&c), limit, expected, r) by {
        assert(report.cursor_accepted(section, Some(&d), expected) == report.cursor_accepted(section, Some(&c), expected));
    }
    if report.answers_page(section, Some(&d), limit, r) {
        let e = choose|expected: u64| #[trigger] report.answers_page_with(section, Some(&d), limit, expected, r);
        assert(report.answers_page_with(section, Some(&c), limit, e, r));
    }
    if report.answers_page(section, Some(&c), limit, r) {
        let e = choose|expected: u64| #[trigger] report.answers_page_with(section, Some(&c), limit, expected, r);
        assert(report.answers_page_with(section, Some(&d), limit, e, r));
    }
}

} // verus!
