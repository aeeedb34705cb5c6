//! Retained history of installed calculation deltas and cursor paging over it.
use vstd::prelude::*;

use crate::delta::{CalculationDelta, CalculationDeltaPage};
use crate::session::{SessionError, SessionErrorCode, SessionLimits};
use crate::text::{decimal_spec, push_decimal, push_str};

verus! {

/// Whether the cursors of `deltas` strictly increase.
pub open spec fn cursors_increasing(deltas: Seq<CalculationDelta>) -> bool {
    forall|i: int, j: int| 0 <= i < j < deltas.len() ==> deltas[i].cursor_spec() < deltas[j].cursor_spec()
}

/// Whether `k` splits `deltas` into those at or before `cursor` and those after it.
pub open spec fn splits_at(deltas: Seq<CalculationDelta>, cursor: u64, k: int) -> bool {
    &&& 0 <= k <= deltas.len()
    &&& forall|i: int| 0 <= i < k ==> (#[trigger] deltas[i]).cursor_spec() <= cursor
    &&& forall|i: int| k <= i < deltas.len() ==> (#[trigger] deltas[i]).cursor_spec() > cursor
}

/// Position of the first retained delta whose cursor is after `cursor`.
pub open spec fn first_after(deltas: Seq<CalculationDelta>, cursor: u64) -> int {
    choose|k: int| splits_at(deltas, cursor, k)
}

/// The page size a request selects: zero selects the configured maximum.
pub open spec fn effective_page_limit(limit: usize, max_page: usize) -> int {
    if limit == 0 { max_page as int } else { limit as int }
}

/// Number of deltas returned for a request: what remains after `cursor`, bounded by the page size.
pub open spec fn page_len(deltas: Seq<CalculationDelta>, cursor: u64, size: int) -> int {
    let available = deltas.len() - first_after(deltas, cursor);
    if available < size { available } else { size }
}

/// The cursor following a page: the last returned cursor when more deltas remain.
pub open spec fn page_next_cursor(deltas: Seq<CalculationDelta>, cursor: u64, size: int) -> Option<u64> {
    let start = first_after(deltas, cursor);
    let n = page_len(deltas, cursor, size);
    if deltas.len() - start > n {
        Some(deltas[start + n - 1].cursor_spec())
    } else {
        None
    }
}

/// Whether `cursor` predates the retained history.
pub open spec fn cursor_expired(deltas: Seq<CalculationDelta>, cursor: u64) -> bool {
    &&& deltas.len() > 0
    &&& cursor != 0
    &&& (cursor as int) < deltas[0].cursor_spec() - 1
}

pub open spec fn detail_pair(first: Seq<char>, a: nat, second: Seq<char>, b: nat) -> Seq<char> {
    first + decimal_spec(a) + second + decimal_spec(b)
}

pub(crate) fn detail_text(first: &str, a: u64, second: &str, b: u64) -> (r: String)
    ensures
        r@ == detail_pair(first@, a as nat, second@, b as nat),
{
    let mut s = String::new();
    push_str(&mut s, first);
    push_decimal(&mut s, a);
    push_str(&mut s, second);
    push_decimal(&mut s, b);
    s
}

proof fn lemma_split_unique(deltas: Seq<CalculationDelta>, cursor: u64, k: int)
    requires
        cursors_increasing(deltas),
        splits_at(deltas, cursor, k),
    ensures
        first_after(deltas, cursor) == k,
{
    let c = first_after(deltas, cursor);
    assert(splits_at(deltas, cursor, c));
    if c < k {
        assert(deltas[c].cursor_spec() <= cursor);
    } else if k < c {
        assert(deltas[k].cursor_spec() > cursor);
    }
}

/// Every cursor-ordered history splits at every cursor.
pub proof fn lemma_split_exists(deltas: Seq<CalculationDelta>, cursor: u64)
    requires
        cursors_increasing(deltas),
    ensures
        splits_at(deltas, cursor, first_after(deltas, cursor)),
    decreases deltas.len(),
{
    if deltas.len() == 0 {
        assert(splits_at(deltas, cursor, 0));
    } else {
        let front = deltas.drop_last();
        lemma_split_exists(front, cursor);
        let k = first_after(front, cursor);
        if deltas.last().cursor_spec() <= cursor {
            assert forall|i: int| 0 <= i < deltas.len() implies (#[trigger] deltas[i]).cursor_spec() <= cursor by {
                if i < deltas.len() - 1 {
                    assert(deltas[i].cursor_spec() < deltas[deltas.len() - 1].cursor_spec());
                }
            }
            assert(splits_at(deltas, cursor, deltas.len() as int));
        } else {
            assert(splits_at(front, cursor, k));
            assert forall|i: int| 0 <= i < k implies (#[trigger] deltas[i]).cursor_spec() <= cursor by {
                assert(deltas[i] == front[i]);
            }
            assert forall|i: int| k <= i < deltas.len() implies (#[trigger] deltas[i]).cursor_spec() > cursor by {
                if i < deltas.len() - 1 {
                    assert(deltas[i] == front[i]);
                }
            }
            assert(splits_at(deltas, cursor, k));
        }
    }
}

/// A page that reports a next cursor is continued, by a request for that cursor, exactly after
/// its last delta: paging with the returned cursors visits every retained delta once, in order.
pub proof fn lemma_page_resumes_after_last(deltas: Seq<CalculationDelta>, cursor: u64, size: int)
    requires
        cursors_increasing(deltas),
        size >= 1,
        page_next_cursor(deltas, cursor, size) is Some,
    ensures
        first_after(deltas, page_next_cursor(deltas, cursor, size)->0)
            == first_after(deltas, cursor) + page_len(deltas, cursor, size),
{
    lemma_split_exists(deltas, cursor);
    let start = first_after(deltas, cursor);
    let n = page_len(deltas, cursor, size);
    let next = page_next_cursor(deltas, cursor, size)->0;
    assert(next == deltas[start + n - 1].cursor_spec());
    assert forall|i: int| 0 <= i < start + n implies (#[trigger] deltas[i]).cursor_spec() <= next by {
        if i < start + n - 1 {
            assert(deltas[i].cursor_spec() < deltas[start + n - 1].cursor_spec());
        }
    }
    assert forall|i: int| start + n <= i < deltas.len() implies (#[trigger] deltas[i]).cursor_spec() > next by {
        assert(deltas[start + n - 1].cursor_spec() < deltas[i].cursor_spec());
    }
    assert(splits_at(deltas, next, start + n));
    lemma_split_unique(deltas, next, start + n);
}

/// Every delta on a page comes after the requested cursor, and the page is in ascending cursor
/// order.
pub proof fn lemma_page_is_ascending_after_cursor(deltas: Seq<CalculationDelta>, cursor: u64, size: int)
    requires
        cursors_increasing(deltas),
        size >= 1,
    ensures
        ({
            let start = first_after(deltas, cursor);
            let page = deltas.subrange(start, start + page_len(deltas, cursor, size));
            &&& 0 <= page.len() <= size
            &&& forall|j: int| 0 <= j < page.len() ==> (#[trigger] page[j]).cursor_spec() > cursor
            &&& cursors_increasing(page)
        }),
{
    lemma_split_exists(deltas, cursor);
    let start = first_after(deltas, cursor);
    let page = deltas.subrange(start, start + page_len(deltas, cursor, size));
    assert forall|j: int| 0 <= j < page.len() implies (#[trigger] page[j]).cursor_spec() > cursor by {
        assert(page[j] == deltas[start + j]);
    }
    assert forall|i: int, j: int| 0 <= i < j < page.len() implies page[i].cursor_spec() < page[j].cursor_spec() by {
        assert(page[i] == deltas[start + i]);
        assert(page[j] == deltas[start + j]);
    }
}

/// A zero cursor reads from the oldest retained delta.
pub proof fn lemma_zero_cursor_starts_at_oldest(deltas: Seq<CalculationDelta>)
    requires
        cursors_increasing(deltas),
        forall|i: int| 0 <= i < deltas.len() ==> (#[trigger] deltas[i]).cursor_spec() >= 1,
    ensures
        first_after(deltas, 0) == 0,
        !cursor_expired(deltas, 0),
{
    assert(splits_at(deltas, 0, 0));
    lemma_split_unique(deltas, 0, 0);
}

/// After a delta is installed, a request for the cursor just before it is not expired and reads
/// exactly that delta back, with nothing after it.
pub proof fn lemma_installed_delta_is_read_back(deltas: Seq<CalculationDelta>, installed: CalculationDelta, size: int)
    requires
        cursors_increasing(deltas),
        deltas.len() > 0,
        deltas.last().same_delta(installed),
        installed.cursor_spec() >= 1,
        size >= 1,
    ensures
        !cursor_expired(deltas, (installed.cursor_spec() - 1) as u64),
        first_after(deltas, (installed.cursor_spec() - 1) as u64) == deltas.len() - 1,
        page_len(deltas, (installed.cursor_spec() - 1) as u64, size) == 1,
        page_next_cursor(deltas, (installed.cursor_spec() - 1) as u64, size) is None,
{
    let before = (installed.cursor_spec() - 1) as u64;
    let last = deltas.len() - 1;
    assert forall|i: int| 0 <= i < last implies (#[trigger] deltas[i]).cursor_spec() <= before by {
        assert(deltas[i].cursor_spec() < deltas[last].cursor_spec());
    }
    assert(splits_at(deltas, before, last));
    lemma_split_unique(deltas, before, last);
    if last > 0 {
        assert(deltas[0].cursor_spec() < deltas[last].cursor_spec());
    }
}

/// The installed deltas a session retains, with the cursor the next installed delta receives.
///
/// Cursors start at one, grow by one per installed delta and never repeat; only the newest
/// `max_retained_deltas` deltas are kept.
#[derive(Debug)]
pub struct DeltaHistory {
    limits: SessionLimits,
    next_cursor: u64,
    deltas: Vec<CalculationDelta>,
}

impl DeltaHistory {
    #[verifier::type_invariant]
    spec fn well_formed(self) -> bool {
        &&& self.limits@.max_retained_deltas > 0
        &&& self.limits@.max_delta_page > 0
        &&& self.next_cursor >= 1
        &&& self.deltas@.len() <= self.limits@.max_retained_deltas
        &&& cursors_increasing(self.deltas@)
        &&& forall|i: int| 0 <= i < self.deltas@.len() ==> 1 <= (#[trigger] self.deltas@[i]).cursor_spec() < self.next_cursor
    }

    pub closed spec fn limits_spec(self) -> SessionLimits {
        self.limits
    }

    pub closed spec fn next_cursor_spec(self) -> u64 {
        self.next_cursor
    }

    pub closed spec fn deltas_spec(self) -> Seq<CalculationDelta> {
        self.deltas@
    }

    /// An empty history whose first delta receives cursor one.
    pub fn new(limits: SessionLimits) -> (r: Self)
        ensures
            r.limits_spec() == limits,
            r.next_cursor_spec() == 1,
            r.deltas_spec().len() == 0,
    {
        limits.max_retained_deltas();
        limits.max_delta_page();
        DeltaHistory { limits, next_cursor: 1, deltas: Vec::new() }
    }

    /// Every history keeps strictly increasing cursors below the next cursor, and at most the
    /// configured number of deltas.
    pub fn check_well_formed(&self)
        ensures
            cursors_increasing(self.deltas_spec()),
            self.deltas_spec().len() <= self.limits_spec()@.max_retained_deltas,
            self.limits_spec()@.max_retained_deltas > 0,
            self.limits_spec()@.max_delta_page > 0,
            self.next_cursor_spec() >= 1,
            forall|i: int| 0 <= i < self.deltas_spec().len() ==> 1 <= (#[trigger] self.deltas_spec()[i]).cursor_spec() < self.next_cursor_spec(),
    {
        proof {
            use_type_invariant(self);
        }
    }

    /// Returns the session limits that bound retention and paging.
    pub fn limits(&self) -> (r: SessionLimits)
        ensures
            r == self.limits_spec(),
    {
        self.limits
    }

    /// Returns the cursor the next installed delta receives.
    pub fn next_cursor(&self) -> (r: u64)
        ensures
            r == self.next_cursor_spec(),
    {
        self.next_cursor
    }

    /// Returns the retained deltas in ascending cursor order.
    pub fn deltas(&self) -> (r: &[CalculationDelta])
        ensures
            r@ == self.deltas_spec(),
    {
        self.deltas.as_slice()
    }

    /// Returns the delta that installing `delta` would commit: a copy carrying the next cursor.
    ///
    /// The calculation must have been run for `current_revision` from `base_cursor`; `cancelled`
    /// is polled before and after copying.
    pub fn preview_install<F: Fn() -> bool>(
        &self,
        delta: &CalculationDelta,
        expected_revision: u64,
        current_revision: u64,
        base_cursor: u64,
        cancelled: &F,
    ) -> (r: Result<CalculationDelta, SessionError>)
        requires
            call_requires(*cancelled, ()),
        ensures
            match r {
                Ok(d) => {
                    &&& expected_revision == current_revision
                    &&& base_cursor == self.next_cursor_spec()
                    &&& self.next_cursor_spec() < u64::MAX
                    &&& d.cursor_spec() == self.next_cursor_spec()
                    &&& d.same_changes(*delta)
                },
                Err(e) => {
                    ||| {
                        &&& e.code_spec() == SessionErrorCode::Cancelled
                        &&& e.detail_spec() is None
                        &&& call_ensures(*cancelled, (), true)
                    }
                    ||| {
                        &&& e.code_spec() == SessionErrorCode::StaleResult
                        &&& expected_revision != current_revision
                        &&& e.detail_spec() matches Some(t)
                        &&& t@ == detail_pair("calculated="@, expected_revision as nat, ", current="@, current_revision as nat)
                    }
                    ||| {
                        &&& e.code_spec() == SessionErrorCode::StaleResult
                        &&& expected_revision == current_revision
                        &&& base_cursor != self.next_cursor_spec()
                        &&& e.detail_spec() matches Some(t)
                        &&& t@ == detail_pair("calculation_cursor="@, base_cursor as nat, ", current="@, self.next_cursor_spec() as nat)
                    }
                    ||| {
                        &&& e.code_spec() == SessionErrorCode::DeltaLimitExceeded
                        &&& expected_revision == current_revision
                        &&& base_cursor == self.next_cursor_spec()
                        &&& self.next_cursor_spec() == u64::MAX
                        &&& e.detail_spec() matches Some(t)
                        &&& t@ == "delta cursor exhausted"@
                    }
                },
            },
            (forall|b: bool| call_ensures(*cancelled, (), b) ==> b) ==> (r matches Err(e)
                && e.code_spec() == SessionErrorCode::Cancelled),
    {
        if cancelled() {
            return Err(SessionError::new(SessionErrorCode::Cancelled, None));
        }
        if expected_revision != current_revision {
            let detail = detail_text("calculated=", expected_revision, ", current=", current_revision);
            return Err(SessionError::new(SessionErrorCode::StaleResult, Some(detail)));
        }
        if base_cursor != self.next_cursor {
            let detail = detail_text("calculation_cursor=", base_cursor, ", current=", self.next_cursor);
            return Err(SessionError::new(SessionErrorCode::StaleResult, Some(detail)));
        }
        if self.next_cursor == u64::MAX {
            let detail = String::from_str("delta cursor exhausted");
            return Err(SessionError::new(SessionErrorCode::DeltaLimitExceeded, Some(detail)));
        }
        let copy = match delta.clone_cancellable(cancelled) {
            Ok(d) => d,
            Err(()) => return Err(SessionError::new(SessionErrorCode::Cancelled, None)),
        };
        if cancelled() {
            return Err(SessionError::new(SessionErrorCode::Cancelled, None));
        }
        Ok(copy.with_cursor(self.next_cursor))
    }

    /// Whether `e` is one of the refusals `preview_install` gives for these arguments.
    pub open spec fn install_refusal(
        self,
        e: SessionError,
        expected_revision: u64,
        current_revision: u64,
        base_cursor: u64,
    ) -> bool {
        ||| e.code_spec() == SessionErrorCode::Cancelled && e.detail_spec() is None
        ||| {
            &&& e.code_spec() == SessionErrorCode::StaleResult
            &&& expected_revision != current_revision
            &&& e.detail_spec() matches Some(t)
            &&& t@ == detail_pair("calculated="@, expected_revision as nat, ", current="@, current_revision as nat)
        }
        ||| {
            &&& e.code_spec() == SessionErrorCode::StaleResult
            &&& expected_revision == current_revision
            &&& base_cursor != self.next_cursor_spec()
            &&& e.detail_spec() matches Some(t)
            &&& t@ == detail_pair("calculation_cursor="@, base_cursor as nat, ", current="@, self.next_cursor_spec() as nat)
        }
        ||| {
            &&& e.code_spec() == SessionErrorCode::DeltaLimitExceeded
            &&& expected_revision == current_revision
            &&& base_cursor == self.next_cursor_spec()
            &&& self.next_cursor_spec() == u64::MAX
            &&& e.detail_spec() matches Some(t)
            &&& t@ == "delta cursor exhausted"@
        }
    }

    /// Installs `delta` under the next cursor, retaining only the newest deltas; on any refusal
    /// the history is left unchanged.
    pub fn install<F: Fn() -> bool>(
        &mut self,
        delta: &CalculationDelta,
        expected_revision: u64,
        current_revision: u64,
        base_cursor: u64,
        cancelled: &F,
    ) -> (r: Result<CalculationDelta, SessionError>)
        requires
            call_requires(*cancelled, ()),
        ensures
            match r {
                Ok(d) => {
                    let before = old(self).deltas_spec();
                    let after = final(self).deltas_spec();
                    let max = old(self).limits_spec()@.max_retained_deltas;
                    &&& expected_revision == current_revision
                    &&& base_cursor == old(self).next_cursor_spec()
                    &&& d.cursor_spec() == old(self).next_cursor_spec()
                    &&& d.same_changes(*delta)
                    &&& final(self).next_cursor_spec() == old(self).next_cursor_spec() + 1
                    &&& final(self).limits_spec() == old(self).limits_spec()
                    &&& after.len() == (if before.len() + 1 > max { max as int } else { before.len() + 1 as int })
                    &&& after.last().same_delta(d)
                    &&& after.drop_last() == before.skip(before.len() + 1 - after.len())
                },
                Err(e) => {
                    &&& *final(self) == *old(self)
                    &&& old(self).install_refusal(e, expected_revision, current_revision, base_cursor)
                    &&& e.code_spec() == SessionErrorCode::Cancelled ==> call_ensures(*cancelled, (), true)
                },
            },
            (forall|b: bool| call_ensures(*cancelled, (), b) ==> b) ==> (r matches Err(e)
                && e.code_spec() == SessionErrorCode::Cancelled),
    {
        proof {
            use_type_invariant(&*self);
        }
        let previewed = self.preview_install(delta, expected_revision, current_revision, base_cursor, cancelled);
        let installed = match previewed {
            Ok(d) => d,
            Err(e) => return Err(e),
        };
        let retained = match installed.clone_cancellable(cancelled) {
            Ok(d) => d,
            Err(()) => return Err(SessionError::new(SessionErrorCode::Cancelled, None)),
        };
        if cancelled() {
            return Err(SessionError::new(SessionErrorCode::Cancelled, None));
        }
        let ghost before = self.deltas@;
        let max = self.limits.max_retained_deltas();
        let mut deltas: Vec<CalculationDelta> = Vec::new();
        std::mem::swap(&mut deltas, &mut self.deltas);
        assert(deltas@ == before);
        deltas.push(retained);
        if deltas.len() > max {
            deltas.remove(0);
            assert(deltas@.drop_last() =~= before.skip(1));
        } else {
            assert(deltas@.drop_last() =~= before.skip(0));
        }
        assert forall|i: int, j: int| 0 <= i < j < deltas@.len() implies deltas@[i].cursor_spec() < deltas@[j].cursor_spec() by {
            if j == deltas@.len() - 1 {
                assert(deltas@[j].cursor_spec() == installed.cursor_spec());
            }
        }
        self.next_cursor = self.next_cursor + 1;
        self.deltas = deltas;
        Ok(installed)
    }

    /// Returns complete retained deltas after the exclusive `cursor`, at most `limit` of them (zero
    /// selects the configured page maximum).
    ///
    /// A zero cursor starts at the oldest retained delta. A cursor older than the retained history
    /// is refused with `CursorExpired`, a page larger than the configured maximum with
    /// `PageLimitExceeded`.
    pub fn changes_since(&self, cursor: u64, limit: usize) -> (r: Result<CalculationDeltaPage, SessionError>)
        ensures
            ({
                let max = self.limits_spec()@.max_delta_page;
                let size = effective_page_limit(limit, max);
                let deltas = self.deltas_spec();
                match r {
                    Ok(page) => {
                        &&& size <= max
                        &&& !cursor_expired(deltas, cursor)
                        &&& page.requested_cursor_spec() == cursor
                        &&& page.deltas_spec()@.len() == page_len(deltas, cursor, size)
                        &&& forall|j: int| 0 <= j < page.deltas_spec()@.len()
                            ==> (#[trigger] page.deltas_spec()@[j]).same_delta(deltas[first_after(deltas, cursor) + j])
                        &&& page.next_cursor_spec() == page_next_cursor(deltas, cursor, size)
                    },
                    Err(e) => {
                        ||| {
                            &&& size > max
                            &&& e.code_spec() == SessionErrorCode::PageLimitExceeded
                            &&& e.detail_spec() matches Some(t)
                            &&& t@ == detail_pair("requested="@, size as nat, ", limit="@, max as nat)
                        }
                        ||| {
                            &&& size <= max
                            &&& cursor_expired(deltas, cursor)
                            &&& e.code_spec() == SessionErrorCode::CursorExpired
                            &&& e.detail_spec() matches Some(t)
                            &&& t@ == detail_pair("cursor="@, cursor as nat, ", oldest="@, deltas[0].cursor_spec() as nat)
                        }
                    },
                }
            }),
    {
        proof {
            use_type_invariant(self);
        }
        let max = self.limits.max_delta_page();
        let size = if limit == 0 { max } else { limit };
        if size > max {
            let detail = detail_text("requested=", size as u64, ", limit=", max as u64);
            return Err(SessionError::new(SessionErrorCode::PageLimitExceeded, Some(detail)));
        }
        let len = self.deltas.len();
        if len > 0 && cursor != 0 && cursor < self.deltas[0].cursor().saturating_sub(1) {
            let oldest = self.deltas[0].cursor();
            let detail = detail_text("cursor=", cursor, ", oldest=", oldest);
            return Err(SessionError::new(SessionErrorCode::CursorExpired, Some(detail)));
        }
        let ghost deltas = self.deltas@;
        let mut start: usize = 0;
        while start < len && self.deltas[start].cursor() <= cursor
            invariant
                len == deltas.len(),
                deltas == self.deltas@,
                start <= len,
                forall|i: int| 0 <= i < start ==> (#[trigger] deltas[i]).cursor_spec() <= cursor,
            decreases len - start,
        {
            start = start + 1;
        }
        proof {
            assert forall|i: int| start <= i < deltas.len() implies (#[trigger] deltas[i]).cursor_spec() > cursor by {
                if i > start {
                    assert(deltas[start as int].cursor_spec() < deltas[i].cursor_spec());
                }
            }
            assert(splits_at(deltas, cursor, start as int));
            lemma_split_unique(deltas, cursor, start as int);
        }
        let mut page: Vec<CalculationDelta> = Vec::new();
        let mut j: usize = start;
        while j < len && page.len() < size
            invariant
                len == deltas.len(),
                deltas == self.deltas@,
                start <= j <= len,
                page@.len() == j - start,
                page@.len() <= size,
                forall|k: int| 0 <= k < page@.len() ==> (#[trigger] page@[k]).same_delta(deltas[start + k]),
            decreases len - j,
        {
            page.push(self.deltas[j].duplicate());
            j = j + 1;
        }
        let next_cursor = if len - start > page.len() {
            let last = page.len() - 1;
            Some(page[last].cursor())
        } else {
            None
        };
        Ok(CalculationDeltaPage::new(cursor, next_cursor, page))
    }
}

} // verus!