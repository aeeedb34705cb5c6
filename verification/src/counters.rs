//! Work counters that separate structural copies, payload clones, area-index, impact and
//! fingerprint work.
use vstd::prelude::*;

use crate::store::StoreWork;

verus! {

/// One kind of counted work.
#[derive(Debug, Clone, Copy, PartialEq, Eq, Hash, Structural)]
pub enum WorkCounter {
    CellStoreNodesCopied,
    CellStoreLeavesRebuilt,
    CellStoreEntriesReindexed,
    CellStorePayloadBytesDeepCloned,
    ResultStoreNodesCopied,
    ResultStoreLeavesRebuilt,
    ResultStoreEntriesReindexed,
    ResultStorePayloadBytesDeepCloned,
    AreaSourceRectangles,
    AreaPayloadRefsRetained,
    AreaNodesRetained,
    AreaBuildPayloadVisits,
    AreaQueryNodesVisited,
    AreaQueryCandidatesExamined,
    AreaQueryMatchesEmitted,
    ImpactChangedCellsVisited,
    ImpactDirectCandidatesVisited,
    ImpactReverseEdgesVisited,
    ImpactUniqueDirtyInserted,
    ImpactCancellationPolls,
    FingerprintPayloadLeavesHashed,
    FingerprintInternalNodesHashed,
    FingerprintCachedNodesReused,
    FingerprintRootCacheHits,
}

/// Number of counters.
pub const COUNTER_COUNT: usize = 24;

/// Position of a counter in declaration order.
pub open spec fn counter_index_spec(counter: WorkCounter) -> int {
    match counter {
        WorkCounter::CellStoreNodesCopied => 0,
        WorkCounter::CellStoreLeavesRebuilt => 1,
        WorkCounter::CellStoreEntriesReindexed => 2,
        WorkCounter::CellStorePayloadBytesDeepCloned => 3,
        WorkCounter::ResultStoreNodesCopied => 4,
        WorkCounter::ResultStoreLeavesRebuilt => 5,
        WorkCounter::ResultStoreEntriesReindexed => 6,
        WorkCounter::ResultStorePayloadBytesDeepCloned => 7,
        WorkCounter::AreaSourceRectangles => 8,
        WorkCounter::AreaPayloadRefsRetained => 9,
        WorkCounter::AreaNodesRetained => 10,
        WorkCounter::AreaBuildPayloadVisits => 11,
        WorkCounter::AreaQueryNodesVisited => 12,
        WorkCounter::AreaQueryCandidatesExamined => 13,
        WorkCounter::AreaQueryMatchesEmitted => 14,
        WorkCounter::ImpactChangedCellsVisited => 15,
        WorkCounter::ImpactDirectCandidatesVisited => 16,
        WorkCounter::ImpactReverseEdgesVisited => 17,
        WorkCounter::ImpactUniqueDirtyInserted => 18,
        WorkCounter::ImpactCancellationPolls => 19,
        WorkCounter::FingerprintPayloadLeavesHashed => 20,
        WorkCounter::FingerprintInternalNodesHashed => 21,
        WorkCounter::FingerprintCachedNodesReused => 22,
        WorkCounter::FingerprintRootCacheHits => 23,
    }
}

impl WorkCounter {
    /// Returns the position of the counter in declaration order.
    pub fn index(self) -> (r: usize)
        ensures
            r == counter_index_spec(self),
            r < COUNTER_COUNT,
    {
        match self {
            WorkCounter::CellStoreNodesCopied => 0,
            WorkCounter::CellStoreLeavesRebuilt => 1,
            WorkCounter::CellStoreEntriesReindexed => 2,
            WorkCounter::CellStorePayloadBytesDeepCloned => 3,
            WorkCounter::ResultStoreNodesCopied => 4,
            WorkCounter::ResultStoreLeavesRebuilt => 5,
            WorkCounter::ResultStoreEntriesReindexed => 6,
            WorkCounter::ResultStorePayloadBytesDeepCloned => 7,
            WorkCounter::AreaSourceRectangles => 8,
            WorkCounter::AreaPayloadRefsRetained => 9,
            WorkCounter::AreaNodesRetained => 10,
            WorkCounter::AreaBuildPayloadVisits => 11,
            WorkCounter::AreaQueryNodesVisited => 12,
            WorkCounter::AreaQueryCandidatesExamined => 13,
            WorkCounter::AreaQueryMatchesEmitted => 14,
            WorkCounter::ImpactChangedCellsVisited => 15,
            WorkCounter::ImpactDirectCandidatesVisited => 16,
            WorkCounter::ImpactReverseEdgesVisited => 17,
            WorkCounter::ImpactUniqueDirtyInserted => 18,
            WorkCounter::ImpactCancellationPolls => 19,
            WorkCounter::FingerprintPayloadLeavesHashed => 20,
            WorkCounter::FingerprintInternalNodesHashed => 21,
            WorkCounter::FingerprintCachedNodesReused => 22,
            WorkCounter::FingerprintRootCacheHits => 23,
        }
    }
}

/// The value of every counter at one moment.
#[derive(Debug, Clone, Copy, PartialEq, Eq)]
pub struct WorkCounterSnapshot {
    values: [u64; 24],
}

impl WorkCounterSnapshot {
    pub closed spec fn values_spec(self) -> Seq<u64> {
        self.values@
    }

    /// Returns the value of one counter.
    pub fn get(self, counter: WorkCounter) -> (r: u64)
        ensures
            r == self.values_spec()[counter_index_spec(counter)],
    {
        self.values[counter.index()]
    }
}

/// `values` with `delta` added to entry `i`, wrapping at 2^64.
pub open spec fn wrapping_added(values: Seq<u64>, i: int, delta: u64) -> Seq<u64> {
    values.update(i, ((values[i] + delta) % 0x1_0000_0000_0000_0000) as u64)
}

/// Counters that count only between a reset and the next snapshot.
#[derive(Debug)]
pub struct WorkCounterBank {
    values: [u64; 24],
    active: bool,
}

impl WorkCounterBank {
    pub closed spec fn values_spec(self) -> Seq<u64> {
        self.values@
    }

    pub closed spec fn active_spec(self) -> bool {
        self.active
    }

    /// Inactive counters, all zero.
    pub fn new() -> (r: Self)
        ensures
            r.values_spec() == Seq::new(24, |i: int| 0u64),
            !r.active_spec(),
    {
        let r = WorkCounterBank { values: [0u64; 24], active: false };
        assert(r.values@ =~= Seq::new(24, |i: int| 0u64));
        r
    }

    /// Adds `delta` to a counter, wrapping on overflow, while counting is active.
    pub fn add(&mut self, counter: WorkCounter, delta: u64)
        ensures
            final(self).active_spec() == old(self).active_spec(),
            final(self).values_spec() == if old(self).active_spec() {
                old(self).values_spec().update(
                    counter_index_spec(counter),
                    ((old(self).values_spec()[counter_index_spec(counter)] + delta) % 0x1_0000_0000_0000_0000) as u64,
                )
            } else {
                old(self).values_spec()
            },
    {
        if self.active {
            let i = counter.index();
            let next = self.values[i].wrapping_add(delta);
            self.values[i] = next;
        }
    }

    /// Sets a counter while counting is active.
    pub fn store(&mut self, counter: WorkCounter, value: u64)
        ensures
            final(self).active_spec() == old(self).active_spec(),
            final(self).values_spec() == if old(self).active_spec() {
                old(self).values_spec().update(counter_index_spec(counter), value)
            } else {
                old(self).values_spec()
            },
    {
        if self.active {
            let i = counter.index();
            self.values[i] = value;
        }
    }

    /// Returns the current value of a counter.
    pub fn load(&self, counter: WorkCounter) -> (r: u64)
        ensures
            r == self.values_spec()[counter_index_spec(counter)],
    {
        self.values[counter.index()]
    }

    /// Zeroes every counter and starts counting.
    pub fn reset(&mut self)
        ensures
            final(self).values_spec() == Seq::new(24, |i: int| 0u64),
            final(self).active_spec(),
    {
        self.active = true;
        self.values = [0u64; 24];
        assert(self.values@ =~= Seq::new(24, |i: int| 0u64));
    }

    /// Adds the work of one result-store edit to the result-store counters, while counting is
    /// active.
    pub fn add_result_store_work(&mut self, work: StoreWork)
        ensures
            final(self).active_spec() == old(self).active_spec(),
            final(self).values_spec() == if old(self).active_spec() {
                wrapping_added(
                    wrapping_added(
                        wrapping_added(old(self).values_spec(), 5, work.leaves_rebuilt),
                        6,
                        work.entries_reindexed,
                    ),
                    4,
                    work.nodes_copied,
                )
            } else {
                old(self).values_spec()
            },
    {
        self.add(WorkCounter::ResultStoreLeavesRebuilt, work.leaves_rebuilt);
        self.add(WorkCounter::ResultStoreEntriesReindexed, work.entries_reindexed);
        self.add(WorkCounter::ResultStoreNodesCopied, work.nodes_copied);
    }

    /// Reads every counter and stops counting.
    pub fn snapshot(&mut self) -> (r: WorkCounterSnapshot)
        ensures
            r.values_spec() == old(self).values_spec(),
            final(self).values_spec() == old(self).values_spec(),
            !final(self).active_spec(),
    {
        let values = self.values;
        self.active = false;
        WorkCounterSnapshot { values }
    }
}

} // verus!
