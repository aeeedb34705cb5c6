use cellrune::counters::{WorkCounter, WorkCounterBank};

#[test]
fn counters_reset_snapshot_and_increment_independently() {
    let mut counters = WorkCounterBank::new();
    counters.reset();
    counters.add(WorkCounter::CellStoreNodesCopied, 3);
    counters.add(WorkCounter::FingerprintRootCacheHits, 1);
    let snapshot = counters.snapshot();
    assert_eq!(snapshot.get(WorkCounter::CellStoreNodesCopied), 3);
    assert_eq!(snapshot.get(WorkCounter::FingerprintRootCacheHits), 1);
    assert_eq!(snapshot.get(WorkCounter::ResultStoreNodesCopied), 0);

    counters.reset();
    counters.store(WorkCounter::AreaSourceRectangles, 7);
    assert_eq!(counters.snapshot().get(WorkCounter::AreaSourceRectangles), 7);
    counters.reset();
    assert_eq!(counters.snapshot().get(WorkCounter::CellStoreNodesCopied), 0);
}

#[test]
fn counters_ignore_work_outside_a_measurement() {
    let mut counters = WorkCounterBank::new();
    counters.add(WorkCounter::ImpactCancellationPolls, 5);
    assert_eq!(counters.load(WorkCounter::ImpactCancellationPolls), 0);
    counters.reset();
    counters.add(WorkCounter::ImpactCancellationPolls, u64::MAX);
    counters.add(WorkCounter::ImpactCancellationPolls, 2);
    assert_eq!(counters.snapshot().get(WorkCounter::ImpactCancellationPolls), 1);
    counters.add(WorkCounter::ImpactCancellationPolls, 9);
    assert_eq!(counters.load(WorkCounter::ImpactCancellationPolls), 1);
}

#[test]
fn result_store_work_feeds_the_result_store_counters() {
    let mut bank = WorkCounterBank::new();
    bank.reset();
    let mut store = cellrune::store::CalculationStore::new();
    let cell = cellrune::cell::CalculationCellId::new(
        cellrune::cell::SheetId::new(1).expect("sheet"),
        cellrune::cell::CellAddress::from_indices(1, 1).expect("cell"),
    );
    store.insert_reporting_work(cell, 1, &|| false).expect("insert");
    let (_, work) = store.insert_reporting_work(cell, 2, &|| false).expect("replace");
    bank.add_result_store_work(work);
    let (_, work) = store.remove_reporting_work(cell, &|| false).expect("remove");
    bank.add_result_store_work(work);
    assert_eq!(bank.load(WorkCounter::ResultStoreLeavesRebuilt), 2);
    assert_eq!(bank.load(WorkCounter::ResultStoreEntriesReindexed), 2);
    assert_eq!(bank.load(WorkCounter::ResultStoreNodesCopied), 0);
    assert_eq!(bank.load(WorkCounter::CellStoreLeavesRebuilt), 0);
}
