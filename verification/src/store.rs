//! Ordered cell stores keyed by packed cell keys.
use vstd::prelude::*;

use crate::cell::{
    CalculationCellId, cell_before, cell_from_key, cell_key, cell_key_spec, lemma_cell_key_order,
    lemma_cell_key_round_trip, valid_cell_key,
};

verus! {

/// Whether the keys of `entries` strictly increase.
pub open spec fn keys_increasing<V>(entries: Seq<(u128, V)>) -> bool {
    forall|i: int, j: int| 0 <= i < j < entries.len() ==> entries[i].0 < entries[j].0
}

/// Whether every key of `entries` is the packed key of a cell.
pub open spec fn keys_valid<V>(entries: Seq<(u128, V)>) -> bool {
    forall|i: int| 0 <= i < entries.len() ==> valid_cell_key(#[trigger] entries[i].0 as int)
}

/// Whether `entries` holds `value` under `key`.
pub open spec fn holds_entry<V>(entries: Seq<(u128, V)>, key: int, value: V) -> bool {
    exists|i: int| 0 <= i < entries.len() && #[trigger] entries[i].0 == key && entries[i].1 == value
}

/// Whether some entry of `entries` has `key`.
pub open spec fn has_key<V>(entries: Seq<(u128, V)>, key: int) -> bool {
    exists|i: int| 0 <= i < entries.len() && #[trigger] entries[i].0 == key
}

/// Whether `cells` lists the entries of `entries` in order, each with its cell and value.
pub open spec fn lists_entries<V>(cells: Seq<(CalculationCellId, &V)>, entries: Seq<(u128, V)>) -> bool {
    &&& cells.len() == entries.len()
    &&& forall|i: int| 0 <= i < cells.len() ==> cell_key_spec(#[trigger] cells[i].0@) == entries[i].0
        && *cells[i].1 == entries[i].1
}

/// Whether `p` is where `key` belongs among the increasing keys of `entries`.
pub open spec fn is_key_position<V>(entries: Seq<(u128, V)>, key: u128, p: int) -> bool {
    &&& 0 <= p <= entries.len()
    &&& forall|i: int| 0 <= i < p ==> (#[trigger] entries[i]).0 < key
    &&& forall|i: int| p <= i < entries.len() ==> (#[trigger] entries[i]).0 >= key
}

/// Position at which `key` is stored or would be inserted.
pub open spec fn key_position<V>(entries: Seq<(u128, V)>, key: u128) -> int {
    choose|p: int| is_key_position(entries, key, p)
}

/// `entries` with `value` stored under `key`, kept in key order.
pub open spec fn with_entry<V>(entries: Seq<(u128, V)>, key: u128, value: V) -> Seq<(u128, V)> {
    let p = key_position(entries, key);
    if p < entries.len() && entries[p].0 == key {
        entries.update(p, (key, value))
    } else {
        entries.insert(p, (key, value))
    }
}

/// `entries` without the entry for `key`.
pub open spec fn without_entry<V>(entries: Seq<(u128, V)>, key: u128) -> Seq<(u128, V)> {
    let p = key_position(entries, key);
    if p < entries.len() && entries[p].0 == key {
        entries.remove(p)
    } else {
        entries
    }
}

pub proof fn lemma_key_position_unique<V>(entries: Seq<(u128, V)>, key: u128, p: int)
    requires
        is_key_position(entries, key, p),
    ensures
        key_position(entries, key) == p,
{
    let q = key_position(entries, key);
    assert(is_key_position(entries, key, q));
    if q < p {
        assert(entries[q].0 < key);
    } else if p < q {
        assert(entries[p].0 < key);
    }
}

/// After storing `value` under `key`, the key holds exactly that value and every other key
/// holds what it held before.
pub proof fn lemma_get_after_insert<V>(entries: Seq<(u128, V)>, key: u128, value: V, other: int, v: V)
    requires
        keys_increasing(entries),
    ensures
        holds_entry(with_entry(entries, key, value), key as int, value),
        other != key ==> (holds_entry(with_entry(entries, key, value), other, v) <==> holds_entry(entries, other, v)),
        has_key(with_entry(entries, key, value), other) <==> (has_key(entries, other) || other == key),
        keys_increasing(with_entry(entries, key, value)),
{
    lemma_key_position_exists(entries, key);
    let p = key_position(entries, key);
    let after = with_entry(entries, key, value);
    assert(after[p].0 == key && after[p].1 == value);
    assert(holds_entry(after, key as int, value));
    if other == key {
        assert(has_key(after, other));
    }
    if p < entries.len() && entries[p].0 == key {
        assert(after[p] == (key, value));
        assert forall|i: int| 0 <= i < after.len() && i != p implies after[i] == entries[i] by {}
        if holds_entry(entries, other, v) && other != key {
            let i = choose|i: int| 0 <= i < entries.len() && #[trigger] entries[i].0 == other && entries[i].1 == v;
            assert(after[i] == entries[i]);
        }
        if has_key(entries, other) {
            let i = choose|i: int| 0 <= i < entries.len() && #[trigger] entries[i].0 == other;
            if i != p {
                assert(after[i] == entries[i]);
            }
        }
        if has_key(after, other) {
            let i = choose|i: int| 0 <= i < after.len() && #[trigger] after[i].0 == other;
            if i != p {
                assert(after[i] == entries[i]);
            }
        }
    } else {
        assert(after[p] == (key, value));
        assert forall|i: int| 0 <= i < p implies after[i] == entries[i] by {}
        assert forall|i: int| p < i < after.len() implies after[i] == entries[i - 1] by {}
        if holds_entry(entries, other, v) {
            let i = choose|i: int| 0 <= i < entries.len() && #[trigger] entries[i].0 == other && entries[i].1 == v;
            if i < p {
                assert(after[i] == entries[i]);
            } else {
                assert(after[i + 1] == entries[i]);
            }
        }
        if has_key(entries, other) {
            let i = choose|i: int| 0 <= i < entries.len() && #[trigger] entries[i].0 == other;
            if i < p {
                assert(after[i] == entries[i]);
            } else {
                assert(after[i + 1] == entries[i]);
            }
        }
        if has_key(after, other) && other != key {
            let i = choose|i: int| 0 <= i < after.len() && #[trigger] after[i].0 == other;
            if i < p {
                assert(after[i] == entries[i]);
            } else {
                assert(after[i] == entries[i - 1]);
            }
        }
        assert forall|i: int, j: int| 0 <= i < j < after.len() implies after[i].0 < after[j].0 by {
            if j < p {
            } else if i > p {
                assert(after[i] == entries[i - 1] && after[j] == entries[j - 1]);
            } else if i == p {
                assert(after[j] == entries[j - 1]);
                assert(entries[j - 1].0 >= key);
                assert(entries[j - 1].0 != key) by {
                    if j - 1 == p {
                    } else {
                        assert(entries[p].0 < entries[j - 1].0);
                    }
                }
            } else if j == p {
                assert(after[i] == entries[i]);
            } else {
                assert(after[i] == entries[i] && after[j] == entries[j - 1]);
            }
        }
    }
}

pub proof fn lemma_key_position_exists<V>(entries: Seq<(u128, V)>, key: u128)
    requires
        keys_increasing(entries),
    ensures
        is_key_position(entries, key, key_position(entries, key)),
    decreases entries.len(),
{
    if entries.len() == 0 {
        assert(is_key_position(entries, key, 0));
    } else {
        let front = entries.drop_last();
        lemma_key_position_exists(front, key);
        let k = key_position(front, key);
        if entries.last().0 < key {
            assert forall|i: int| 0 <= i < entries.len() implies (#[trigger] entries[i]).0 < key by {
                if i < entries.len() - 1 {
                    assert(entries[i].0 < entries[entries.len() - 1].0);
                }
            }
            assert(is_key_position(entries, key, entries.len() as int));
        } else {
            assert forall|i: int| 0 <= i < k implies (#[trigger] entries[i]).0 < key by {
                assert(entries[i] == front[i]);
            }
            assert forall|i: int| k <= i < entries.len() implies (#[trigger] entries[i]).0 >= key by {
                if i < entries.len() - 1 {
                    assert(entries[i] == front[i]);
                }
            }
            assert(is_key_position(entries, key, k));
        }
    }
}

/// After removing `key`, no entry holds it and every other key holds what it held before.
pub proof fn lemma_get_after_remove<V>(entries: Seq<(u128, V)>, key: u128, other: int, v: V)
    requires
        keys_increasing(entries),
    ensures
        !has_key(without_entry(entries, key), key as int),
        other != key ==> (holds_entry(without_entry(entries, key), other, v) <==> holds_entry(entries, other, v)),
        keys_increasing(without_entry(entries, key)),
{
    lemma_key_position_exists(entries, key);
    let p = key_position(entries, key);
    let after = without_entry(entries, key);
    if p < entries.len() && entries[p].0 == key {
        assert forall|i: int| 0 <= i < p implies after[i] == entries[i] by {}
        assert forall|i: int| p <= i < after.len() implies after[i] == entries[i + 1] by {}
        if has_key(after, key as int) {
            let i = choose|i: int| 0 <= i < after.len() && #[trigger] after[i].0 == key;
            if i < p {
                assert(entries[i].0 < key);
            } else {
                assert(entries[p].0 < entries[i + 1].0);
            }
        }
        if holds_entry(entries, other, v) && other != key {
            let i = choose|i: int| 0 <= i < entries.len() && #[trigger] entries[i].0 == other && entries[i].1 == v;
            if i < p {
                assert(after[i] == entries[i]);
            } else {
                assert(i != p);
                assert(after[i - 1] == entries[i]);
            }
        }
        if holds_entry(after, other, v) {
            let i = choose|i: int| 0 <= i < after.len() && #[trigger] after[i].0 == other && after[i].1 == v;
            if i < p {
                assert(after[i] == entries[i]);
            } else {
                assert(after[i] == entries[i + 1]);
            }
        }
        assert forall|i: int, j: int| 0 <= i < j < after.len() implies after[i].0 < after[j].0 by {
            if j < p {
            } else if i >= p {
                assert(after[i] == entries[i + 1] && after[j] == entries[j + 1]);
            } else {
                assert(after[i] == entries[i] && after[j] == entries[j + 1]);
            }
        }
    } else {
        if has_key(entries, key as int) {
            let i = choose|i: int| 0 <= i < entries.len() && #[trigger] entries[i].0 == key;
            if i < p {
                assert(entries[i].0 < key);
            } else if i > p {
                assert(entries[p].0 >= key);
                assert(entries[p].0 < entries[i].0);
            }
        }
    }
}

/// With strictly increasing keys, a key holds one value at most.
pub proof fn lemma_holds_unique<V>(entries: Seq<(u128, V)>, key: int, v: V, w: V)
    requires
        keys_increasing(entries),
        holds_entry(entries, key, v),
        holds_entry(entries, key, w),
    ensures
        v == w,
{
    let i = choose|i: int| 0 <= i < entries.len() && #[trigger] entries[i].0 == key && entries[i].1 == v;
    let j = choose|j: int| 0 <= j < entries.len() && #[trigger] entries[j].0 == key && entries[j].1 == w;
    if i < j {
        assert(entries[i].0 < entries[j].0);
    } else if j < i {
        assert(entries[j].0 < entries[i].0);
    }
}

/// Two entry sequences with strictly increasing keys that hold the same values under the same
/// keys are equal: an ordered store is determined by what it holds.
pub proof fn lemma_entries_extensional<V>(a: Seq<(u128, V)>, b: Seq<(u128, V)>)
    requires
        keys_increasing(a),
        keys_increasing(b),
        forall|k: int, v: V| #![trigger holds_entry(a, k, v)] #![trigger holds_entry(b, k, v)]
            holds_entry(a, k, v) <==> holds_entry(b, k, v),
    ensures
        a == b,
    decreases a.len(),
{
    if a.len() == 0 {
        if b.len() > 0 {
            assert(holds_entry(b, b[0].0 as int, b[0].1));
        }
        assert(a =~= b);
    } else {
        assert(holds_entry(a, a[0].0 as int, a[0].1));
        let j = choose|j: int| 0 <= j < b.len() && #[trigger] b[j].0 == a[0].0 && b[j].1 == a[0].1;
        if j > 0 {
            assert(holds_entry(b, b[0].0 as int, b[0].1));
            let i = choose|i: int| 0 <= i < a.len() && #[trigger] a[i].0 == b[0].0 && a[i].1 == b[0].1;
            assert(b[0].0 < b[j].0);
            if i > 0 {
                assert(a[0].0 < a[i].0);
            }
        }
        assert(b[0] == a[0]);
        let ta = a.drop_first();
        let tb = b.drop_first();
        assert forall|k: int, v: V| #![trigger holds_entry(ta, k, v)] #![trigger holds_entry(tb, k, v)]
            holds_entry(ta, k, v) <==> holds_entry(tb, k, v) by {
            if holds_entry(ta, k, v) {
                let i = choose|i: int| 0 <= i < ta.len() && #[trigger] ta[i].0 == k && ta[i].1 == v;
                assert(a[i + 1] == ta[i]);
                assert(a[0].0 < a[i + 1].0);
                assert(holds_entry(a, k, v));
                let m = choose|m: int| 0 <= m < b.len() && #[trigger] b[m].0 == k && b[m].1 == v;
                assert(m != 0);
                assert(tb[m - 1] == b[m]);
            }
            if holds_entry(tb, k, v) {
                let i = choose|i: int| 0 <= i < tb.len() && #[trigger] tb[i].0 == k && tb[i].1 == v;
                assert(b[i + 1] == tb[i]);
                assert(b[0].0 < b[i + 1].0);
                assert(holds_entry(b, k, v));
                let m = choose|m: int| 0 <= m < a.len() && #[trigger] a[m].0 == k && a[m].1 == v;
                assert(m != 0);
                assert(ta[m - 1] == a[m]);
            }
        }
        lemma_entries_extensional(ta, tb);
        assert(a =~= seq![a[0]] + ta);
        assert(b =~= seq![b[0]] + tb);
    }
}

/// Storing values under two different keys gives the same store in either order, so a store's
/// layout does not depend on its edit history.
pub proof fn lemma_insert_order_independent<V>(entries: Seq<(u128, V)>, k1: u128, v1: V, k2: u128, v2: V)
    requires
        keys_increasing(entries),
        k1 != k2,
    ensures
        with_entry(with_entry(entries, k1, v1), k2, v2) == with_entry(with_entry(entries, k2, v2), k1, v1),
{
    let one = with_entry(entries, k1, v1);
    let two = with_entry(entries, k2, v2);
    let a = with_entry(one, k2, v2);
    let b = with_entry(two, k1, v1);
    lemma_get_after_insert(entries, k1, v1, 0, v1);
    lemma_get_after_insert(entries, k2, v2, 0, v2);
    lemma_get_after_insert(one, k2, v2, 0, v2);
    lemma_get_after_insert(two, k1, v1, 0, v1);
    assert forall|k: int, v: V| #![trigger holds_entry(a, k, v)] #![trigger holds_entry(b, k, v)]
        holds_entry(a, k, v) <==> holds_entry(b, k, v) by {
        lemma_get_after_insert(entries, k1, v1, k, v);
        lemma_get_after_insert(entries, k2, v2, k, v);
        lemma_get_after_insert(one, k2, v2, k, v);
        lemma_get_after_insert(two, k1, v1, k, v);
        if k == k1 {
            lemma_get_after_insert(one, k2, v2, k, v1);
            lemma_get_after_insert(two, k1, v1, k, v1);
            if holds_entry(a, k, v) {
                lemma_holds_unique(a, k, v, v1);
            }
            if holds_entry(b, k, v) {
                lemma_holds_unique(b, k, v, v1);
            }
        } else if k == k2 {
            lemma_get_after_insert(one, k2, v2, k, v2);
            lemma_get_after_insert(two, k1, v1, k, v2);
            lemma_get_after_insert(entries, k2, v2, k, v2);
            if holds_entry(a, k, v) {
                lemma_holds_unique(a, k, v, v2);
            }
            if holds_entry(b, k, v) {
                lemma_holds_unique(b, k, v, v2);
            }
        }
    }
    lemma_entries_extensional(a, b);
}

/// Removing a key that was just stored, where it was absent before, gives the store back.
pub proof fn lemma_remove_undoes_insert<V>(entries: Seq<(u128, V)>, key: u128, value: V)
    requires
        keys_increasing(entries),
        !has_key(entries, key as int),
    ensures
        without_entry(with_entry(entries, key, value), key) == entries,
{
    let stored = with_entry(entries, key, value);
    let back = without_entry(stored, key);
    lemma_get_after_insert(entries, key, value, 0, value);
    lemma_get_after_remove(stored, key, 0, value);
    assert forall|k: int, v: V| #![trigger holds_entry(back, k, v)] #![trigger holds_entry(entries, k, v)]
        holds_entry(back, k, v) <==> holds_entry(entries, k, v) by {
        lemma_get_after_insert(entries, key, value, k, v);
        lemma_get_after_remove(stored, key, k, v);
        if k == key {
            if holds_entry(back, k, v) {
                assert(has_key(back, k));
            }
            if holds_entry(entries, k, v) {
                assert(has_key(entries, k));
            }
        }
    }
    lemma_entries_extensional(back, entries);
}

/// The value `entries` holds under `key`.
pub open spec fn value_at<V>(entries: Seq<(u128, V)>, key: int) -> Option<V> {
    if has_key(entries, key) {
        Some(entries[key_position(entries, key as u128)].1)
    } else {
        None
    }
}

/// With increasing keys, the value held under a key is the one at its position.
pub proof fn lemma_value_at<V>(entries: Seq<(u128, V)>, key: u128, v: V)
    requires
        keys_increasing(entries),
        holds_entry(entries, key as int, v),
    ensures
        value_at(entries, key as int) == Some(v),
        key_position(entries, key) < entries.len(),
        entries[key_position(entries, key)] == (key, v),
{
    let i = choose|i: int| 0 <= i < entries.len() && #[trigger] entries[i].0 == key && entries[i].1 == v;
    assert(is_key_position(entries, key, i)) by {
        assert forall|j: int| 0 <= j < i implies (#[trigger] entries[j]).0 < key by {
            assert(entries[j].0 < entries[i].0);
        }
        assert forall|j: int| i <= j < entries.len() implies (#[trigger] entries[j]).0 >= key by {
            if j > i {
                assert(entries[i].0 < entries[j].0);
            }
        }
    }
    lemma_key_position_unique(entries, key, i);
    assert(has_key(entries, key as int));
}

/// `entries` with each item stored in turn.
pub open spec fn inserted_all<V>(entries: Seq<(u128, V)>, items: Seq<(u128, V)>) -> Seq<(u128, V)>
    decreases items.len(),
{
    if items.len() == 0 {
        entries
    } else {
        with_entry(inserted_all(entries, items.drop_last()), items.last().0, items.last().1)
    }
}

/// `entries` with each key removed in turn.
pub open spec fn removed_all<V>(entries: Seq<(u128, V)>, keys: Seq<u128>) -> Seq<(u128, V)>
    decreases keys.len(),
{
    if keys.len() == 0 {
        entries
    } else {
        without_entry(removed_all(entries, keys.drop_last()), keys.last())
    }
}

/// The keys of cells, in order.
pub open spec fn cell_keys(cells: Seq<CalculationCellId>) -> Seq<u128> {
    cells.map_values(|c: CalculationCellId| cell_key_spec(c@) as u128)
}

/// Entries keyed by the packed keys of their cells.
pub open spec fn keyed<V>(items: Seq<(CalculationCellId, V)>) -> Seq<(u128, V)> {
    items.map_values(|e: (CalculationCellId, V)| (cell_key_spec(e.0@) as u128, e.1))
}

/// Reverses a vector by moving its elements.
pub fn reversed_vec<T>(v: Vec<T>) -> (r: Vec<T>)
    ensures
        r@ == v@.reverse(),
{
    let ghost initial = v@;
    let mut source = v;
    let mut out: Vec<T> = Vec::new();
    while source.len() > 0
        invariant
            source@.len() <= initial.len(),
            source@ == initial.take(source@.len() as int),
            out@ == initial.skip(source@.len() as int).reverse(),
        decreases source.len(),
    {
        let ghost n = source@.len() as int;
        let x = source.pop().unwrap();
        proof {
            assert(x == initial[n - 1]);
            assert(initial.take(n).drop_last() =~= initial.take(n - 1));
        }
        out.push(x);
        assert(out@ =~= initial.skip(n - 1).reverse()) by {
            assert(initial.skip(n - 1) =~= seq![initial[n - 1]] + initial.skip(n));
        }
    }
    assert(initial.skip(0) =~= initial);
    out
}

/// The work one store edit did, in the units that the result-store counters count.
#[derive(Debug, Clone, Copy, PartialEq, Eq, Structural)]
pub struct StoreWork {
    /// Leaves rebuilt: one when an existing entry is replaced or removed.
    pub leaves_rebuilt: u64,
    /// Entries reindexed: one when an existing entry is replaced or removed.
    pub entries_reindexed: u64,
    /// Shared nodes copied. This store edits its entry vector in place and shares no nodes,
    /// so an edit copies none.
    pub nodes_copied: u64,
}

/// The work of an edit that replaced or removed an entry when `touched_existing` holds.
pub open spec fn store_work_spec(touched_existing: bool) -> StoreWork {
    if touched_existing {
        StoreWork { leaves_rebuilt: 1, entries_reindexed: 1, nodes_copied: 0 }
    } else {
        StoreWork { leaves_rebuilt: 0, entries_reindexed: 0, nodes_copied: 0 }
    }
}

/// The work of an edit that replaced or removed an entry when `touched_existing` holds.
pub fn store_work(touched_existing: bool) -> (r: StoreWork)
    ensures
        r == store_work_spec(touched_existing),
{
    if touched_existing {
        StoreWork { leaves_rebuilt: 1, entries_reindexed: 1, nodes_copied: 0 }
    } else {
        StoreWork { leaves_rebuilt: 0, entries_reindexed: 0, nodes_copied: 0 }
    }
}

/// An ordered map from formula cells to values, kept sorted by packed cell key so that
/// iteration is sheet-major and row-major and its layout does not depend on edit history.
#[derive(Debug)]
pub struct CalculationStore<V> {
    entries: Vec<(u128, V)>,
}

impl<V> CalculationStore<V> {
    #[verifier::type_invariant]
    spec fn sorted(self) -> bool {
        keys_increasing(self.entries@) && keys_valid(self.entries@)
    }

    /// The stored entries in ascending key order.
    pub closed spec fn entries_spec(self) -> Seq<(u128, V)> {
        self.entries@
    }

    /// Builds an empty store.
    pub fn new() -> (r: Self)
        ensures
            r.entries_spec() == Seq::<(u128, V)>::empty(),
    {
        CalculationStore { entries: Vec::new() }
    }

    /// Index of `key`, or the index at which it would be inserted.
    fn search(&self, key: u128) -> (r: Result<usize, usize>)
        ensures
            match r {
                Ok(i) => i < self.entries_spec().len() && self.entries_spec()[i as int].0 == key,
                Err(i) => i <= self.entries_spec().len() && (forall|j: int|
                    0 <= j < i ==> #[trigger] self.entries_spec()[j].0 < key) && (forall|j: int|
                    i <= j < self.entries_spec().len() ==> #[trigger] self.entries_spec()[j].0
                        > key),
            },
    {
        proof {
            use_type_invariant(self);
        }
        let mut low: usize = 0;
        let mut high: usize = self.entries.len();
        while low < high
            invariant
                low <= high <= self.entries@.len(),
                keys_increasing(self.entries@),
                forall|j: int| 0 <= j < low ==> #[trigger] self.entries@[j].0 < key,
                forall|j: int| high <= j < self.entries@.len() ==> #[trigger] self.entries@[j].0 > key,
            decreases high - low,
        {
            let mid = low + (high - low) / 2;
            let k = self.entries[mid].0;
            if k == key {
                return Ok(mid);
            } else if k < key {
                low = mid + 1;
            } else {
                high = mid;
            }
        }
        Err(low)
    }

    /// Returns the value stored for a cell.
    pub fn get(&self, cell: CalculationCellId) -> (r: Option<&V>)
        ensures
            match r {
                Some(v) => holds_entry(self.entries_spec(), cell_key_spec(cell@), *v),
                None => !has_key(self.entries_spec(), cell_key_spec(cell@)),
            },
    {
        let key = cell_key(cell);
        match self.search(key) {
            Ok(i) => {
                let r = &self.entries[i].1;
                assert(self.entries@[i as int].0 == key && self.entries@[i as int].1 == *r);
                Some(r)
            },
            Err(i) => {
                assert(!has_key(self.entries_spec(), key as int));
                None
            },
        }
    }

    /// Builds a store from cell entries given in strictly ascending cell order, as a sorted map
    /// yields them; returns `None` when the entries are out of order or repeat a cell.
    pub fn from_sorted(cells: Vec<(CalculationCellId, V)>) -> (r: Option<Self>)
        ensures
            match r {
                Some(store) => store.entries_spec().len() == cells@.len() && forall|i: int|
                    0 <= i < cells@.len() ==> #[trigger] store.entries_spec()[i].0 == cell_key_spec(cells@[i].0@)
                        && store.entries_spec()[i].1 == cells@[i].1,
                None => exists|i: int| 0 <= i < cells@.len() - 1 && !cell_before(#[trigger] cells@[i].0@, cells@[i + 1].0@),
            },
    {
        let ghost initial = cells@;
        let mut entries: Vec<(u128, V)> = Vec::new();
        let mut remaining = reversed_vec(cells);
        let ghost reversed = remaining@;
        assert(reversed =~= initial.reverse());
        while remaining.len() > 0
            invariant
                reversed == initial.reverse(),
                remaining@ == reversed.take(remaining@.len() as int),
                entries@.len() + remaining@.len() == initial.len(),
                keys_increasing(entries@),
                keys_valid(entries@),
                forall|i: int| 0 <= i < entries@.len() ==> #[trigger] entries@[i].0 == cell_key_spec(initial[i].0@)
                    && entries@[i].1 == initial[i].1,
                forall|i: int| 0 <= i < entries@.len() - 1 ==> cell_before(#[trigger] initial[i].0@, initial[i + 1].0@),
                forall|i: int| 0 <= i < entries@.len() ==> (#[trigger] initial[i].0).valid(),
                initial == cells@,
            decreases remaining.len(),
        {
            let (cell, value) = remaining.pop().unwrap();
            let ghost idx = entries@.len() as int;
            assert(reversed[initial.len() - 1 - idx] == initial[idx]);
            assert((cell, value) == initial[idx]);
            cell.check_valid();
            proof {
                lemma_cell_key_round_trip(cell);
            }
            let key = cell_key(cell);
            if entries.len() > 0 {
                let last = entries.len() - 1;
                let previous_key = entries[last].0;
                let previous = cell_from_key(previous_key);
                previous.check_valid();
                proof {
                    lemma_cell_key_order(previous, cell);
                    crate::cell::lemma_cell_from_key_view(previous_key, previous, initial[last as int].0);
                }
                if previous_key >= key {
                    assert(!cell_before(initial[last as int].0@, initial[idx].0@));
                    return None;
                }
            }
            entries.push((key, value));
        }
        proof {
            if entries@.len() > 0 {
            }
        }
        Some(CalculationStore { entries })
    }

    /// Stores `value` for `cell`, returning the value it replaces.
    pub fn insert(&mut self, cell: CalculationCellId, value: V) -> (r: Option<V>)
        ensures
            final(self).entries_spec() == with_entry(old(self).entries_spec(), cell_key_spec(cell@) as u128, value),
            match r {
                Some(previous) => holds_entry(old(self).entries_spec(), cell_key_spec(cell@), previous),
                None => !has_key(old(self).entries_spec(), cell_key_spec(cell@)),
            },
    {
        proof {
            use_type_invariant(&*self);
        }
        cell.check_valid();
        let key = cell_key(cell);
        let ghost before = self.entries@;
        let found = self.search(key);
        let mut entries: Vec<(u128, V)> = Vec::new();
        std::mem::swap(&mut entries, &mut self.entries);
        let previous = match found {
            Ok(i) => {
                proof {
                    assert(is_key_position(before, key, i as int)) by {
                        assert forall|j: int| 0 <= j < i implies (#[trigger] before[j]).0 < key by {
                            assert(before[j].0 < before[i as int].0);
                        }
                        assert forall|j: int| i <= j < before.len() implies (#[trigger] before[j]).0 >= key by {
                            if j > i {
                                assert(before[i as int].0 < before[j].0);
                            }
                        }
                    }
                    lemma_key_position_unique(before, key, i as int);
                }
                let old_entry = entries.remove(i);
                entries.insert(i, (key, value));
                assert(entries@ =~= before.update(i as int, (key, value)));
                assert(before[i as int] == old_entry);
                Some(old_entry.1)
            },
            Err(i) => {
                proof {
                    lemma_key_position_unique(before, key, i as int);
                    assert(!has_key(before, key as int)) by {
                        if has_key(before, key as int) {
                            let j = choose|j: int| 0 <= j < before.len() && #[trigger] before[j].0 == key;
                        }
                    }
                }
                entries.insert(i, (key, value));
                assert(entries@ =~= before.insert(i as int, (key, value)));
                None
            },
        };
        proof {
            lemma_get_after_insert(before, key, value, 0, value);
            crate::cell::lemma_cell_key_round_trip(cell);
            assert forall|j: int| 0 <= j < entries@.len() implies valid_cell_key(#[trigger] entries@[j].0 as int) by {
                let p = key_position(before, key);
                if entries@[j].0 != key {
                    if p < before.len() && before[p].0 == key {
                        assert(entries@[j] == before[j]);
                    } else if j < p {
                        assert(entries@[j] == before[j]);
                    } else {
                        assert(entries@[j] == before[j - 1]);
                    }
                }
            }
        }
        self.entries = entries;
        previous
    }

    /// Removes the value stored for `cell`, returning it.
    pub fn remove(&mut self, cell: CalculationCellId) -> (r: Option<V>)
        ensures
            final(self).entries_spec() == without_entry(old(self).entries_spec(), cell_key_spec(cell@) as u128),
            match r {
                Some(previous) => holds_entry(old(self).entries_spec(), cell_key_spec(cell@), previous),
                None => !has_key(old(self).entries_spec(), cell_key_spec(cell@)),
            },
    {
        proof {
            use_type_invariant(&*self);
        }
        cell.check_valid();
        let key = cell_key(cell);
        let ghost before = self.entries@;
        match self.search(key) {
            Ok(i) => {
                proof {
                    assert(is_key_position(before, key, i as int)) by {
                        assert forall|j: int| 0 <= j < i implies (#[trigger] before[j]).0 < key by {
                            assert(before[j].0 < before[i as int].0);
                        }
                        assert forall|j: int| i <= j < before.len() implies (#[trigger] before[j]).0 >= key by {
                            if j > i {
                                assert(before[i as int].0 < before[j].0);
                            }
                        }
                    }
                    lemma_key_position_unique(before, key, i as int);
                    lemma_get_after_remove(before, key, 0, before[i as int].1);
                }
                let mut entries: Vec<(u128, V)> = Vec::new();
                std::mem::swap(&mut entries, &mut self.entries);
                let removed = entries.remove(i);
                proof {
                    assert(entries@ == before.remove(i as int));
                    assert forall|j: int| 0 <= j < entries@.len() implies valid_cell_key(#[trigger] entries@[j].0 as int) by {
                        if j < i {
                            assert(entries@[j] == before[j]);
                        } else {
                            assert(entries@[j] == before[j + 1]);
                        }
                    }
                }
                self.entries = entries;
                Some(removed.1)
            },
            Err(i) => {
                proof {
                    lemma_key_position_unique(before, key, i as int);
                    assert(!has_key(before, key as int)) by {
                        if has_key(before, key as int) {
                            let j = choose|j: int| 0 <= j < before.len() && #[trigger] before[j].0 == key;
                        }
                    }
                }
                None
            },
        }
    }

    /// Stores `value` for `cell` unless `cancelled` reports cancellation first.
    pub fn insert_cancellable<F: Fn() -> bool>(&mut self, cell: CalculationCellId, value: V, cancelled: &F) -> (r: Result<Option<V>, ()>)
        requires
            call_requires(*cancelled, ()),
        ensures
            match r {
                Ok(previous) => {
                    &&& final(self).entries_spec() == with_entry(old(self).entries_spec(), cell_key_spec(cell@) as u128, value)
                    &&& match previous {
                        Some(p) => holds_entry(old(self).entries_spec(), cell_key_spec(cell@), p),
                        None => !has_key(old(self).entries_spec(), cell_key_spec(cell@)),
                    }
                },
                Err(()) => final(self).entries_spec() == old(self).entries_spec() && call_ensures(*cancelled, (), true),
            },
    {
        if cancelled() {
            return Err(());
        }
        Ok(self.insert(cell, value))
    }

    /// Removes the value stored for `cell` unless `cancelled` reports cancellation first.
    pub fn remove_cancellable<F: Fn() -> bool>(&mut self, cell: CalculationCellId, cancelled: &F) -> (r: Result<Option<V>, ()>)
        requires
            call_requires(*cancelled, ()),
        ensures
            match r {
                Ok(previous) => {
                    &&& final(self).entries_spec() == without_entry(old(self).entries_spec(), cell_key_spec(cell@) as u128)
                    &&& match previous {
                        Some(p) => holds_entry(old(self).entries_spec(), cell_key_spec(cell@), p),
                        None => !has_key(old(self).entries_spec(), cell_key_spec(cell@)),
                    }
                },
                Err(()) => final(self).entries_spec() == old(self).entries_spec() && call_ensures(*cancelled, (), true),
            },
    {
        if cancelled() {
            return Err(());
        }
        Ok(self.remove(cell))
    }

    /// Stores `value` for `cell` as `insert_cancellable` does, and reports the work done:
    /// replacing an existing entry rebuilds one leaf and reindexes one entry.
    pub fn insert_reporting_work<F: Fn() -> bool>(&mut self, cell: CalculationCellId, value: V, cancelled: &F) -> (r: Result<(Option<V>, StoreWork), ()>)
        requires
            call_requires(*cancelled, ()),
        ensures
            match r {
                Ok((previous, work)) => {
                    &&& final(self).entries_spec() == with_entry(old(self).entries_spec(), cell_key_spec(cell@) as u128, value)
                    &&& match previous {
                        Some(p) => holds_entry(old(self).entries_spec(), cell_key_spec(cell@), p),
                        None => !has_key(old(self).entries_spec(), cell_key_spec(cell@)),
                    }
                    &&& work == store_work_spec(has_key(old(self).entries_spec(), cell_key_spec(cell@)))
                },
                Err(()) => final(self).entries_spec() == old(self).entries_spec() && call_ensures(*cancelled, (), true),
            },
    {
        match self.insert_cancellable(cell, value, cancelled) {
            Ok(previous) => {
                let replaced = previous.is_some();
                let work = store_work(replaced);
                Ok((previous, work))
            },
            Err(()) => Err(()),
        }
    }

    /// Removes the value stored for `cell` as `remove_cancellable` does, and reports the work
    /// done: removing an existing entry rebuilds one leaf and reindexes one entry.
    pub fn remove_reporting_work<F: Fn() -> bool>(&mut self, cell: CalculationCellId, cancelled: &F) -> (r: Result<(Option<V>, StoreWork), ()>)
        requires
            call_requires(*cancelled, ()),
        ensures
            match r {
                Ok((previous, work)) => {
                    &&& final(self).entries_spec() == without_entry(old(self).entries_spec(), cell_key_spec(cell@) as u128)
                    &&& match previous {
                        Some(p) => holds_entry(old(self).entries_spec(), cell_key_spec(cell@), p),
                        None => !has_key(old(self).entries_spec(), cell_key_spec(cell@)),
                    }
                    &&& work == store_work_spec(has_key(old(self).entries_spec(), cell_key_spec(cell@)))
                },
                Err(()) => final(self).entries_spec() == old(self).entries_spec() && call_ensures(*cancelled, (), true),
            },
    {
        match self.remove_cancellable(cell, cancelled) {
            Ok(previous) => {
                let removed = previous.is_some();
                let work = store_work(removed);
                Ok((previous, work))
            },
            Err(()) => Err(()),
        }
    }

    /// Returns the stored cells and values in ascending cell order.
    pub fn cells(&self) -> (r: Vec<(CalculationCellId, &V)>)
        ensures
            lists_entries(r@, self.entries_spec()),
    {
        proof {
            use_type_invariant(self);
        }
        let mut out: Vec<(CalculationCellId, &V)> = Vec::new();
        let mut i: usize = 0;
        while i < self.entries.len()
            invariant
                i <= self.entries@.len(),
                keys_valid(self.entries@),
                out@.len() == i,
                forall|j: int| 0 <= j < i ==> cell_key_spec(#[trigger] out@[j].0@) == self.entries@[j].0
                    && *out@[j].1 == self.entries@[j].1,
            decreases self.entries.len() - i,
        {
            let entry = &self.entries[i];
            let cell = cell_from_key(entry.0);
            out.push((cell, &entry.1));
            i = i + 1;
        }
        out
    }

    /// Returns a store with the same entries, each value copied by `copy`.
    pub fn duplicate_with<F: Fn(&V) -> V>(&self, copy: &F) -> (r: Self)
        requires
            forall|v: &V| #[trigger] call_requires(*copy, (v,)),
            forall|v: &V, w: V| #[trigger] call_ensures(*copy, (v,), w) ==> w == *v,
        ensures
            r.entries_spec() == self.entries_spec(),
    {
        proof {
            use_type_invariant(self);
        }
        let mut entries: Vec<(u128, V)> = Vec::new();
        let mut i: usize = 0;
        while i < self.entries.len()
            invariant
                i <= self.entries@.len(),
                entries@ == self.entries@.take(i as int),
                forall|v: &V| #[trigger] call_requires(*copy, (v,)),
                forall|v: &V, w: V| #[trigger] call_ensures(*copy, (v,), w) ==> w == *v,
            decreases self.entries.len() - i,
        {
            let entry = &self.entries[i];
            let value = copy(&entry.1);
            entries.push((entry.0, value));
            assert(entries@ =~= self.entries@.take(i + 1));
            i = i + 1;
        }
        assert(entries@ =~= self.entries@);
        CalculationStore { entries }
    }

    /// Returns a store with the same keys, each value copied by `copy` into one with the same view.
    pub fn duplicate_viewed<F: Fn(&V) -> V>(&self, copy: &F) -> (r: Self)
        where V: View,
        requires
            forall|v: &V| #[trigger] call_requires(*copy, (v,)),
            forall|v: &V, w: V| #[trigger] call_ensures(*copy, (v,), w) ==> w@ == v@,
        ensures
            r.entries_spec().len() == self.entries_spec().len(),
            forall|i: int| 0 <= i < self.entries_spec().len() ==> #[trigger] r.entries_spec()[i].0 == self.entries_spec()[i].0
                && r.entries_spec()[i].1@ == self.entries_spec()[i].1@,
    {
        proof {
            use_type_invariant(self);
        }
        let mut entries: Vec<(u128, V)> = Vec::new();
        let mut i: usize = 0;
        while i < self.entries.len()
            invariant
                i <= self.entries@.len(),
                entries@.len() == i,
                forall|j: int| 0 <= j < i ==> #[trigger] entries@[j].0 == self.entries@[j].0
                    && entries@[j].1@ == self.entries@[j].1@,
                forall|v: &V| #[trigger] call_requires(*copy, (v,)),
                forall|v: &V, w: V| #[trigger] call_ensures(*copy, (v,), w) ==> w@ == v@,
            decreases self.entries.len() - i,
        {
            let entry = &self.entries[i];
            let value = copy(&entry.1);
            entries.push((entry.0, value));
            i = i + 1;
        }
        proof {
            assert forall|a: int, b: int| 0 <= a < b < entries@.len() implies entries@[a].0 < entries@[b].0 by {
                assert(entries@[a].0 == self.entries@[a].0 && entries@[b].0 == self.entries@[b].0);
            }
            assert forall|a: int| 0 <= a < entries@.len() implies valid_cell_key(#[trigger] entries@[a].0 as int) by {
                assert(entries@[a].0 == self.entries@[a].0);
            }
        }
        CalculationStore { entries }
    }

    /// Every store keeps its keys strictly increasing and valid.
    pub fn check_sorted(&self)
        ensures
            keys_increasing(self.entries_spec()),
            keys_valid(self.entries_spec()),
    {
        proof {
            use_type_invariant(self);
        }
    }

    /// Returns the number of stored cells.
    pub fn len(&self) -> (r: usize)
        ensures
            r == self.entries_spec().len(),
    {
        self.entries.len()
    }

    /// Returns whether the store is empty.
    pub fn is_empty(&self) -> (r: bool)
        ensures
            r == (self.entries_spec().len() == 0),
    {
        self.entries.len() == 0
    }
}

} // verus!
