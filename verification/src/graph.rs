//! Formula dependency graphs and their deterministic evaluation schedule.
use vstd::prelude::*;

verus! {

/// A formula cell: sheet index, row and column.
pub type CellId = (usize, u32, u32);

/// Strict lexicographic order of cells: by sheet, then row, then column.
pub open spec fn cell_id_lt(a: CellId, b: CellId) -> bool {
    ||| a.0 < b.0
    ||| a.0 == b.0 && a.1 < b.1
    ||| a.0 == b.0 && a.1 == b.1 && a.2 < b.2
}

/// Compares two cells in sheet, row, column order.
pub fn cell_id_less(a: CellId, b: CellId) -> (r: bool)
    ensures
        r == cell_id_lt(a, b),
{
    a.0 < b.0 || (a.0 == b.0 && (a.1 < b.1 || (a.1 == b.1 && a.2 < b.2)))
}

/// Whether two cells are the same cell.
pub fn cell_id_eq(a: CellId, b: CellId) -> (r: bool)
    ensures
        r == (a == b),
{
    a.0 == b.0 && a.1 == b.1 && a.2 == b.2
}

/// Whether the cells of `entries` strictly ascend.
pub open spec fn keys_ascending(entries: Seq<(CellId, Seq<CellId>)>) -> bool {
    forall|i: int, j: int| 0 <= i < j < entries.len() ==> cell_id_lt(entries[i].0, entries[j].0)
}

/// Whether `cell` is a formula cell of the graph.
pub open spec fn is_key(entries: Seq<(CellId, Seq<CellId>)>, cell: CellId) -> bool {
    exists|i: int| 0 <= i < entries.len() && #[trigger] entries[i].0 == cell
}

/// Whether `p` is where `cell` belongs among the ascending cells of `entries`.
pub open spec fn is_insert_position(entries: Seq<(CellId, Seq<CellId>)>, cell: CellId, p: int) -> bool {
    &&& 0 <= p <= entries.len()
    &&& forall|i: int| 0 <= i < p ==> cell_id_lt(#[trigger] entries[i].0, cell)
    &&& forall|i: int| p <= i < entries.len() ==> !cell_id_lt(#[trigger] entries[i].0, cell)
}

/// Position at which `cell` is found or would be inserted.
pub open spec fn insert_position(entries: Seq<(CellId, Seq<CellId>)>, cell: CellId) -> int {
    choose|p: int| is_insert_position(entries, cell, p)
}

/// `entries` with the dependencies of `cell` set to `dependencies`, kept in cell order.
pub open spec fn with_dependencies(
    entries: Seq<(CellId, Seq<CellId>)>,
    cell: CellId,
    dependencies: Seq<CellId>,
) -> Seq<(CellId, Seq<CellId>)> {
    let p = insert_position(entries, cell);
    if p < entries.len() && entries[p].0 == cell {
        entries.update(p, (cell, dependencies))
    } else {
        entries.insert(p, (cell, dependencies))
    }
}

proof fn lemma_lt_trans(a: CellId, b: CellId, c: CellId)
    requires
        cell_id_lt(a, b),
        cell_id_lt(b, c),
    ensures
        cell_id_lt(a, c),
{
}

proof fn lemma_insert_position_unique(entries: Seq<(CellId, Seq<CellId>)>, cell: CellId, p: int)
    requires
        is_insert_position(entries, cell, p),
    ensures
        insert_position(entries, cell) == p,
{
    let q = insert_position(entries, cell);
    assert(is_insert_position(entries, cell, q));
    if q < p {
        assert(cell_id_lt(entries[q].0, cell));
    } else if p < q {
        assert(cell_id_lt(entries[p].0, cell));
    }
}

/// Formula cells with the cells each one reads, kept in ascending cell order like a sorted map.
#[derive(Debug)]
pub struct DependencyGraph {
    entries: Vec<(CellId, Vec<CellId>)>,
}

impl View for DependencyGraph {
    type V = Seq<(CellId, Seq<CellId>)>;

    closed spec fn view(&self) -> Seq<(CellId, Seq<CellId>)> {
        self.entries@.map_values(|e: (CellId, Vec<CellId>)| (e.0, e.1@))
    }
}

impl DependencyGraph {
    #[verifier::type_invariant]
    spec fn ascending(self) -> bool {
        keys_ascending(self@)
    }

    /// An empty graph.
    pub fn new() -> (r: Self)
        ensures
            r@ == Seq::<(CellId, Seq<CellId>)>::empty(),
    {
        let r = DependencyGraph { entries: Vec::new() };
        assert(r@ =~= Seq::<(CellId, Seq<CellId>)>::empty());
        r
    }

    /// Every graph keeps its cells in strictly ascending order.
    pub fn check_ascending(&self)
        ensures
            keys_ascending(self@),
    {
        proof {
            use_type_invariant(self);
        }
    }

    /// Returns the number of formula cells.
    pub fn len(&self) -> (r: usize)
        ensures
            r == self@.len(),
    {
        self.entries.len()
    }

    /// Returns one formula cell and its dependencies, by position in cell order.
    pub fn entry(&self, i: usize) -> (r: (CellId, &[CellId]))
        requires
            i < self@.len(),
        ensures
            r.0 == self@[i as int].0,
            r.1@ == self@[i as int].1,
    {
        let e = &self.entries[i];
        (e.0, e.1.as_slice())
    }

    /// Position of `cell`, or where it would be inserted.
    pub fn search(&self, cell: CellId) -> (r: Result<usize, usize>)
        ensures
            match r {
                Ok(p) => p < self@.len() && self@[p as int].0 == cell && is_insert_position(self@, cell, p as int),
                Err(p) => is_insert_position(self@, cell, p as int) && !is_key(self@, cell),
            },
    {
        proof {
            use_type_invariant(self);
        }
        let ghost g = self@;
        let mut low: usize = 0;
        let mut high: usize = self.entries.len();
        while low < high
            invariant
                g == self@,
                keys_ascending(g),
                low <= high <= g.len(),
                forall|i: int| 0 <= i < low ==> cell_id_lt(#[trigger] g[i].0, cell),
                forall|i: int| high <= i < g.len() ==> cell_id_lt(cell, #[trigger] g[i].0),
            decreases high - low,
        {
            let mid = low + (high - low) / 2;
            let key = self.entries[mid].0;
            assert(key == g[mid as int].0);
            if cell_id_eq(key, cell) {
                proof {
                    assert forall|i: int| mid <= i < g.len() implies !cell_id_lt(#[trigger] g[i].0, cell) by {
                        if i > mid {
                            assert(cell_id_lt(g[mid as int].0, g[i].0));
                        }
                    }
                    assert forall|i: int| 0 <= i < mid implies cell_id_lt(#[trigger] g[i].0, cell) by {
                        if i >= low {
                            assert(cell_id_lt(g[i].0, g[mid as int].0));
                        }
                    }
                }
                return Ok(mid);
            } else if cell_id_less(key, cell) {
                proof {
                    assert forall|i: int| 0 <= i < mid + 1 implies cell_id_lt(#[trigger] g[i].0, cell) by {
                        if low <= i < mid {
                            lemma_lt_trans(g[i].0, g[mid as int].0, cell);
                        }
                    }
                }
                low = mid + 1;
            } else {
                proof {
                    assert forall|i: int| mid <= i < g.len() implies cell_id_lt(cell, #[trigger] g[i].0) by {
                        if mid < i < high {
                            lemma_lt_trans(cell, g[mid as int].0, g[i].0);
                        }
                    }
                }
                high = mid;
            }
        }
        proof {
            assert forall|i: int| low <= i < g.len() implies !cell_id_lt(#[trigger] g[i].0, cell) by {}
            if is_key(g, cell) {
                let i = choose|i: int| 0 <= i < g.len() && #[trigger] g[i].0 == cell;
                if i < low {
                    assert(cell_id_lt(g[i].0, cell));
                } else {
                    assert(cell_id_lt(cell, g[i].0));
                }
            }
        }
        Err(low)
    }

    /// Sets the dependencies of `cell`, adding the cell when it is new.
    pub fn insert(&mut self, cell: CellId, dependencies: Vec<CellId>)
        ensures
            final(self)@ == with_dependencies(old(self)@, cell, dependencies@),
    {
        proof {
            use_type_invariant(&*self);
        }
        let ghost g = self@;
        let found = self.search(cell);
        let ghost deps = dependencies@;
        match found {
            Ok(p) => {
                proof {
                    lemma_insert_position_unique(g, cell, p as int);
                }
                let mut entries: Vec<(CellId, Vec<CellId>)> = Vec::new();
                std::mem::swap(&mut entries, &mut self.entries);
                entries.set(p, (cell, dependencies));
                let ghost updated = entries@.map_values(|e: (CellId, Vec<CellId>)| (e.0, e.1@));
                assert(updated =~= g.update(p as int, (cell, deps)));
                assert(keys_ascending(updated));
                self.entries = entries;
            },
            Err(p) => {
                proof {
                    lemma_insert_position_unique(g, cell, p as int);
                }
                let mut entries: Vec<(CellId, Vec<CellId>)> = Vec::new();
                std::mem::swap(&mut entries, &mut self.entries);
                entries.insert(p, (cell, dependencies));
                let ghost updated = entries@.map_values(|e: (CellId, Vec<CellId>)| (e.0, e.1@));
                assert(updated =~= g.insert(p as int, (cell, deps)));
                assert forall|i: int, j: int| 0 <= i < j < updated.len() implies cell_id_lt(updated[i].0, updated[j].0) by {
                    if j < p {
                    } else if i > p {
                        assert(updated[i] == g[i - 1] && updated[j] == g[j - 1]);
                    } else if i == p {
                        assert(updated[j] == g[j - 1]);
                        assert(!cell_id_lt(g[j - 1].0, cell));
                        assert(g[j - 1].0 != cell);
                    } else if j == p {
                        assert(updated[i] == g[i]);
                    } else {
                        assert(updated[i] == g[i] && updated[j] == g[j - 1]);
                    }
                }
                self.entries = entries;
            },
        }
    }
}

/// Number of occurrences of `x` in `s`.
pub open spec fn occurrences(s: Seq<usize>, x: usize) -> nat
    decreases s.len(),
{
    if s.len() == 0 {
        0
    } else {
        occurrences(s.drop_last(), x) + if s.last() == x { 1nat } else { 0nat }
    }
}

/// Number of elements of `s` whose flag in `emitted` is not set.
pub open spec fn pending(s: Seq<usize>, emitted: Seq<bool>) -> nat
    decreases s.len(),
{
    if s.len() == 0 {
        0
    } else {
        pending(s.drop_last(), emitted) + if emitted[s.last() as int] { 0nat } else { 1nat }
    }
}

/// Number of set flags.
pub open spec fn count_set(flags: Seq<bool>) -> nat
    decreases flags.len(),
{
    if flags.len() == 0 {
        0
    } else {
        count_set(flags.drop_last()) + if flags.last() { 1nat } else { 0nat }
    }
}

proof fn lemma_occurrences_take(s: Seq<usize>, k: int, x: usize)
    requires
        0 <= k < s.len(),
    ensures
        occurrences(s.take(k + 1), x) == occurrences(s.take(k), x) + if s[k] == x { 1nat } else { 0nat },
{
    assert(s.take(k + 1).drop_last() =~= s.take(k));
}

proof fn lemma_occurrences_prefix(s: Seq<usize>, k: int, x: usize)
    requires
        0 <= k <= s.len(),
    ensures
        occurrences(s.take(k), x) <= occurrences(s, x),
    decreases s.len() - k,
{
    if k < s.len() {
        lemma_occurrences_take(s, k, x);
        lemma_occurrences_prefix(s, k + 1, x);
    } else {
        assert(s.take(k) =~= s);
    }
}

proof fn lemma_occurrences_push(s: Seq<usize>, y: usize, x: usize)
    ensures
        occurrences(s.push(y), x) == occurrences(s, x) + if y == x { 1nat } else { 0nat },
{
    assert(s.push(y).drop_last() =~= s);
}

proof fn lemma_occurrences_member(s: Seq<usize>, x: usize)
    requires
        occurrences(s, x) > 0,
    ensures
        exists|i: int| 0 <= i < s.len() && s[i] == x,
    decreases s.len(),
{
    if s.last() != x {
        lemma_occurrences_member(s.drop_last(), x);
        let i = choose|i: int| 0 <= i < s.drop_last().len() && s.drop_last()[i] == x;
        assert(s[i] == x);
    } else {
        assert(s[s.len() - 1] == x);
    }
}

proof fn lemma_occurrences_of_member(s: Seq<usize>, i: int)
    requires
        0 <= i < s.len(),
    ensures
        occurrences(s, s[i]) > 0,
    decreases s.len(),
{
    if i < s.len() - 1 {
        lemma_occurrences_of_member(s.drop_last(), i);
    }
}

proof fn lemma_pending_update(s: Seq<usize>, emitted: Seq<bool>, c: usize)
    requires
        c < emitted.len(),
        !emitted[c as int],
        forall|i: int| 0 <= i < s.len() ==> (#[trigger] s[i]) < emitted.len(),
    ensures
        pending(s, emitted.update(c as int, true)) + occurrences(s, c) == pending(s, emitted),
    decreases s.len(),
{
    if s.len() > 0 {
        lemma_pending_update(s.drop_last(), emitted, c);
    }
}

proof fn lemma_pending_zero(s: Seq<usize>, emitted: Seq<bool>, i: int)
    requires
        pending(s, emitted) == 0,
        0 <= i < s.len(),
    ensures
        emitted[s[i] as int],
    decreases s.len(),
{
    if i < s.len() - 1 {
        lemma_pending_zero(s.drop_last(), emitted, i);
    }
}

proof fn lemma_pending_positive(s: Seq<usize>, emitted: Seq<bool>)
    requires
        pending(s, emitted) > 0,
    ensures
        exists|i: int| 0 <= i < s.len() && !emitted[s[i] as int],
    decreases s.len(),
{
    if emitted[s.last() as int] {
        lemma_pending_positive(s.drop_last(), emitted);
        let i = choose|i: int| 0 <= i < s.drop_last().len() && !emitted[s.drop_last()[i] as int];
        assert(s[i] == s.drop_last()[i]);
    } else {
        assert(!emitted[s[s.len() - 1] as int]);
    }
}

proof fn lemma_count_set_update(flags: Seq<bool>, c: int)
    requires
        0 <= c < flags.len(),
        !flags[c],
    ensures
        count_set(flags.update(c, true)) == count_set(flags) + 1,
    decreases flags.len(),
{
    if c < flags.len() - 1 {
        assert(flags.update(c, true).drop_last() =~= flags.drop_last().update(c, true));
        lemma_count_set_update(flags.drop_last(), c);
    } else {
        assert(flags.update(c, true).drop_last() =~= flags.drop_last());
    }
}

proof fn lemma_count_set_bound(flags: Seq<bool>)
    ensures
        count_set(flags) <= flags.len(),
    decreases flags.len(),
{
    if flags.len() > 0 {
        lemma_count_set_bound(flags.drop_last());
    }
}

/// Whether `edges[i]` lists, in order, the positions of the dependencies of cell `i` that are
/// formula cells of the graph.
pub open spec fn tracks(g: Seq<(CellId, Seq<CellId>)>, edges: Seq<Seq<usize>>) -> bool {
    &&& edges.len() == g.len()
    &&& forall|i: int, k: int| 0 <= i < g.len() && 0 <= k < edges[i].len()
        ==> (#[trigger] edges[i][k]) < g.len() && g[i].1.contains(g[edges[i][k] as int].0)
    &&& forall|i: int, j: int| 0 <= i < g.len() && 0 <= j < g[i].1.len() && is_key(g, #[trigger] g[i].1[j])
        ==> exists|k: int| 0 <= k < edges[i].len() && g[#[trigger] edges[i][k] as int].0 == g[i].1[j]
}

/// Whether `dependents[c]` lists each cell `i` as often as `edges[i]` lists `c`.
pub open spec fn reverses(n: int, edges: Seq<Seq<usize>>, dependents: Seq<Seq<usize>>) -> bool {
    &&& dependents.len() == n
    &&& forall|c: int, k: int| 0 <= c < n && 0 <= k < dependents[c].len() ==> (#[trigger] dependents[c][k]) < n
    &&& forall|c: usize, i: usize| c < n && i < n ==> #[trigger] occurrences(dependents[c as int], i) == #[trigger] occurrences(edges[i as int], c)
}

/// The views of nested vectors.
pub open spec fn nested_view(v: Seq<Vec<usize>>) -> Seq<Seq<usize>> {
    v.map_values(|x: Vec<usize>| x@)
}

/// Resolves every dependency that is itself a formula cell to its position, and records for each
/// cell the cells that read it. `cancelled` is polled once per cell and once per dependency.
fn build_edges<F: Fn() -> bool>(graph: &DependencyGraph, cancelled: &F) -> (r: Result<(Vec<Vec<usize>>, Vec<Vec<usize>>), ()>)
    requires
        call_requires(*cancelled, ()),
    ensures
        r is Err ==> call_ensures(*cancelled, (), true),
        (forall|b: bool| call_ensures(*cancelled, (), b) ==> b) && graph@.len() > 0 ==> r is Err,
        r matches Ok((edges, dependents)) ==> {
            &&& tracks(graph@, nested_view(edges@))
            &&& reverses(graph@.len() as int, nested_view(edges@), nested_view(dependents@))
        },
{
    let ghost g = graph@;
    let n = graph.len();
    let mut dependents: Vec<Vec<usize>> = Vec::new();
    let mut c: usize = 0;
    while c < n
        invariant
            c <= n,
            dependents@.len() == c,
            forall|x: int| 0 <= x < c ==> (#[trigger] dependents@[x])@.len() == 0,
        decreases n - c,
    {
        dependents.push(Vec::new());
        c = c + 1;
    }
    let mut edges: Vec<Vec<usize>> = Vec::new();
    let mut i: usize = 0;
    while i < n
        invariant
            g == graph@,
            n == g.len(),
            i <= n,
            edges@.len() == i,
            dependents@.len() == n,
            call_requires(*cancelled, ()),
            i > 0 ==> !(forall|b: bool| call_ensures(*cancelled, (), b) ==> b),
            forall|x: int, k: int| 0 <= x < i && 0 <= k < edges@[x]@.len()
                ==> (#[trigger] edges@[x]@[k]) < n && g[x].1.contains(g[edges@[x]@[k] as int].0),
            forall|x: int, j: int| 0 <= x < i && 0 <= j < g[x].1.len() && is_key(g, #[trigger] g[x].1[j])
                ==> exists|k: int| 0 <= k < edges@[x]@.len() && g[#[trigger] edges@[x]@[k] as int].0 == g[x].1[j],
            forall|d: int, k: int| 0 <= d < n && 0 <= k < dependents@[d]@.len() ==> (#[trigger] dependents@[d]@[k]) < n,
            forall|d: usize, x: usize| d < n && x < n ==> #[trigger] occurrences(dependents@[d as int]@, x)
                == if x < i { occurrences(edges@[x as int]@, d) } else { 0 },
        decreases n - i,
    {
        if cancelled() {
            return Err(());
        }
        let (_, deps) = graph.entry(i);
        let mut own: Vec<usize> = Vec::new();
        let mut j: usize = 0;
        while j < deps.len()
            invariant
                g == graph@,
                n == g.len(),
                i < n,
                deps@ == g[i as int].1,
                j <= deps@.len(),
                edges@.len() == i,
                dependents@.len() == n,
                call_requires(*cancelled, ()),
                !(forall|b: bool| call_ensures(*cancelled, (), b) ==> b),
                forall|x: int, k: int| 0 <= x < i && 0 <= k < edges@[x]@.len()
                    ==> (#[trigger] edges@[x]@[k]) < n && g[x].1.contains(g[edges@[x]@[k] as int].0),
                forall|x: int, j: int| 0 <= x < i && 0 <= j < g[x].1.len() && is_key(g, #[trigger] g[x].1[j])
                    ==> exists|k: int| 0 <= k < edges@[x]@.len() && g[#[trigger] edges@[x]@[k] as int].0 == g[x].1[j],
                forall|k: int| 0 <= k < own@.len() ==> (#[trigger] own@[k]) < n && g[i as int].1.contains(g[own@[k] as int].0),
                forall|m: int| 0 <= m < j && is_key(g, #[trigger] g[i as int].1[m])
                    ==> exists|k: int| 0 <= k < own@.len() && g[#[trigger] own@[k] as int].0 == g[i as int].1[m],
                forall|d: int, k: int| 0 <= d < n && 0 <= k < dependents@[d]@.len() ==> (#[trigger] dependents@[d]@[k]) < n,
                forall|d: usize, x: usize| d < n && x < n ==> #[trigger] occurrences(dependents@[d as int]@, x)
                    == if x < i { occurrences(edges@[x as int]@, d) } else if x == i { occurrences(own@, d) } else { 0 },
            decreases deps@.len() - j,
        {
            if cancelled() {
                return Err(());
            }
            match graph.search(deps[j]) {
                Ok(p) => {
                    let ghost before_own = own@;
                    let ghost before_dep = dependents@;
                    own.push(p);
                    dependents[p].push(i);
                    proof {
                        assert(own@ =~= before_own.push(p));
                        assert(g[i as int].1[j as int] == g[p as int].0);
                        assert forall|d: usize, x: usize| d < n && x < n implies #[trigger] occurrences(dependents@[d as int]@, x)
                            == if x < i { occurrences(edges@[x as int]@, d) } else if x == i { occurrences(own@, d) } else { 0 } by {
                            lemma_occurrences_push(before_own, p, d);
                            if d == p {
                                assert(dependents@[d as int]@ =~= before_dep[d as int]@.push(i));
                                lemma_occurrences_push(before_dep[d as int]@, i, x);
                            } else {
                                assert(dependents@[d as int] == before_dep[d as int]);
                            }
                        }
                        assert forall|d: int, k: int| 0 <= d < n && 0 <= k < dependents@[d]@.len() implies (#[trigger] dependents@[d]@[k]) < n by {
                            if d == p && k == dependents@[d]@.len() - 1 {
                            } else {
                                assert(dependents@[d]@[k] == before_dep[d]@[k]);
                            }
                        }
                        assert forall|m: int| 0 <= m < j + 1 && is_key(g, #[trigger] g[i as int].1[m])
                            implies exists|k: int| 0 <= k < own@.len() && g[#[trigger] own@[k] as int].0 == g[i as int].1[m] by {
                            if m == j {
                                assert(own@[own@.len() - 1] == p);
                            } else {
                                let k = choose|k: int| 0 <= k < before_own.len() && g[#[trigger] before_own[k] as int].0 == g[i as int].1[m];
                                assert(own@[k] == before_own[k]);
                            }
                        }
                    }
                },
                Err(_) => {},
            }
            j = j + 1;
        }
        let ghost before_edges = edges@;
        let ghost own_view = own@;
        edges.push(own);
        proof {
            assert(forall|x: int| 0 <= x < i ==> edges@[x] == before_edges[x]);
            assert(edges@[i as int]@ == own_view);
            assert forall|x: int, m: int| 0 <= x < i + 1 && 0 <= m < g[x].1.len() && is_key(g, #[trigger] g[x].1[m])
                implies exists|k: int| 0 <= k < edges@[x]@.len() && g[#[trigger] edges@[x]@[k] as int].0 == g[x].1[m] by {
                if x == i {
                    let k = choose|k: int| 0 <= k < own_view.len() && g[#[trigger] own_view[k] as int].0 == g[i as int].1[m];
                    assert(edges@[x]@[k] == own_view[k]);
                } else {
                    assert(edges@[x] == before_edges[x]);
                }
            }
        }
        i = i + 1;
    }
    proof {
        assert(nested_view(edges@).len() == n);
        assert forall|x: int| 0 <= x < n implies nested_view(edges@)[x] == (#[trigger] edges@[x])@ by {}
        assert forall|x: int| 0 <= x < n implies nested_view(dependents@)[x] == (#[trigger] dependents@[x])@ by {}
    }
    Ok((edges, dependents))
}

/// Whether `ready` ascends and holds exactly the unemitted cells with no pending dependency.
pub open spec fn ready_ok(ready: Seq<usize>, indegree: Seq<usize>, emitted: Seq<bool>) -> bool {
    &&& forall|a: int, b: int| 0 <= a < b < ready.len() ==> ready[a] < ready[b]
    &&& forall|k: int| 0 <= k < ready.len() ==> (#[trigger] ready[k]) < emitted.len()
    &&& forall|p: usize| p < emitted.len() ==> (#[trigger] ready.contains(p) <==> (!emitted[p as int] && indegree[p as int] == 0))
}

/// Whether the positions in `order` are distinct cells of a graph with `n` cells.
pub open spec fn distinct_positions(order: Seq<usize>, n: int) -> bool {
    &&& forall|k: int| 0 <= k < order.len() ==> (#[trigger] order[k]) < n
    &&& forall|a: int, b: int| 0 <= a < b < order.len() ==> order[a] != order[b]
}

/// Whether every cell of `order` comes after all its dependencies that are formula cells.
pub open spec fn after_dependencies(order: Seq<usize>, edges: Seq<Seq<usize>>) -> bool {
    forall|k: int, m: int| 0 <= k < order.len() && 0 <= m < edges[order[k] as int].len()
        ==> order.take(k).contains(#[trigger] edges[order[k] as int][m])
}

/// Whether `listed` holds every position of `deps`.
pub open spec fn all_listed(listed: Seq<usize>, deps: Seq<usize>) -> bool {
    forall|m: int| 0 <= m < deps.len() ==> listed.contains(#[trigger] deps[m])
}

/// Whether each position of `order` is the lowest position not listed before it whose
/// dependency positions were all listed before it.
pub open spec fn lowest_positions(order: Seq<usize>, edges: Seq<Seq<usize>>) -> bool {
    forall|k: int, p: int| #![trigger order[k], edges[p]]
        0 <= k < order.len() && 0 <= p < edges.len() && !order.take(k).contains(p as usize)
            && all_listed(order.take(k), edges[p]) ==> order[k] <= p
}

proof fn lemma_pending_all_emitted(s: Seq<usize>, emitted: Seq<bool>)
    requires
        forall|i: int| 0 <= i < s.len() ==> (#[trigger] s[i]) < emitted.len() && emitted[s[i] as int],
    ensures
        pending(s, emitted) == 0,
    decreases s.len(),
{
    if s.len() > 0 {
        lemma_pending_all_emitted(s.drop_last(), emitted);
    }
}

/// The lowest ready position is at most every unlisted position whose dependencies are listed.
proof fn lemma_lowest_choice(
    n: int,
    order: Seq<usize>,
    edges: Seq<Seq<usize>>,
    emitted: Seq<bool>,
    indegree: Seq<usize>,
    ready: Seq<usize>,
    c: usize,
)
    requires
        n <= usize::MAX,
        edges.len() == n,
        emitted.len() == n,
        indegree.len() == n,
        forall|x: int, k: int| 0 <= x < n && 0 <= k < edges[x].len() ==> (#[trigger] edges[x][k]) < n,
        forall|p: usize| p < n ==> (emitted[p as int] <==> #[trigger] order.contains(p)),
        forall|x: int| 0 <= x < n ==> (#[trigger] indegree[x]) == pending(edges[x], emitted),
        ready_ok(ready, indegree, emitted),
        ready.len() > 0,
        c == ready[0],
    ensures
        forall|p: int| #![trigger edges[p]] 0 <= p < n && !order.contains(p as usize)
            && all_listed(order, edges[p]) ==> c <= p,
{
    assert forall|p: int| #![trigger edges[p]] 0 <= p < n && !order.contains(p as usize)
        && all_listed(order, edges[p]) implies c <= p by {
        let pu = p as usize;
        assert(!emitted[p]);
        assert forall|i: int| 0 <= i < edges[p].len() implies (#[trigger] edges[p][i]) < emitted.len()
            && emitted[edges[p][i] as int] by {
            assert(order.contains(edges[p][i]));
        }
        lemma_pending_all_emitted(edges[p], emitted);
        assert(ready.contains(pu));
        let j = choose|j: int| 0 <= j < ready.len() && ready[j] == pu;
        if j > 0 {
            assert(ready[0] < ready[j]);
        }
    }
}

/// Listing a position that is at most every unlisted position with listed dependencies keeps
/// the listing lowest-first.
proof fn lemma_lowest_step(order: Seq<usize>, edges: Seq<Seq<usize>>, c: usize)
    requires
        lowest_positions(order, edges),
        forall|p: int| #![trigger edges[p]] 0 <= p < edges.len() && !order.contains(p as usize)
            && all_listed(order, edges[p]) ==> c <= p,
    ensures
        lowest_positions(order.push(c), edges),
{
    let o2 = order.push(c);
    assert forall|k: int, p: int| #![trigger o2[k], edges[p]]
        0 <= k < o2.len() && 0 <= p < edges.len() && !o2.take(k).contains(p as usize)
            && all_listed(o2.take(k), edges[p]) implies o2[k] <= p by {
        if k < order.len() {
            assert(o2.take(k) =~= order.take(k));
            assert(o2[k] == order[k]);
        } else {
            assert(o2.take(k) =~= order);
            assert(o2[k] == c);
        }
    }
}

/// Inserts `x` into the ascending `ready`, which does not hold it yet.
fn insert_ascending(ready: &mut Vec<usize>, x: usize)
    requires
        forall|a: int, b: int| 0 <= a < b < old(ready)@.len() ==> old(ready)@[a] < old(ready)@[b],
        !old(ready)@.contains(x),
    ensures
        forall|a: int, b: int| 0 <= a < b < final(ready)@.len() ==> final(ready)@[a] < final(ready)@[b],
        forall|y: usize| #[trigger] final(ready)@.contains(y) <==> (old(ready)@.contains(y) || y == x),
        forall|k: int| 0 <= k < final(ready)@.len() ==> (#[trigger] final(ready)@[k]) == x || old(ready)@.contains(final(ready)@[k]),
{
    let ghost before = ready@;
    let mut k: usize = 0;
    while k < ready.len() && ready[k] < x
        invariant
            ready@ == before,
            k <= before.len(),
            forall|a: int| 0 <= a < k ==> before[a] < x,
        decreases before.len() - k,
    {
        k = k + 1;
    }
    ready.insert(k, x);
    proof {
        let after = ready@;
        assert(after =~= before.insert(k as int, x));
        assert forall|a: int| k <= a < before.len() implies before[a] > x by {
            if before[a] == x {
                assert(before.contains(x));
            }
            if a > k {
                assert(before[k as int] < before[a]);
            }
        }
        assert forall|y: usize| #[trigger] after.contains(y) <==> (before.contains(y) || y == x) by {
            if after.contains(y) {
                let i = choose|i: int| 0 <= i < after.len() && after[i] == y;
                if i < k {
                    assert(before[i] == y);
                } else if i > k {
                    assert(before[i - 1] == y);
                }
            }
            if before.contains(y) {
                let i = choose|i: int| 0 <= i < before.len() && before[i] == y;
                if i < k {
                    assert(after[i] == y);
                } else {
                    assert(after[i + 1] == y);
                }
            }
            if y == x {
                assert(after[k as int] == x);
            }
        }
        assert forall|k2: int| 0 <= k2 < after.len() implies (#[trigger] after[k2]) == x || before.contains(after[k2]) by {
            if k2 < k {
                assert(after[k2] == before[k2]);
            } else if k2 > k {
                assert(after[k2] == before[k2 - 1]);
            }
        }
    }
}

proof fn lemma_pending_none(s: Seq<usize>, emitted: Seq<bool>)
    requires
        forall|i: int| 0 <= i < s.len() ==> (#[trigger] s[i]) < emitted.len() && !emitted[s[i] as int],
    ensures
        pending(s, emitted) == s.len(),
    decreases s.len(),
{
    if s.len() > 0 {
        lemma_pending_none(s.drop_last(), emitted);
    }
}

/// Lowers the pending count of every cell that reads the newly emitted `c`, adding the cells that
/// become ready. `cancelled` is polled once per dependent edge.
fn release_dependents<F: Fn() -> bool>(
    n: usize,
    c: usize,
    children: &Vec<usize>,
    edges: &Vec<Vec<usize>>,
    dependents: &Vec<Vec<usize>>,
    emitted: &Vec<bool>,
    indegree: &mut Vec<usize>,
    ready: &mut Vec<usize>,
    cancelled: &F,
) -> (r: Result<(), ()>)
    requires
        c < n,
        dependents@.len() == n,
        children@ == dependents@[c as int]@,
        edges@.len() == n,
        forall|x: int, j: int| 0 <= x < n && 0 <= j < edges@[x]@.len() ==> (#[trigger] edges@[x]@[j]) < n,
        reverses(n as int, nested_view(edges@), nested_view(dependents@)),
        call_requires(*cancelled, ()),
        emitted@.len() == n,
        old(indegree)@.len() == n,
        forall|x: usize| x < n ==> #[trigger] old(indegree)@[x as int]
            == pending(edges@[x as int]@, emitted@) + occurrences(edges@[x as int]@, c),
        forall|p: int| 0 <= p < n && #[trigger] emitted@[p] ==> occurrences(edges@[p]@, c) == 0,
        forall|a: int, b: int| 0 <= a < b < old(ready)@.len() ==> old(ready)@[a] < old(ready)@[b],
        forall|j: int| 0 <= j < old(ready)@.len() ==> (#[trigger] old(ready)@[j]) < n,
        forall|p: usize| p < n ==> (#[trigger] old(ready)@.contains(p) <==> (!emitted@[p as int] && old(indegree)@[p as int] == 0)),
    ensures
        r is Err ==> call_ensures(*cancelled, (), true),
        r is Ok ==> {
            &&& final(indegree)@.len() == n
            &&& forall|x: int| 0 <= x < n ==> #[trigger] final(indegree)@[x] == pending(edges@[x]@, emitted@)
            &&& ready_ok(final(ready)@, final(indegree)@, emitted@)
            &&& forall|j: int| 0 <= j < final(ready)@.len() ==> (#[trigger] final(ready)@[j]) < n
        },
{
    let ghost ev = nested_view(edges@);
    let ghost dv = nested_view(dependents@);
    let ghost em_new = emitted@;
    proof {
        assert forall|i: int| 0 <= i < n implies #[trigger] ev[i] == edges@[i]@ by {}
        assert forall|i: int| 0 <= i < n implies #[trigger] dv[i] == dependents@[i]@ by {}
        assert(children@.take(0) =~= Seq::<usize>::empty());
    }
        let mut k: usize = 0;
    while k < children.len()
        invariant
            c < n,
            children@ == dv[c as int],
            k <= children@.len(),
            edges@.len() == n,
            forall|x: int, j: int| 0 <= x < n && 0 <= j < edges@[x]@.len() ==> (#[trigger] edges@[x]@[j]) < n,
            reverses(n as int, ev, dv),
            call_requires(*cancelled, ()),
            emitted@ == em_new,
            em_new.len() == n,
            indegree@.len() == n,
            forall|x: usize| x < n ==> #[trigger] indegree@[x as int] + occurrences(children@.take(k as int), x)
                == pending(ev[x as int], em_new) + occurrences(ev[x as int], c),
            forall|p: int| 0 <= p < n && #[trigger] em_new[p] ==> occurrences(ev[p], c) == 0,
            forall|a: int, b: int| 0 <= a < b < ready@.len() ==> ready@[a] < ready@[b],
            forall|j: int| 0 <= j < ready@.len() ==> (#[trigger] ready@[j]) < n,
            forall|p: usize| p < n ==> (#[trigger] ready@.contains(p) <==> (!em_new[p as int] && indegree@[p as int] == 0)),
        decreases children@.len() - k,
    {
        if cancelled() {
            return Err(());
        }
        let child = children[k];
        proof {
            assert(child < n);
            lemma_occurrences_take(children@, k as int, child);
            lemma_occurrences_prefix(children@, k as int + 1, child);
            lemma_occurrences_of_member(children@, k as int);
            assert(occurrences(dv[c as int], child) == occurrences(ev[child as int], c));
            assert(!em_new[child as int]);
        }
        let ghost indegree_before = indegree@;
        let degree = indegree[child] - 1;
        indegree.set(child, degree);
        proof {
            assert forall|x: usize| x < n implies #[trigger] indegree@[x as int] + occurrences(children@.take(k as int + 1), x)
                == pending(ev[x as int], em_new) + occurrences(ev[x as int], c) by {
                lemma_occurrences_take(children@, k as int, x);
            }
        }
        if degree == 0 {
            proof {
                assert(!ready@.contains(child));
            }
            let ghost ready_mid = ready@;
            insert_ascending(ready, child);
            proof {
                assert forall|j: int| 0 <= j < ready@.len() implies (#[trigger] ready@[j]) < n by {
                    if ready@[j] != child {
                        let i2 = choose|i2: int| 0 <= i2 < ready_mid.len() && ready_mid[i2] == ready@[j];
                    }
                }
            }
        }
        k = k + 1;
    }
    proof {
        assert(children@.take(children@.len() as int) =~= children@);
        assert forall|x: int| 0 <= x < n implies #[trigger] indegree@[x] == pending(edges@[x]@, emitted@) by {
            let xu = x as usize;
            assert(occurrences(dv[c as int], xu) == occurrences(ev[x], c));
        }
    }
    Ok(())
}

/// Emits cells in dependency order, always taking the lowest ready cell next, and reports which
/// cells were emitted. `cancelled` is polled once per cell while seeding, once per emitted cell and
/// once per dependent edge.
fn emit_order<F: Fn() -> bool>(
    n: usize,
    edges: &Vec<Vec<usize>>,
    dependents: &Vec<Vec<usize>>,
    cancelled: &F,
) -> (r: Result<(Vec<usize>, Vec<bool>, Vec<usize>), ()>)
    requires
        call_requires(*cancelled, ()),
        edges@.len() == n,
        forall|i: int, k: int| 0 <= i < n && 0 <= k < edges@[i]@.len() ==> (#[trigger] edges@[i]@[k]) < n,
        reverses(n as int, nested_view(edges@), nested_view(dependents@)),
    ensures
        r is Err ==> call_ensures(*cancelled, (), true),
        r matches Ok((order, emitted, indegree)) ==> {
            &&& emitted@.len() == n
            &&& indegree@.len() == n
            &&& distinct_positions(order@, n as int)
            &&& forall|p: usize| p < n ==> (emitted@[p as int] <==> #[trigger] order@.contains(p))
            &&& after_dependencies(order@, nested_view(edges@))
            &&& lowest_positions(order@, nested_view(edges@))
            &&& forall|p: int| 0 <= p < n ==> (#[trigger] indegree@[p] > 0 <==> !emitted@[p])
            &&& forall|p: int| 0 <= p < n && !emitted@[p] ==> exists|m: int|
                0 <= m < edges@[p]@.len() && !emitted@[#[trigger] edges@[p]@[m] as int]
        },
{
    let ghost ev = nested_view(edges@);
    let ghost dv = nested_view(dependents@);
    proof {
        assert forall|i: int| 0 <= i < n implies #[trigger] ev[i] == edges@[i]@ by {}
        assert forall|i: int| 0 <= i < n implies #[trigger] dv[i] == dependents@[i]@ by {}
    }
    let mut emitted: Vec<bool> = Vec::new();
    let mut indegree: Vec<usize> = Vec::new();
    let mut i: usize = 0;
    while i < n
        invariant
            i <= n,
            edges@.len() == n,
            emitted@.len() == i,
            indegree@.len() == i,
            forall|x: int| 0 <= x < i ==> !(#[trigger] emitted@[x]),
            forall|x: int| 0 <= x < i ==> (#[trigger] indegree@[x]) == edges@[x]@.len(),
        decreases n - i,
    {
        emitted.push(false);
        indegree.push(edges[i].len());
        i = i + 1;
    }
    proof {
        assert forall|x: int| 0 <= x < n implies (#[trigger] indegree@[x]) == pending(ev[x], emitted@) by {
            lemma_pending_none(ev[x], emitted@);
        }
    }
    let mut ready: Vec<usize> = Vec::new();
    let mut i: usize = 0;
    while i < n
        invariant
            i <= n,
            emitted@.len() == n,
            indegree@.len() == n,
            call_requires(*cancelled, ()),
            forall|x: int| 0 <= x < n ==> !(#[trigger] emitted@[x]),
            forall|a: int, b: int| 0 <= a < b < ready@.len() ==> ready@[a] < ready@[b],
            forall|k: int| 0 <= k < ready@.len() ==> (#[trigger] ready@[k]) < i,
            forall|p: usize| p < n ==> (#[trigger] ready@.contains(p) <==> (p < i && indegree@[p as int] == 0)),
        decreases n - i,
    {
        if cancelled() {
            return Err(());
        }
        if indegree[i] == 0 {
            let ghost before = ready@;
            ready.push(i);
            proof {
                assert forall|p: usize| p < n implies (#[trigger] ready@.contains(p) <==> (p < i + 1 && indegree@[p as int] == 0)) by {
                    assert(ready@ == before.push(i));
                    if ready@.contains(p) && p != i {
                        let k = choose|k: int| 0 <= k < ready@.len() && ready@[k] == p;
                        assert(k < before.len());
                        assert(before[k] == p);
                        assert(before.contains(p));
                    }
                    if p < i && indegree@[p as int] == 0 {
                        assert(before.contains(p));
                        let k = choose|k: int| 0 <= k < before.len() && before[k] == p;
                        assert(ready@[k] == p);
                    }
                    if p == i {
                        assert(ready@[ready@.len() - 1] == p);
                    }
                }
            }
        } else {
            proof {
                assert forall|p: usize| p < n implies (#[trigger] ready@.contains(p) <==> (p < i + 1 && indegree@[p as int] == 0)) by {
                    if ready@.contains(p) {
                        let k = choose|k: int| 0 <= k < ready@.len() && ready@[k] == p;
                    }
                }
            }
        }
        i = i + 1;
    }
    let mut order: Vec<usize> = Vec::new();
    proof {
        assert(count_set(emitted@) == 0) by {
            lemma_count_set_zero(emitted@);
        }
    }
    while ready.len() > 0
        invariant
            edges@.len() == n,
            ev == nested_view(edges@),
            dv == nested_view(dependents@),
            forall|x: int| 0 <= x < n ==> #[trigger] ev[x] == edges@[x]@,
            forall|x: int| 0 <= x < n ==> #[trigger] dv[x] == dependents@[x]@,
            forall|x: int, k: int| 0 <= x < n && 0 <= k < edges@[x]@.len() ==> (#[trigger] edges@[x]@[k]) < n,
            reverses(n as int, ev, dv),
            call_requires(*cancelled, ()),
            emitted@.len() == n,
            indegree@.len() == n,
            forall|x: int| 0 <= x < n ==> (#[trigger] indegree@[x]) == pending(ev[x], emitted@),
            ready_ok(ready@, indegree@, emitted@),
            distinct_positions(order@, n as int),
            forall|p: usize| p < n ==> (emitted@[p as int] <==> #[trigger] order@.contains(p)),
            order@.len() == count_set(emitted@),
            forall|p: int| 0 <= p < n && #[trigger] emitted@[p] ==> pending(ev[p], emitted@) == 0,
            after_dependencies(order@, ev),
            lowest_positions(order@, ev),
        decreases n - order@.len(),
    {
        proof {
            lemma_count_set_bound(emitted@);
        }
        let ghost ready_before = ready@;
        let c = ready.remove(0);
        proof {
            assert(ready_before.contains(c));
            assert forall|p: usize| p < n implies (#[trigger] ready@.contains(p) <==> (ready_before.contains(p) && p != c)) by {
                if ready@.contains(p) {
                    let k = choose|k: int| 0 <= k < ready@.len() && ready@[k] == p;
                    assert(ready_before[k + 1] == p);
                    assert(ready_before[0] < ready_before[k + 1]);
                }
                if ready_before.contains(p) && p != c {
                    let k = choose|k: int| 0 <= k < ready_before.len() && ready_before[k] == p;
                    assert(k != 0);
                    assert(ready@[k - 1] == p);
                }
            }
        }
        if cancelled() {
            return Err(());
        }
        let ghost em_old = emitted@;
        let ghost order_old = order@;
        proof {
            assert(!em_old[c as int] && indegree@[c as int] == 0);
            lemma_count_set_update(em_old, c as int);
            assert forall|m: int| 0 <= m < ev[c as int].len() implies order_old.contains(#[trigger] ev[c as int][m]) by {
                lemma_pending_zero(ev[c as int], em_old, m);
            }
        }
        proof {
            lemma_lowest_choice(n as int, order_old, ev, em_old, indegree@, ready_before, c);
        }
        order.push(c);
        emitted.set(c, true);
        proof {
            lemma_lowest_step(order_old, ev, c);
        }
        let ghost em_new = emitted@;
        proof {
            assert(em_new =~= em_old.update(c as int, true));
            lemma_count_set_bound(em_new);
            assert forall|p: usize| p < n implies (em_new[p as int] <==> #[trigger] order@.contains(p)) by {
                assert(em_old[p as int] <==> order_old.contains(p));
                if order@.contains(p) && p != c {
                    let k = choose|k: int| 0 <= k < order@.len() && order@[k] == p;
                    assert(order_old[k] == p);
                }
                if em_new[p as int] && p != c {
                    assert(order_old.contains(p));
                    let k = choose|k: int| 0 <= k < order_old.len() && order_old[k] == p;
                    assert(order@[k] == p);
                }
                if p == c {
                    assert(order@[order@.len() - 1] == c);
                }
            }
            assert forall|a: int, b: int| 0 <= a < b < order@.len() implies order@[a] != order@[b] by {
                if b == order@.len() - 1 {
                    assert(order_old.contains(order@[a]));
                }
            }
            assert forall|k: int, m: int| 0 <= k < order@.len() && 0 <= m < ev[order@[k] as int].len()
                implies order@.take(k).contains(#[trigger] ev[order@[k] as int][m]) by {
                if k < order_old.len() {
                    assert(order@.take(k) =~= order_old.take(k));
                } else {
                    assert(order@.take(k) =~= order_old);
                }
            }
            assert forall|x: int| 0 <= x < n implies #[trigger] pending(ev[x], em_new) + occurrences(ev[x], c) == pending(ev[x], em_old) by {
                lemma_pending_update(ev[x], em_old, c);
            }
            assert forall|p: int| 0 <= p < n && #[trigger] em_new[p] implies occurrences(ev[p], c) == 0 by {
                assert(pending(ev[p], em_new) + occurrences(ev[p], c) == pending(ev[p], em_old));
            }
        }
        proof {
            assert forall|x: usize| x < n implies #[trigger] indegree@[x as int]
                == pending(edges@[x as int]@, emitted@) + occurrences(edges@[x as int]@, c) by {
                assert(pending(ev[x as int], em_new) + occurrences(ev[x as int], c) == pending(ev[x as int], em_old));
            }
            assert forall|p: int| 0 <= p < n && #[trigger] emitted@[p] implies occurrences(edges@[p]@, c) == 0 by {
                assert(pending(ev[p], em_new) + occurrences(ev[p], c) == pending(ev[p], em_old));
                if p != c {
                    assert(em_old[p]);
                }
            }
            assert forall|p: usize| p < n implies (#[trigger] ready@.contains(p) <==> (!emitted@[p as int] && indegree@[p as int] == 0)) by {
                assert(ready_before.contains(p) <==> (!em_old[p as int] && indegree@[p as int] == 0));
            }
            assert forall|j: int| 0 <= j < ready@.len() implies (#[trigger] ready@[j]) < n by {
                assert(ready@[j] == ready_before[j + 1]);
            }
        }
        let children = &dependents[c];
        if release_dependents(n, c, children, edges, dependents, &emitted, &mut indegree, &mut ready, cancelled).is_err() {
            return Err(());
        }
        proof {
            assert forall|p: int| 0 <= p < n && #[trigger] emitted@[p] implies pending(ev[p], emitted@) == 0 by {
                assert(pending(ev[p], em_new) + occurrences(ev[p], c) == pending(ev[p], em_old));
                if p != c {
                    assert(em_old[p]);
                }
            }
        }
    }
    proof {
        assert forall|p: int| 0 <= p < n implies (#[trigger] indegree@[p] > 0 <==> !emitted@[p]) by {
            if !emitted@[p] && indegree@[p] == 0 {
                assert(ready@.contains(p as usize));
            }
        }
        assert forall|p: int| 0 <= p < n && !emitted@[p] implies exists|m: int|
            0 <= m < edges@[p]@.len() && !emitted@[#[trigger] edges@[p]@[m] as int] by {
            if indegree@[p] == 0 {
                assert(ready@.contains(p as usize));
            }
            lemma_pending_positive(ev[p], emitted@);
        }
    }
    Ok((order, emitted, indegree))
}

proof fn lemma_count_set_zero(flags: Seq<bool>)
    requires
        forall|x: int| 0 <= x < flags.len() ==> !(#[trigger] flags[x]),
    ensures
        count_set(flags) == 0,
    decreases flags.len(),
{
    if flags.len() > 0 {
        lemma_count_set_zero(flags.drop_last());
    }
}

/// Whether `w` is a walk of positions along `edges`, each position listing the next.
pub open spec fn is_walk(edges: Seq<Seq<usize>>, w: Seq<int>) -> bool {
    &&& w.len() >= 1
    &&& forall|t: int| 0 <= t < w.len() ==> 0 <= #[trigger] w[t] < edges.len()
    &&& forall|t: int| 0 <= t < w.len() - 1 ==> edges[#[trigger] w[t]].contains(w[t + 1] as usize)
}

/// Whether a walk of at least one step leads along `edges` from `x` to `v`.
pub open spec fn walk_reaches(edges: Seq<Seq<usize>>, x: int, v: int) -> bool {
    exists|w: Seq<int>| #[trigger] is_walk(edges, w) && w.len() >= 2 && w[0] == x && w.last() == v
}

proof fn lemma_walk_extend(edges: Seq<Seq<usize>>, w: Seq<int>, s: usize)
    requires
        is_walk(edges, w),
        s < edges.len(),
        edges[w.last()].contains(s),
    ensures
        is_walk(edges, w.push(s as int)),
{
    let w2 = w.push(s as int);
    assert forall|t: int| 0 <= t < w2.len() implies 0 <= #[trigger] w2[t] < edges.len() by {
        if t < w.len() {
            assert(w2[t] == w[t]);
        }
    }
    assert forall|t: int| 0 <= t < w2.len() - 1 implies edges[#[trigger] w2[t]].contains(w2[t + 1] as usize) by {
        assert(w2[t] == w[t]);
        if t < w.len() - 1 {
            assert(w2[t + 1] == w[t + 1]);
        }
    }
}

proof fn lemma_closed_walk(edges: Seq<Seq<usize>>, visited: Seq<bool>, w: Seq<int>, t: int)
    requires
        is_walk(edges, w),
        visited.len() == edges.len(),
        edges.len() <= usize::MAX,
        1 <= t < w.len(),
        visited[w[1]],
        forall|v: int, m: int| 0 <= v < edges.len() && visited[v] && 0 <= m < edges[v].len()
            ==> visited[#[trigger] edges[v][m] as int],
    ensures
        visited[w[t]],
    decreases t,
{
    if t > 1 {
        lemma_closed_walk(edges, visited, w, t - 1);
        let a = w[t - 1];
        assert(0 <= w[t] < edges.len());
        assert(0 <= a < edges.len());
        assert(edges[a].contains(w[t] as usize));
        let m = choose|m: int| 0 <= m < edges[a].len() && edges[a][m] == w[t] as usize;
        assert(visited[edges[a][m] as int]);
    }
}

/// Whether a walk of at least one dependency edge leads from position `x` back to `x`.
/// `cancelled` is polled once per visited stack entry and once per followed edge.
fn returns_to<F: Fn() -> bool>(n: usize, edges: &Vec<Vec<usize>>, x: usize, cancelled: &F) -> (r: Result<bool, ()>)
    requires
        call_requires(*cancelled, ()),
        x < n,
        edges@.len() == n,
        forall|i: int, k: int| 0 <= i < n && 0 <= k < edges@[i]@.len() ==> (#[trigger] edges@[i]@[k]) < n,
    ensures
        r is Err ==> call_ensures(*cancelled, (), true),
        r matches Ok(b) ==> b == walk_reaches(nested_view(edges@), x as int, x as int),
{
    let ghost ev = nested_view(edges@);
    proof {
        assert forall|i: int| 0 <= i < n implies #[trigger] ev[i] == edges@[i]@ by {}
    }
    let mut visited: Vec<bool> = Vec::new();
    let mut expanded: Vec<bool> = Vec::new();
    let mut i: usize = 0;
    while i < n
        invariant
            i <= n,
            visited@.len() == i,
            expanded@.len() == i,
            forall|v: int| 0 <= v < i ==> !(#[trigger] visited@[v]),
            forall|v: int| 0 <= v < i ==> !(#[trigger] expanded@[v]),
        decreases n - i,
    {
        visited.push(false);
        expanded.push(false);
        i = i + 1;
    }
    proof {
        lemma_count_set_zero(visited@);
    }
    let mut visited_count: usize = 0;
    let mut stack: Vec<usize> = Vec::new();
    let first = &edges[x];
    let mut k: usize = 0;
    while k < first.len()
        invariant
            x < n,
            edges@.len() == n,
            ev == nested_view(edges@),
            forall|i2: int| 0 <= i2 < n ==> #[trigger] ev[i2] == edges@[i2]@,
            forall|i2: int, k2: int| 0 <= i2 < n && 0 <= k2 < edges@[i2]@.len() ==> (#[trigger] edges@[i2]@[k2]) < n,
            first@ == ev[x as int],
            k <= first@.len(),
            visited@.len() == n,
            expanded@.len() == n,
            visited_count == count_set(visited@),
            forall|v: int| 0 <= v < n ==> !(#[trigger] expanded@[v]),
            forall|v: int| 0 <= v < n && #[trigger] visited@[v] ==> walk_reaches(ev, x as int, v),
            forall|v: int| 0 <= v < n && #[trigger] visited@[v] ==> stack@.contains(v as usize),
            forall|j: int| 0 <= j < stack@.len() ==> (#[trigger] stack@[j]) < n && visited@[stack@[j] as int],
            forall|m: int| 0 <= m < k ==> visited@[#[trigger] first@[m] as int],
        decreases first@.len() - k,
    {
        let s = first[k];
        proof {
            assert(edges@[x as int]@[k as int] == s);
        }
        if !visited[s] {
            let ghost stack_before = stack@;
            proof {
                lemma_count_set_update(visited@, s as int);
                lemma_count_set_bound(visited@.update(s as int, true));
                let w = seq![x as int, s as int];
                assert(ev[x as int][k as int] == s);
                assert(is_walk(ev, w));
            }
            visited.set(s, true);
            visited_count = visited_count + 1;
            stack.push(s);
            proof {
                assert forall|v: int| 0 <= v < n && #[trigger] visited@[v] implies stack@.contains(v as usize) by {
                    if v != s as int {
                        let j = choose|j: int| 0 <= j < stack_before.len() && stack_before[j] == v as usize;
                        assert(stack@[j] == v as usize);
                    } else {
                        assert(stack@[stack@.len() - 1] == s);
                    }
                }
                assert forall|v: int| 0 <= v < n && #[trigger] visited@[v] implies walk_reaches(ev, x as int, v) by {
                    if v == s as int {
                        let w = seq![x as int, s as int];
                        assert(is_walk(ev, w) && w.len() >= 2 && w[0] == x as int && w.last() == v);
                    }
                }
            }
        }
        k = k + 1;
    }
    while stack.len() > 0
        invariant
            x < n,
            edges@.len() == n,
            ev == nested_view(edges@),
            forall|i2: int| 0 <= i2 < n ==> #[trigger] ev[i2] == edges@[i2]@,
            forall|i2: int, k2: int| 0 <= i2 < n && 0 <= k2 < edges@[i2]@.len() ==> (#[trigger] edges@[i2]@[k2]) < n,
            visited@.len() == n,
            expanded@.len() == n,
            visited_count == count_set(visited@),
            call_requires(*cancelled, ()),
            forall|v: int| 0 <= v < n && #[trigger] visited@[v] ==> walk_reaches(ev, x as int, v),
            forall|v: int| 0 <= v < n && #[trigger] expanded@[v] ==> visited@[v],
            forall|v: int, m: int| 0 <= v < n && expanded@[v] && 0 <= m < ev[v].len()
                ==> visited@[#[trigger] ev[v][m] as int],
            forall|v: int| 0 <= v < n && #[trigger] visited@[v] && !expanded@[v] ==> stack@.contains(v as usize),
            forall|j: int| 0 <= j < stack@.len() ==> (#[trigger] stack@[j]) < n && visited@[stack@[j] as int],
            forall|m: int| 0 <= m < ev[x as int].len() ==> visited@[#[trigger] ev[x as int][m] as int],
        decreases n - visited_count, stack@.len(),
    {
        proof {
            lemma_count_set_bound(visited@);
        }
        let ghost stack_full = stack@;
        let c = stack.pop().unwrap();
        proof {
            assert(stack_full =~= stack@.push(c));
            assert forall|v: int| 0 <= v < n && #[trigger] visited@[v] && !expanded@[v] && v != c as int
                implies stack@.contains(v as usize) by {
                let j = choose|j: int| 0 <= j < stack_full.len() && stack_full[j] == v as usize;
                assert(j < stack@.len());
                assert(stack@[j] == v as usize);
            }
        }
        if cancelled() {
            return Err(());
        }
        let ghost count_before = visited_count;
        let ghost stack_after_pop = stack@.len();
        let next = &edges[c];
        let mut k: usize = 0;
        while k < next.len()
            invariant
                x < n,
                c < n,
                edges@.len() == n,
                ev == nested_view(edges@),
                forall|i2: int| 0 <= i2 < n ==> #[trigger] ev[i2] == edges@[i2]@,
                forall|i2: int, k2: int| 0 <= i2 < n && 0 <= k2 < edges@[i2]@.len() ==> (#[trigger] edges@[i2]@[k2]) < n,
                next@ == ev[c as int],
                k <= next@.len(),
                visited@.len() == n,
                expanded@.len() == n,
                visited_count == count_set(visited@),
                count_before <= visited_count <= n,
                stack@.len() <= stack_after_pop + (visited_count - count_before),
                call_requires(*cancelled, ()),
                visited@[c as int],
                forall|v: int| 0 <= v < n && #[trigger] visited@[v] ==> walk_reaches(ev, x as int, v),
                forall|v: int| 0 <= v < n && #[trigger] expanded@[v] ==> visited@[v],
                forall|v: int, m: int| 0 <= v < n && expanded@[v] && 0 <= m < ev[v].len()
                    ==> visited@[#[trigger] ev[v][m] as int],
                forall|v: int| 0 <= v < n && #[trigger] visited@[v] && !expanded@[v] && v != c as int
                    ==> stack@.contains(v as usize),
                forall|j: int| 0 <= j < stack@.len() ==> (#[trigger] stack@[j]) < n && visited@[stack@[j] as int],
                forall|m: int| 0 <= m < ev[x as int].len() ==> visited@[#[trigger] ev[x as int][m] as int],
                forall|m: int| 0 <= m < k ==> visited@[#[trigger] next@[m] as int],
            decreases next@.len() - k,
        {
            if cancelled() {
                return Err(());
            }
            let s = next[k];
            proof {
                assert(edges@[c as int]@[k as int] == s);
            }
            if !visited[s] {
                let ghost stack_before = stack@;
                proof {
                    lemma_count_set_update(visited@, s as int);
                    lemma_count_set_bound(visited@.update(s as int, true));
                    let w = choose|w: Seq<int>| #[trigger] is_walk(ev, w) && w.len() >= 2 && w[0] == x as int && w.last() == c as int;
                    assert(ev[c as int][k as int] == s);
                    lemma_walk_extend(ev, w, s);
                    let w2 = w.push(s as int);
                    assert(is_walk(ev, w2) && w2.len() >= 2 && w2[0] == x as int && w2.last() == s as int);
                }
                visited.set(s, true);
                visited_count = visited_count + 1;
                stack.push(s);
                proof {
                    assert forall|v: int| 0 <= v < n && #[trigger] visited@[v] && !expanded@[v] && v != c as int
                        implies stack@.contains(v as usize) by {
                        if v != s as int {
                            let j = choose|j: int| 0 <= j < stack_before.len() && stack_before[j] == v as usize;
                            assert(stack@[j] == v as usize);
                        } else {
                            assert(stack@[stack@.len() - 1] == s);
                        }
                    }
                }
            }
            k = k + 1;
        }
        expanded.set(c, true);
        proof {
            assert forall|v: int, m: int| 0 <= v < n && expanded@[v] && 0 <= m < ev[v].len()
                implies visited@[#[trigger] ev[v][m] as int] by {
                if v == c as int {
                    assert(next@[m] == ev[v][m]);
                }
            }
        }
    }
    proof {
        if walk_reaches(ev, x as int, x as int) {
            let w = choose|w: Seq<int>| #[trigger] is_walk(ev, w) && w.len() >= 2 && w[0] == x as int && w.last() == x as int;
            assert(ev[w[0]].contains(w[1] as usize));
            let m = choose|m: int| 0 <= m < ev[x as int].len() && ev[x as int][m] == w[1] as usize;
            assert(visited@[ev[x as int][m] as int]);
            assert forall|v: int, m2: int| 0 <= v < n && visited@[v] && 0 <= m2 < ev[v].len()
                implies visited@[#[trigger] ev[v][m2] as int] by {
                if !expanded@[v] {
                    assert(stack@.contains(v as usize));
                }
            }
            lemma_closed_walk(ev, visited@, w, w.len() - 1);
        }
    }
    Ok(visited[x])
}

/// Marks the unresolved cells from which a walk of at least one dependency edge leads back to the
/// cell itself: the cells on a dependency cycle, of two or more cells or of a cell reading itself.
/// `cancelled` is polled once per unresolved cell and throughout each walk.
fn cycle_members<F: Fn() -> bool>(
    n: usize,
    edges: &Vec<Vec<usize>>,
    unresolved: &Vec<bool>,
    cancelled: &F,
) -> (r: Result<Vec<bool>, ()>)
    requires
        call_requires(*cancelled, ()),
        unresolved@.len() == n,
        edges@.len() == n,
        forall|i: int, k: int| 0 <= i < n && 0 <= k < edges@[i]@.len() ==> (#[trigger] edges@[i]@[k]) < n,
    ensures
        r is Err ==> call_ensures(*cancelled, (), true),
        r matches Ok(members) ==> {
            &&& members@.len() == n
            &&& forall|p: int| 0 <= p < n ==> #[trigger] members@[p]
                == (unresolved@[p] && walk_reaches(nested_view(edges@), p, p))
        },
{
    let mut members: Vec<bool> = Vec::new();
    let mut p: usize = 0;
    while p < n
        invariant
            p <= n,
            unresolved@.len() == n,
            edges@.len() == n,
            forall|i: int, k: int| 0 <= i < n && 0 <= k < edges@[i]@.len() ==> (#[trigger] edges@[i]@[k]) < n,
            call_requires(*cancelled, ()),
            members@.len() == p,
            forall|q: int| 0 <= q < p ==> #[trigger] members@[q]
                == (unresolved@[q] && walk_reaches(nested_view(edges@), q, q)),
        decreases n - p,
    {
        if unresolved[p] {
            if cancelled() {
                return Err(());
            }
            let on_cycle = match returns_to(n, edges, p, cancelled) {
                Ok(b) => b,
                Err(()) => return Err(()),
            };
            members.push(on_cycle);
        } else {
            members.push(false);
        }
        p = p + 1;
    }
    Ok(members)
}

/// Walks along resolved dependency positions are exactly chains of formula cells.
proof fn lemma_walks_are_chains(g: Seq<(CellId, Seq<CellId>)>, edges: Seq<Seq<usize>>, w: Seq<int>)
    requires
        keys_ascending(g),
        tracks(g, edges),
        g.len() <= usize::MAX,
    ensures
        is_walk(edges, w) <==> is_chain(g, w),
{
    if is_walk(edges, w) {
        assert forall|t: int| 0 <= t < w.len() - 1 implies reads(g, #[trigger] w[t], w[t + 1]) by {
            let a = w[t];
            assert(0 <= w[t + 1] < g.len());
            assert(edges[a].contains(w[t + 1] as usize));
            let k = choose|k: int| 0 <= k < edges[a].len() && edges[a][k] == w[t + 1] as usize;
            assert(g[a].1.contains(g[edges[a][k] as int].0));
        }
    }
    if is_chain(g, w) {
        assert forall|t: int| 0 <= t < w.len() - 1 implies edges[#[trigger] w[t]].contains(w[t + 1] as usize) by {
            let a = w[t];
            let b = w[t + 1];
            assert(reads(g, a, b));
            let j = choose|j: int| 0 <= j < g[a].1.len() && g[a].1[j] == g[b].0;
            assert(is_key(g, g[a].1[j]));
            let k = choose|k: int| 0 <= k < edges[a].len() && g[#[trigger] edges[a][k] as int].0 == g[a].1[j];
            lemma_keys_unique(g, edges[a][k] as int, b);
            assert(edges[a][k] == b as usize);
        }
    }
}

/// The cycle flags mark exactly the unscheduled cells on a dependency cycle.
proof fn lemma_cycle_flags(
    g: Seq<(CellId, Seq<CellId>)>,
    ev: Seq<Seq<usize>>,
    ord: Seq<CellId>,
    emitted: Seq<bool>,
    unresolved: Seq<bool>,
    flags: Seq<bool>,
)
    requires
        keys_ascending(g),
        tracks(g, ev),
        g.len() <= usize::MAX,
        emitted.len() == g.len(),
        unresolved.len() == g.len(),
        flags.len() == g.len(),
        forall|p: int| 0 <= p < g.len() ==> #[trigger] unresolved[p] == !emitted[p],
        forall|p: int| 0 <= p < g.len() ==> (#[trigger] emitted[p] <==> ord.contains(g[p].0)),
        forall|p: int| 0 <= p < g.len() ==> #[trigger] flags[p] == (unresolved[p] && walk_reaches(ev, p, p)),
    ensures
        flags =~= Seq::new(g.len(), |i: int| !ord.contains(g[i].0) && on_cycle(g, i)),
{
    assert forall|i: int| 0 <= i < g.len() implies #[trigger] flags[i] == (!ord.contains(g[i].0) && on_cycle(g, i)) by {
        assert(unresolved[i] == !emitted[i]);
        assert(emitted[i] <==> ord.contains(g[i].0));
        if walk_reaches(ev, i, i) {
            let w = choose|w: Seq<int>| #[trigger] is_walk(ev, w) && w.len() >= 2 && w[0] == i && w.last() == i;
            lemma_walks_are_chains(g, ev, w);
        }
        if on_cycle(g, i) {
            let w = choose|w: Seq<int>| #[trigger] is_chain(g, w) && w.len() >= 2 && w[0] == i && w.last() == i;
            lemma_walks_are_chains(g, ev, w);
        }
    }
}

/// Whether the formula cell at index `i` lies on a dependency cycle: some chain of at least one
/// read leads from it back to itself (a cycle of two or more cells, or a cell reading itself).
pub open spec fn on_cycle(g: Seq<(CellId, Seq<CellId>)>, i: int) -> bool {
    exists|w: Seq<int>| #[trigger] is_chain(g, w) && w.len() >= 2 && w[0] == i && w.last() == i
}

/// The cells of `g` whose flag is set, in ascending order.
pub open spec fn select(g: Seq<(CellId, Seq<CellId>)>, flags: Seq<bool>) -> Seq<CellId>
    decreases g.len(),
{
    if g.len() == 0 {
        Seq::empty()
    } else {
        let rest = select(g.drop_last(), flags);
        if flags[g.len() - 1] { rest.push(g.last().0) } else { rest }
    }
}

/// Whether `order` lists distinct formula cells, each after every one of its dependencies that is a
/// formula cell.
pub open spec fn in_dependency_order(g: Seq<(CellId, Seq<CellId>)>, order: Seq<CellId>) -> bool {
    &&& forall|k: int| 0 <= k < order.len() ==> is_key(g, #[trigger] order[k])
    &&& forall|a: int, b: int| 0 <= a < b < order.len() ==> order[a] != order[b]
    &&& forall|k: int, i: int, j: int| #![trigger order[k], g[i].1[j]]
        0 <= k < order.len() && 0 <= i < g.len() && g[i].0 == order[k] && 0 <= j < g[i].1.len()
            && is_key(g, g[i].1[j]) ==> order.take(k).contains(g[i].1[j])
}

/// Whether `listed` holds every dependency of the cell at index `i` that is a formula cell.
pub open spec fn key_deps_listed(g: Seq<(CellId, Seq<CellId>)>, listed: Seq<CellId>, i: int) -> bool {
    forall|j: int| 0 <= j < g[i].1.len() && is_key(g, #[trigger] g[i].1[j]) ==> listed.contains(g[i].1[j])
}

/// Whether each cell of `order` is the lowest formula cell not listed before it whose formula-cell
/// dependencies were all listed before it.
pub open spec fn lowest_first(g: Seq<(CellId, Seq<CellId>)>, order: Seq<CellId>) -> bool {
    forall|k: int, i: int| #![trigger order[k], g[i]]
        0 <= k < order.len() && 0 <= i < g.len() && !order.take(k).contains(g[i].0)
            && key_deps_listed(g, order.take(k), i) ==> !cell_id_lt(g[i].0, order[k])
}

/// A lowest-first listing of positions lists the cells lowest-first.
proof fn lemma_lowest_first(g: Seq<(CellId, Seq<CellId>)>, edges: Seq<Seq<usize>>, pos: Seq<usize>, ord: Seq<CellId>)
    requires
        keys_ascending(g),
        tracks(g, edges),
        g.len() <= usize::MAX,
        distinct_positions(pos, g.len() as int),
        ord.len() == pos.len(),
        forall|k: int| 0 <= k < ord.len() ==> #[trigger] ord[k] == g[pos[k] as int].0,
        lowest_positions(pos, edges),
    ensures
        lowest_first(g, ord),
{
    assert forall|k: int, i: int| #![trigger ord[k], g[i]]
        0 <= k < ord.len() && 0 <= i < g.len() && !ord.take(k).contains(g[i].0)
            && key_deps_listed(g, ord.take(k), i) implies !cell_id_lt(g[i].0, ord[k]) by {
        if pos.take(k).contains(i as usize) {
            let t = choose|t: int| 0 <= t < pos.take(k).len() && pos.take(k)[t] == i as usize;
            assert(ord[t] == g[pos[t] as int].0);
            assert(ord.take(k)[t] == g[i].0);
        }
        assert forall|m: int| 0 <= m < edges[i].len() implies pos.take(k).contains(#[trigger] edges[i][m]) by {
            let e = edges[i][m];
            assert(g[i].1.contains(g[e as int].0));
            let j = choose|j: int| 0 <= j < g[i].1.len() && g[i].1[j] == g[e as int].0;
            assert(is_key(g, g[i].1[j]));
            assert(ord.take(k).contains(g[i].1[j]));
            let t = choose|t: int| 0 <= t < ord.take(k).len() && ord.take(k)[t] == g[e as int].0;
            assert(ord[t] == g[pos[t] as int].0);
            lemma_keys_unique(g, pos[t] as int, e as int);
            assert(pos.take(k)[t] == e);
        }
        assert(all_listed(pos.take(k), edges[i]));
        assert(pos[k] <= i);
        assert(ord[k] == g[pos[k] as int].0);
        if (pos[k] as int) < i {
            assert(cell_id_lt(g[pos[k] as int].0, g[i].0));
        }
    }
}

/// Whether every formula cell missing from `order` reads a formula cell that is missing too.
pub open spec fn complete_order(g: Seq<(CellId, Seq<CellId>)>, order: Seq<CellId>) -> bool {
    forall|i: int| 0 <= i < g.len() && !order.contains(#[trigger] g[i].0) ==> exists|j: int|
        0 <= j < g[i].1.len() && is_key(g, #[trigger] g[i].1[j]) && !order.contains(g[i].1[j])
}

/// Whether `cycle_cells` lists, ascending, the unscheduled cells that lie on a dependency cycle,
/// and `blocked_cells` the other unscheduled cells, which only depend on one.
pub open spec fn splits_unscheduled(
    g: Seq<(CellId, Seq<CellId>)>,
    order: Seq<CellId>,
    cycle_cells: Seq<CellId>,
    blocked_cells: Seq<CellId>,
) -> bool {
    &&& cycle_cells == select(g, Seq::new(g.len(), |i: int| !order.contains(g[i].0) && on_cycle(g, i)))
    &&& blocked_cells == select(g, Seq::new(g.len(), |i: int| !order.contains(g[i].0) && !on_cycle(g, i)))
}

/// Evaluation schedule of a dependency graph.
#[derive(Debug)]
pub struct Schedule {
    /// Formula cells in evaluation order.
    pub order: Vec<CellId>,
    /// Unscheduled cells that lie on a dependency cycle, ascending.
    pub cycle_cells: Vec<CellId>,
    /// Unscheduled cells that only depend on a cycle, ascending.
    pub blocked_cells: Vec<CellId>,
}

proof fn lemma_keys_unique(g: Seq<(CellId, Seq<CellId>)>, a: int, b: int)
    requires
        keys_ascending(g),
        0 <= a < g.len(),
        0 <= b < g.len(),
        g[a].0 == g[b].0,
    ensures
        a == b,
{
    if a < b {
        assert(cell_id_lt(g[a].0, g[b].0));
    } else if b < a {
        assert(cell_id_lt(g[b].0, g[a].0));
    }
}

/// Collects the cells of `graph` whose flag is set, in ascending order. `cancelled` is polled once
/// per collected cell when `poll` is set.
fn collect_flagged<F: Fn() -> bool>(
    graph: &DependencyGraph,
    flags: &Vec<bool>,
    poll: bool,
    cancelled: &F,
) -> (r: Result<Vec<CellId>, ()>)
    requires
        call_requires(*cancelled, ()),
        flags@.len() == graph@.len(),
    ensures
        r is Err ==> call_ensures(*cancelled, (), true),
        r matches Ok(cells) ==> cells@ == select(graph@, flags@),
{
    let ghost g = graph@;
    let mut out: Vec<CellId> = Vec::new();
    let mut i: usize = 0;
    while i < graph.len()
        invariant
            g == graph@,
            flags@.len() == g.len(),
            i <= g.len(),
            call_requires(*cancelled, ()),
            out@ == select(g.take(i as int), flags@),
        decreases g.len() - i,
    {
        assert(g.take(i + 1).drop_last() =~= g.take(i as int));
        if flags[i] {
            if poll && cancelled() {
                return Err(());
            }
            let (cell, _) = graph.entry(i);
            out.push(cell);
        }
        i = i + 1;
    }
    assert(g.take(g.len() as int) =~= g);
    Ok(out)
}

/// Orders the formula cells of `graph` for evaluation.
///
/// Cells are emitted lowest-first among those whose formula-cell dependencies were all emitted
/// before; dependencies that are not formula cells are ignored. Cells that can never be emitted are
/// split into cycle members and cells blocked downstream of a cycle. `cancelled` is polled
/// throughout; once it reports cancellation the schedule is abandoned with `Err(())`.
pub fn schedule_cancellable<F: Fn() -> bool>(graph: &DependencyGraph, cancelled: &F) -> (r: Result<Schedule, ()>)
    requires
        call_requires(*cancelled, ()),
    ensures
        r is Err ==> call_ensures(*cancelled, (), true),
        (forall|b: bool| call_ensures(*cancelled, (), b) ==> b) && graph@.len() > 0 ==> r is Err,
        r matches Ok(s) ==> {
            &&& in_dependency_order(graph@, s.order@)
            &&& lowest_first(graph@, s.order@)
            &&& complete_order(graph@, s.order@)
            &&& splits_unscheduled(graph@, s.order@, s.cycle_cells@, s.blocked_cells@)
        },
{
    graph.check_ascending();
    let ghost g = graph@;
    let n = graph.len();
    let (edges, dependents) = match build_edges(graph, cancelled) {
        Ok(built) => built,
        Err(()) => return Err(()),
    };
    let ghost ev = nested_view(edges@);
    proof {
        assert forall|x: int| 0 <= x < n implies #[trigger] ev[x] == edges@[x]@ by {}
        assert forall|x: int, k: int| 0 <= x < n && 0 <= k < edges@[x]@.len() implies (#[trigger] edges@[x]@[k]) < n by {
            assert(ev[x][k] == edges@[x]@[k]);
        }
        assert forall|c: int, k: int| 0 <= c < n && 0 <= k < dependents@[c]@.len() implies (#[trigger] dependents@[c]@[k]) < n by {
            assert(nested_view(dependents@)[c] == dependents@[c]@);
        }
    }
    let (positions, emitted, indegree) = match emit_order(n, &edges, &dependents, cancelled) {
        Ok(emitted) => emitted,
        Err(()) => return Err(()),
    };
    let mut unresolved: Vec<bool> = Vec::new();
    let mut i: usize = 0;
    while i < n
        invariant
            i <= n,
            indegree@.len() == n,
            emitted@.len() == n,
            forall|p: int| 0 <= p < n ==> (#[trigger] indegree@[p] > 0 <==> !emitted@[p]),
            unresolved@.len() == i,
            call_requires(*cancelled, ()),
            forall|p: int| 0 <= p < i ==> #[trigger] unresolved@[p] == !emitted@[p],
        decreases n - i,
    {
        if cancelled() {
            return Err(());
        }
        unresolved.push(indegree[i] > 0);
        i = i + 1;
    }
    let cycle_flags = match cycle_members(n, &edges, &unresolved, cancelled) {
        Ok(members) => members,
        Err(()) => return Err(()),
    };
    let mut blocked_flags: Vec<bool> = Vec::new();
    let mut i: usize = 0;
    while i < n
        invariant
            i <= n,
            unresolved@.len() == n,
            cycle_flags@.len() == n,
            blocked_flags@.len() == i,
            forall|p: int| 0 <= p < i ==> #[trigger] blocked_flags@[p] == (unresolved@[p] && !cycle_flags@[p]),
        decreases n - i,
    {
        blocked_flags.push(unresolved[i] && !cycle_flags[i]);
        i = i + 1;
    }
    let blocked_cells = match collect_flagged(graph, &blocked_flags, true, cancelled) {
        Ok(cells) => cells,
        Err(()) => return Err(()),
    };
    let cycle_cells = match collect_flagged(graph, &cycle_flags, false, cancelled) {
        Ok(cells) => cells,
        Err(()) => return Err(()),
    };
    let mut order: Vec<CellId> = Vec::new();
    let mut k: usize = 0;
    while k < positions.len()
        invariant
            g == graph@,
            n == g.len(),
            k <= positions@.len(),
            forall|j: int| 0 <= j < positions@.len() ==> (#[trigger] positions@[j]) < n,
            order@.len() == k,
            forall|j: int| 0 <= j < k ==> #[trigger] order@[j] == g[positions@[j] as int].0,
        decreases positions@.len() - k,
    {
        let (cell, _) = graph.entry(positions[k]);
        order.push(cell);
        k = k + 1;
    }
    proof {
        let pos = positions@;
        let ord = order@;
        assert(distinct_positions(pos, n as int));
        assert forall|p: usize| p < n implies (emitted@[p as int] <==> ord.contains(g[p as int].0)) by {
            assert(emitted@[p as int] <==> pos.contains(p));
            if pos.contains(p) {
                let t = choose|t: int| 0 <= t < pos.len() && pos[t] == p;
                assert(ord[t] == g[p as int].0);
            }
            if ord.contains(g[p as int].0) {
                let t = choose|t: int| 0 <= t < ord.len() && ord[t] == g[p as int].0;
                lemma_keys_unique(g, pos[t] as int, p as int);
                assert(pos[t] == p);
            }
        }
        assert forall|k2: int| 0 <= k2 < ord.len() implies is_key(g, #[trigger] ord[k2]) by {
            assert(g[pos[k2] as int].0 == ord[k2]);
        }
        assert forall|a: int, b: int| 0 <= a < b < ord.len() implies ord[a] != ord[b] by {
            if ord[a] == ord[b] {
                lemma_keys_unique(g, pos[a] as int, pos[b] as int);
            }
        }
        assert forall|k2: int, i2: int, j: int| #![trigger ord[k2], g[i2].1[j]]
            0 <= k2 < ord.len() && 0 <= i2 < g.len() && g[i2].0 == ord[k2] && 0 <= j < g[i2].1.len()
                && is_key(g, g[i2].1[j]) implies ord.take(k2).contains(g[i2].1[j]) by {
            lemma_keys_unique(g, pos[k2] as int, i2);
            let m = choose|m: int| 0 <= m < ev[i2].len() && g[#[trigger] ev[i2][m] as int].0 == g[i2].1[j];
            let e = ev[i2][m];
            assert(pos.take(k2).contains(e));
            let t = choose|t: int| 0 <= t < pos.take(k2).len() && pos.take(k2)[t] == e;
            assert(ord.take(k2)[t] == g[i2].1[j]);
        }
        assert forall|i2: int| 0 <= i2 < g.len() && !ord.contains(#[trigger] g[i2].0) implies exists|j: int|
            0 <= j < g[i2].1.len() && is_key(g, #[trigger] g[i2].1[j]) && !ord.contains(g[i2].1[j]) by {
            assert(!emitted@[i2]);
            let m = choose|m: int| 0 <= m < edges@[i2]@.len() && !emitted@[#[trigger] edges@[i2]@[m] as int];
            let e = edges@[i2]@[m];
            assert(ev[i2][m] == e);
            assert(g[i2].1.contains(g[e as int].0));
            let j = choose|j: int| 0 <= j < g[i2].1.len() && g[i2].1[j] == g[e as int].0;
            assert(g[e as int].0 == g[e as int].0);
            assert(is_key(g, g[i2].1[j]));
            assert(!ord.contains(g[e as int].0));
        }
        assert forall|p: int| 0 <= p < n implies (#[trigger] emitted@[p] <==> ord.contains(g[p].0)) by {
            assert(emitted@[(p as usize) as int] <==> ord.contains(g[(p as usize) as int].0));
        }
        lemma_cycle_flags(g, ev, ord, emitted@, unresolved@, cycle_flags@);
        lemma_lowest_first(g, ev, pos, ord);
        assert(blocked_flags@ =~= Seq::new(g.len(), |i2: int| !ord.contains(g[i2].0) && !on_cycle(g, i2)));
        assert(splits_unscheduled(g, ord, cycle_cells@, blocked_cells@));
    }
    Ok(Schedule { order, cycle_cells, blocked_cells })
}

/// Orders the formula cells of `graph` for evaluation without cancellation.
pub fn schedule(graph: &DependencyGraph) -> (r: Schedule)
    ensures
        in_dependency_order(graph@, r.order@),
        lowest_first(graph@, r.order@),
        complete_order(graph@, r.order@),
        splits_unscheduled(graph@, r.order@, r.cycle_cells@, r.blocked_cells@),
{
    let never = || -> (b: bool)
        ensures
            !b,
    { false };
    match schedule_cancellable(graph, &never) {
        Ok(s) => s,
        Err(()) => {
            proof {
                assert(false);
            }
            Schedule { order: Vec::new(), cycle_cells: Vec::new(), blocked_cells: Vec::new() }
        },
    }
}

/// Whether the formula cell at index `i` reads the formula cell at index `j`.
pub open spec fn reads(g: Seq<(CellId, Seq<CellId>)>, i: int, j: int) -> bool {
    0 <= i < g.len() && 0 <= j < g.len() && g[i].1.contains(g[j].0)
}

/// Whether `w` is a chain of formula cells, each reading the next.
pub open spec fn is_chain(g: Seq<(CellId, Seq<CellId>)>, w: Seq<int>) -> bool {
    &&& w.len() >= 1
    &&& forall|t: int| 0 <= t < w.len() ==> 0 <= #[trigger] w[t] < g.len()
    &&& forall|t: int| 0 <= t < w.len() - 1 ==> reads(g, #[trigger] w[t], w[t + 1])
}

/// Whether some chain of `k` reads starts at the formula cell at index `i`.
pub open spec fn has_chain(g: Seq<(CellId, Seq<CellId>)>, i: int, k: nat) -> bool {
    exists|w: Seq<int>| #[trigger] is_chain(g, w) && w.len() == k + 1 && w[0] == i
}

proof fn lemma_unscheduled_chains(g: Seq<(CellId, Seq<CellId>)>, order: Seq<CellId>, i: int, k: nat)
    requires
        complete_order(g, order),
        0 <= i < g.len(),
        !order.contains(g[i].0),
    ensures
        exists|w: Seq<int>| #[trigger] is_chain(g, w) && w.len() == k + 1 && w[0] == i
            && forall|t: int| 0 <= t < w.len() ==> !order.contains(g[#[trigger] w[t]].0),
    decreases k,
{
    if k == 0 {
        let w = seq![i];
        assert(is_chain(g, w));
        assert(forall|t: int| 0 <= t < w.len() ==> !order.contains(g[#[trigger] w[t]].0));
    } else {
        let j = choose|j: int| 0 <= j < g[i].1.len() && is_key(g, #[trigger] g[i].1[j]) && !order.contains(g[i].1[j]);
        let dep = g[i].1[j];
        let m = choose|m: int| 0 <= m < g.len() && #[trigger] g[m].0 == dep;
        lemma_unscheduled_chains(g, order, m, (k - 1) as nat);
        let rest = choose|w: Seq<int>| #[trigger] is_chain(g, w) && w.len() == k && w[0] == m
            && forall|t: int| 0 <= t < w.len() ==> !order.contains(g[#[trigger] w[t]].0);
        let w = seq![i] + rest;
        assert(g[i].1.contains(g[m].0)) by {
            assert(g[i].1[j] == g[m].0);
        }
        assert forall|t: int| 0 <= t < w.len() - 1 implies reads(g, #[trigger] w[t], w[t + 1]) by {
            if t > 0 {
                assert(w[t] == rest[t - 1] && w[t + 1] == rest[t]);
            }
        }
        assert forall|t: int| 0 <= t < w.len() implies 0 <= #[trigger] w[t] < g.len() by {
            if t > 0 {
                assert(w[t] == rest[t - 1]);
            }
        }
        assert(is_chain(g, w));
        assert forall|t: int| 0 <= t < w.len() implies !order.contains(g[#[trigger] w[t]].0) by {
            if t > 0 {
                assert(w[t] == rest[t - 1]);
            }
        }
    }
}

proof fn lemma_chain_step(g: Seq<(CellId, Seq<CellId>)>, order: Seq<CellId>, i: int, next: int, k: int) -> (k2: int)
    requires
        in_dependency_order(g, order),
        0 <= k < order.len(),
        order[k] == g[i].0,
        reads(g, i, next),
    ensures
        0 <= k2 < k,
        order[k2] == g[next].0,
{
    let dep = g[next].0;
    let j = choose|j: int| 0 <= j < g[i].1.len() && g[i].1[j] == dep;
    assert(is_key(g, g[i].1[j])) by {
        assert(g[next].0 == g[i].1[j]);
    }
    assert(order.take(k).contains(g[i].1[j])) by {
        assert(order[k] == g[i].0);
        assert(g[i].1[j] == g[i].1[j]);
    }
    let k2 = choose|k2: int| 0 <= k2 < order.take(k).len() && order.take(k)[k2] == dep;
    assert(order[k2] == order.take(k)[k2]);
    k2
}

proof fn lemma_scheduled_chain_bound(g: Seq<(CellId, Seq<CellId>)>, order: Seq<CellId>, w: Seq<int>, k: int)
    requires
        in_dependency_order(g, order),
        is_chain(g, w),
        0 <= k < order.len(),
        order[k] == g[w[0]].0,
    ensures
        w.len() <= k + 1,
    decreases w.len(),
{
    if w.len() > 1 {
        assert(reads(g, w[0], w[1]));
        let k2 = lemma_chain_step(g, order, w[0], w[1], k);
        let tail = w.drop_first();
        assert forall|t: int| 0 <= t < tail.len() implies 0 <= #[trigger] tail[t] < g.len() by {
            assert(tail[t] == w[t + 1]);
        }
        assert forall|t: int| 0 <= t < tail.len() - 1 implies reads(g, #[trigger] tail[t], tail[t + 1]) by {
            assert(tail[t] == w[t + 1] && tail[t + 1] == w[t + 2]);
        }
        lemma_scheduled_chain_bound(g, order, tail, k2);
    }
}

/// A formula cell is scheduled exactly when the chains of formula cells it reads, directly or
/// through other formula cells, are bounded in length: the cells left out are those that depend
/// on a dependency cycle.
pub proof fn lemma_scheduled_iff_chains_bounded(g: Seq<(CellId, Seq<CellId>)>, order: Seq<CellId>, i: int)
    requires
        in_dependency_order(g, order),
        complete_order(g, order),
        0 <= i < g.len(),
    ensures
        order.contains(g[i].0) <==> exists|k: nat| !#[trigger] has_chain(g, i, k),
{
    if order.contains(g[i].0) {
        let k = choose|k: int| 0 <= k < order.len() && order[k] == g[i].0;
        let bound = (k + 1) as nat;
        assert(!has_chain(g, i, bound)) by {
            if has_chain(g, i, bound) {
                let w = choose|w: Seq<int>| #[trigger] is_chain(g, w) && w.len() == bound + 1 && w[0] == i;
                lemma_scheduled_chain_bound(g, order, w, k);
            }
        }
    } else {
        assert forall|k: nat| #[trigger] has_chain(g, i, k) by {
            lemma_unscheduled_chains(g, order, i, k);
        }
    }
}


proof fn lemma_chain_end_earlier(g: Seq<(CellId, Seq<CellId>)>, order: Seq<CellId>, w: Seq<int>, k: int) -> (k2: int)
    requires
        in_dependency_order(g, order),
        is_chain(g, w),
        w.len() >= 2,
        0 <= k < order.len(),
        order[k] == g[w[0]].0,
    ensures
        0 <= k2 < k,
        order[k2] == g[w.last()].0,
    decreases w.len(),
{
    assert(reads(g, w[0], w[1]));
    let k1 = lemma_chain_step(g, order, w[0], w[1], k);
    if w.len() == 2 {
        k1
    } else {
        let tail = w.drop_first();
        assert forall|t: int| 0 <= t < tail.len() implies 0 <= #[trigger] tail[t] < g.len() by {
            assert(tail[t] == w[t + 1]);
        }
        assert forall|t: int| 0 <= t < tail.len() - 1 implies reads(g, #[trigger] tail[t], tail[t + 1]) by {
            assert(tail[t] == w[t + 1] && tail[t + 1] == w[t + 2]);
        }
        assert(tail.last() == w.last());
        lemma_chain_end_earlier(g, order, tail, k1)
    }
}

/// A formula cell on a dependency cycle is never scheduled: no order that lists each cell after
/// its formula-cell dependencies can list it.
pub proof fn lemma_cycle_cells_unscheduled(g: Seq<(CellId, Seq<CellId>)>, order: Seq<CellId>, i: int)
    requires
        in_dependency_order(g, order),
        0 <= i < g.len(),
        on_cycle(g, i),
    ensures
        !order.contains(g[i].0),
{
    if order.contains(g[i].0) {
        let k = choose|k: int| 0 <= k < order.len() && order[k] == g[i].0;
        let w = choose|w: Seq<int>| #[trigger] is_chain(g, w) && w.len() >= 2 && w[0] == i && w.last() == i;
        let k2 = lemma_chain_end_earlier(g, order, w, k);
        assert(order[k2] == order[k]);
    }
}

/// Whether some chain of reads leads from the formula cell at index `i` to a cell on a dependency
/// cycle (the cell itself when it is on one).
pub open spec fn reaches_cycle(g: Seq<(CellId, Seq<CellId>)>, i: int) -> bool {
    exists|w: Seq<int>| #[trigger] is_chain(g, w) && w[0] == i && on_cycle(g, w.last())
}

/// A sequence of more indices than `n` below `n` repeats one.
proof fn lemma_pigeonhole(w: Seq<int>, n: int)
    requires
        0 <= n,
        w.len() > n,
        forall|t: int| 0 <= t < w.len() ==> 0 <= #[trigger] w[t] < n,
    ensures
        exists|a: int, b: int| 0 <= a < b < w.len() && w[a] == w[b],
{
    if w.no_duplicates() {
        w.unique_seq_to_set();
        vstd::set_lib::lemma_int_range(0, n);
        assert(w.to_set().subset_of(vstd::set_lib::set_int_range(0, n)));
        vstd::set_lib::lemma_len_subset(w.to_set(), vstd::set_lib::set_int_range(0, n));
    } else {
        let (a, b) = choose|a: int, b: int| 0 <= a < w.len() && 0 <= b < w.len() && a != b && w[a] == w[b];
        if a < b {
            assert(w[a] == w[b]);
        } else {
            assert(w[b] == w[a]);
        }
    }
}

/// The part of a chain between two of its positions is a chain.
proof fn lemma_subchain(g: Seq<(CellId, Seq<CellId>)>, w: Seq<int>, a: int, b: int)
    requires
        is_chain(g, w),
        0 <= a <= b < w.len(),
    ensures
        is_chain(g, w.subrange(a, b + 1)),
{
    let u = w.subrange(a, b + 1);
    assert forall|t: int| 0 <= t < u.len() implies 0 <= #[trigger] u[t] < g.len() by {
        assert(u[t] == w[a + t]);
    }
    assert forall|t: int| 0 <= t < u.len() - 1 implies reads(g, #[trigger] u[t], u[t + 1]) by {
        assert(u[t] == w[a + t] && u[t + 1] == w[a + t + 1]);
    }
}

/// A formula cell is left out of a dependency-ordered, complete schedule exactly when it lies on a
/// dependency cycle or reads, directly or through other formula cells, a cell that does.
pub proof fn lemma_unscheduled_iff_reaches_cycle(g: Seq<(CellId, Seq<CellId>)>, order: Seq<CellId>, i: int)
    requires
        in_dependency_order(g, order),
        complete_order(g, order),
        0 <= i < g.len(),
    ensures
        !order.contains(g[i].0) <==> reaches_cycle(g, i),
{
    if !order.contains(g[i].0) {
        lemma_unscheduled_chains(g, order, i, g.len() as nat);
        let w = choose|w: Seq<int>| #[trigger] is_chain(g, w) && w.len() == g.len() + 1 && w[0] == i
            && forall|t: int| 0 <= t < w.len() ==> !order.contains(g[#[trigger] w[t]].0);
        lemma_pigeonhole(w, g.len() as int);
        let (a, b) = choose|a: int, b: int| 0 <= a < b < w.len() && w[a] == w[b];
        lemma_subchain(g, w, a, b);
        let cycle = w.subrange(a, b + 1);
        assert(cycle[0] == w[a] && cycle.last() == w[b]);
        assert(on_cycle(g, w[a]));
        lemma_subchain(g, w, 0, a);
        let lead = w.subrange(0, a + 1);
        assert(lead[0] == i && lead.last() == w[a]);
        assert(is_chain(g, lead));
    } else {
        if reaches_cycle(g, i) {
            let w = choose|w: Seq<int>| #[trigger] is_chain(g, w) && w[0] == i && on_cycle(g, w.last());
            let k = choose|k: int| 0 <= k < order.len() && order[k] == g[i].0;
            if w.len() == 1 {
                lemma_cycle_cells_unscheduled(g, order, i);
            } else {
                let k2 = lemma_chain_end_earlier(g, order, w, k);
                lemma_cycle_cells_unscheduled(g, order, w.last());
                assert(order.contains(g[w.last()].0)) by {
                    assert(order[k2] == g[w.last()].0);
                }
            }
        }
    }
}

} // verus!
