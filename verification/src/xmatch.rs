//! The searches of `XMATCH`: by halving a sorted lookup vector, or entry by entry.
use vstd::prelude::*;

use crate::value::ErrorKind;

verus! {

/// How an entry of the lookup vector compares with the lookup value.
#[derive(Debug, Clone, Copy, PartialEq, Eq, Structural)]
pub enum Comparison {
    Less,
    Equal,
    Greater,
}

/// What `XMATCH` accepts when no entry equals the lookup value.
#[derive(Debug, Clone, Copy, PartialEq, Eq, Structural)]
pub enum XMatchMode {
    Exact,
    NextSmaller,
    NextLarger,
    Wildcard,
}

/// Whether comparing entry `i` can answer `Ok(order)`.
pub open spec fn compared<C: Fn(u32) -> Result<Comparison, ErrorKind>>(compare_at: C, i: int, order: Comparison) -> bool {
    0 <= i <= u32::MAX && call_ensures(compare_at, (i as u32,), Ok(order))
}

/// The order of entries that lie before the lookup value in the searched direction.
pub open spec fn before_order(ascending: bool) -> Comparison {
    if ascending { Comparison::Less } else { Comparison::Greater }
}

/// The order of entries that lie after the lookup value in the searched direction.
pub open spec fn after_order(ascending: bool) -> Comparison {
    if ascending { Comparison::Greater } else { Comparison::Less }
}

/// Whether position `l` separates entries compared as lying before the lookup value from entries
/// compared as lying after it: the entry before `l` (if any) was found before, the entry at `l`
/// (if any) after.
pub open spec fn separates<C: Fn(u32) -> Result<Comparison, ErrorKind>>(compare_at: C, len: u32, ascending: bool, l: int) -> bool {
    &&& 0 <= l <= len
    &&& (l == 0 || compared(compare_at, l - 1, before_order(ascending)))
    &&& (l == len || compared(compare_at, l, after_order(ascending)))
}

/// Whether the approximate mode takes the entry before the separating position: the next smaller
/// entry of an ascending vector, or the next larger of a descending one.
pub open spec fn takes_entry_before(mode: XMatchMode, ascending: bool) -> bool {
    (ascending && mode == XMatchMode::NextSmaller) || (!ascending && mode == XMatchMode::NextLarger)
}

/// Searches a vector of `len` entries, sorted ascending or descending, for the lookup value by
/// halving, as `XMATCH` does with search mode 2 or -2. `compare_at(i)` compares entry `i` with
/// the lookup value and `step` charges each probe; their errors are returned as they come.
///
/// An entry compared equal is returned. Otherwise the search ends at a position that separates
/// the entries before the lookup value from those after it, and the approximate modes return the
/// entry on the side they take; exact mode, or no entry on that side, gives `#N/A`. Wildcard
/// matching is refused with `#VALUE!`.
pub fn xmatch_binary<C: Fn(u32) -> Result<Comparison, ErrorKind>, S: Fn() -> Result<(), ErrorKind>>(
    len: u32,
    compare_at: &C,
    step: &S,
    mode: XMatchMode,
    ascending: bool,
) -> (r: Result<u32, ErrorKind>)
    requires
        forall|i: u32| #[trigger] call_requires(*compare_at, (i,)),
        call_requires(*step, ()),
    ensures
        mode == XMatchMode::Wildcard ==> r == Err::<u32, ErrorKind>(ErrorKind::Value),
        r matches Ok(m) ==> m < len && (compared(*compare_at, m as int, Comparison::Equal) || {
            &&& mode != XMatchMode::Exact && mode != XMatchMode::Wildcard
            &&& if takes_entry_before(mode, ascending) {
                separates(*compare_at, len, ascending, m + 1)
            } else {
                separates(*compare_at, len, ascending, m as int)
            }
        }),
        r matches Err(e) ==> mode == XMatchMode::Wildcard && e == ErrorKind::Value
            || call_ensures(*step, (), Err(e))
            || (exists|i: u32| i < len && #[trigger] call_ensures(*compare_at, (i,), Err(e)))
            || (e == ErrorKind::NA && mode != XMatchMode::Wildcard && exists|l: int| {
                &&& #[trigger] separates(*compare_at, len, ascending, l)
                &&& (mode == XMatchMode::Exact
                    || (takes_entry_before(mode, ascending) && l == 0)
                    || (!takes_entry_before(mode, ascending) && l == len))
            }),
{
    if mode == XMatchMode::Wildcard {
        return Err(ErrorKind::Value);
    }
    let mut low: u32 = 0;
    let mut high: u32 = len;
    while low < high
        invariant
            low <= high <= len,
            mode != XMatchMode::Wildcard,
            forall|i: u32| #[trigger] call_requires(*compare_at, (i,)),
            call_requires(*step, ()),
            low == 0 || compared(*compare_at, low - 1, before_order(ascending)),
            high == len || compared(*compare_at, high as int, after_order(ascending)),
        decreases high - low,
    {
        match step() {
            Ok(()) => {},
            Err(e) => return Err(e),
        }
        let middle = low + (high - low) / 2;
        let ordering = match compare_at(middle) {
            Ok(o) => o,
            Err(e) => return Err(e),
        };
        match ordering {
            Comparison::Equal => return Ok(middle),
            Comparison::Less => {
                if ascending {
                    low = middle + 1;
                } else {
                    high = middle;
                }
            },
            Comparison::Greater => {
                if ascending {
                    high = middle;
                } else {
                    low = middle + 1;
                }
            },
        }
    }
    assert(separates(*compare_at, len, ascending, low as int));
    if mode == XMatchMode::Exact {
        return Err(ErrorKind::NA);
    }
    let before = (ascending && mode == XMatchMode::NextSmaller) || (!ascending && mode == XMatchMode::NextLarger);
    if before {
        if low == 0 {
            Err(ErrorKind::NA)
        } else {
            Ok(low - 1)
        }
    } else {
        if low < len {
            Ok(low)
        } else {
            Err(ErrorKind::NA)
        }
    }
}


/// The entry examined at `step` of a linear search: from the first entry forward, or from the
/// last backward.
pub open spec fn scan_at(len: u32, reverse: bool, step: int) -> int {
    if reverse { len - 1 - step } else { step }
}

/// The order an approximate mode accepts: entries less than the lookup value for the next
/// smaller, greater for the next larger.
pub open spec fn qualifying_order(mode: XMatchMode) -> Comparison {
    if mode == XMatchMode::NextSmaller { Comparison::Less } else { Comparison::Greater }
}

/// The order between two entries that makes the first a closer approximate match than the
/// second: larger for the next smaller, smaller for the next larger.
pub open spec fn closer_order(mode: XMatchMode) -> Comparison {
    if mode == XMatchMode::NextSmaller { Comparison::Greater } else { Comparison::Less }
}

/// Whether entry `i` was seen not to match: a wildcard test that answered no, or a comparison
/// that answered other than equal.
pub open spec fn seen_unequal<C: Fn(u32) -> Result<Comparison, ErrorKind>, W: Fn(u32) -> Result<bool, ErrorKind>>(
    compare_at: C, wildcard_at: W, mode: XMatchMode, i: int,
) -> bool {
    if mode == XMatchMode::Wildcard {
        0 <= i <= u32::MAX && call_ensures(wildcard_at, (i as u32,), Ok(false))
    } else {
        exists|o: Comparison| o != Comparison::Equal && #[trigger] compared(compare_at, i, o)
    }
}

/// Whether entry `i` was seen neither to equal the lookup value nor to qualify as an approximate
/// match.
pub open spec fn seen_nonqualifying<C: Fn(u32) -> Result<Comparison, ErrorKind>>(compare_at: C, mode: XMatchMode, i: int) -> bool {
    mode == XMatchMode::Exact || mode == XMatchMode::Wildcard
        || exists|o: Comparison| o != Comparison::Equal && o != qualifying_order(mode) && #[trigger] compared(compare_at, i, o)
}

/// Whether entry `i`, examined after the kept entry `b`, was seen not to be a closer approximate
/// match than `b`.
pub open spec fn seen_not_closer<C: Fn(u32) -> Result<Comparison, ErrorKind>, E: Fn(u32, u32) -> Result<Comparison, ErrorKind>>(
    compare_at: C, compare_entries: E, mode: XMatchMode, i: int, b: u32,
) -> bool {
    seen_nonqualifying(compare_at, mode, i)
        || (0 <= i <= u32::MAX && exists|o: Comparison| o != closer_order(mode)
            && #[trigger] call_ensures(compare_entries, (i as u32, b), Ok(o)))
}

/// Whether entry `i` was seen to qualify as an approximate match.
pub open spec fn seen_qualifying<C: Fn(u32) -> Result<Comparison, ErrorKind>>(compare_at: C, mode: XMatchMode, i: int) -> bool {
    mode != XMatchMode::Exact && mode != XMatchMode::Wildcard && compared(compare_at, i, qualifying_order(mode))
}

/// The order of `x` relative to `y`.
pub open spec fn order_of(x: int, y: int) -> Comparison {
    if x < y {
        Comparison::Less
    } else if x == y {
        Comparison::Equal
    } else {
        Comparison::Greater
    }
}

/// Whether both comparisons order entries as the numbers `key` gives them: comparing entry `i`
/// with the lookup value can only answer the order of `key(i)` against `lookup`, and comparing
/// entry `a` with entry `b` only the order of `key(a)` against `key(b)`.
pub open spec fn keys_consistent<C: Fn(u32) -> Result<Comparison, ErrorKind>, E: Fn(u32, u32) -> Result<Comparison, ErrorKind>>(
    compare_at: C,
    compare_entries: E,
    key: spec_fn(int) -> int,
    lookup: int,
) -> bool {
    &&& forall|i: u32, o: Comparison|
        #[trigger] call_ensures(compare_at, (i,), Ok::<Comparison, ErrorKind>(o)) ==> o == order_of(key(i as int), lookup)
    &&& forall|a: u32, b: u32, o: Comparison|
        #[trigger] call_ensures(compare_entries, (a, b), Ok::<Comparison, ErrorKind>(o))
            ==> o == order_of(key(a as int), key(b as int))
}

/// Whether the mode accepts an approximate match.
pub open spec fn approximate(mode: XMatchMode) -> bool {
    mode == XMatchMode::NextSmaller || mode == XMatchMode::NextLarger
}

/// Whether entry `i`, under `key`, lies on the side of the lookup value the mode accepts (or on
/// it): at most the lookup value for the next smaller, at least for the next larger.
pub open spec fn on_accepted_side(mode: XMatchMode, key: spec_fn(int) -> int, lookup: int, i: int) -> bool {
    if mode == XMatchMode::NextSmaller {
        key(i) <= lookup
    } else {
        key(i) >= lookup
    }
}

/// Whether entry `m`, under `key`, is at least as close an approximate match as entry `i`: an
/// entry `i` on the accepted side is no nearer the lookup value than `m`.
pub open spec fn at_least_as_close(mode: XMatchMode, key: spec_fn(int) -> int, lookup: int, m: int, i: int) -> bool {
    on_accepted_side(mode, key, lookup, i) ==> if mode == XMatchMode::NextSmaller {
        key(i) <= key(m)
    } else {
        key(i) >= key(m)
    }
}

/// What the entries examined in the first `k` steps show, under every `key` the comparisons
/// agree with: with nothing kept, none of them lies on the accepted side; with `b` kept, `b` lies
/// on it and is at least as close as each of them.
spec fn keyed_progress<C: Fn(u32) -> Result<Comparison, ErrorKind>, E: Fn(u32, u32) -> Result<Comparison, ErrorKind>>(
    compare_at: C,
    compare_entries: E,
    mode: XMatchMode,
    len: u32,
    reverse: bool,
    best: Option<u32>,
    k: int,
) -> bool {
    forall|key: spec_fn(int) -> int, lookup: int|
        #[trigger] keys_consistent(compare_at, compare_entries, key, lookup) && approximate(mode) ==> match best {
            None => forall|j: int|
                0 <= j < k ==> !#[trigger] on_accepted_side(mode, key, lookup, scan_at(len, reverse, j)),
            Some(b) => on_accepted_side(mode, key, lookup, b as int) && forall|j: int|
                0 <= j < k ==> #[trigger] at_least_as_close(mode, key, lookup, b as int, scan_at(len, reverse, j)),
        }
}

/// Searches `len` entries one by one, as `XMATCH` does with search mode 1 (first to last) or -1
/// (last to first). `compare_at(i)` compares entry `i` with the lookup value, `compare_entries(a,
/// b)` compares entry `a` with entry `b`, `wildcard_at(i)` tests entry `i` against a wildcard
/// pattern, and `step` charges each entry examined; their errors are returned as they come.
///
/// The first entry in search order that equals the lookup value (or matches the pattern) is
/// returned. Without one, an approximate mode returns the closest qualifying entry it kept: an
/// entry replaces the kept one when it compares closer. Nothing found gives `#N/A`.
///
/// Whenever the comparisons order the entries as numbers do, the entry an approximate mode
/// returns is the closest of all: it lies on the accepted side of the lookup value, and no entry
/// on that side, examined before or after it, is nearer the lookup value.
pub fn xmatch_linear<
    C: Fn(u32) -> Result<Comparison, ErrorKind>,
    E: Fn(u32, u32) -> Result<Comparison, ErrorKind>,
    W: Fn(u32) -> Result<bool, ErrorKind>,
    S: Fn() -> Result<(), ErrorKind>,
>(
    len: u32,
    compare_at: &C,
    compare_entries: &E,
    wildcard_at: &W,
    step: &S,
    mode: XMatchMode,
    reverse: bool,
) -> (r: Result<u32, ErrorKind>)
    requires
        forall|i: u32| #[trigger] call_requires(*compare_at, (i,)),
        forall|a: u32, b: u32| #[trigger] call_requires(*compare_entries, (a, b)),
        forall|i: u32| #[trigger] call_requires(*wildcard_at, (i,)),
        call_requires(*step, ()),
    ensures
        r matches Ok(m) ==> m < len && ({
            ||| {
                &&& (if mode == XMatchMode::Wildcard {
                    call_ensures(*wildcard_at, (m,), Ok(true))
                } else {
                    compared(*compare_at, m as int, Comparison::Equal)
                })
                &&& exists|k: int| 0 <= k < len && scan_at(len, reverse, k) == m
                    && forall|j: int| 0 <= j < k ==> #[trigger] seen_unequal(*compare_at, *wildcard_at, mode, scan_at(len, reverse, j))
            }
            ||| {
                &&& seen_qualifying(*compare_at, mode, m as int)
                &&& forall|j: int| 0 <= j < len ==> #[trigger] seen_unequal(*compare_at, *wildcard_at, mode, scan_at(len, reverse, j))
                &&& exists|k: int| 0 <= k < len && scan_at(len, reverse, k) == m
                    && forall|j: int| k < j < len ==> #[trigger] seen_not_closer(*compare_at, *compare_entries, mode, scan_at(len, reverse, j), m)
            }
        }),
        r matches Err(e) ==> {
            ||| e == ErrorKind::NA && forall|j: int| 0 <= j < len
                ==> #[trigger] seen_unequal(*compare_at, *wildcard_at, mode, scan_at(len, reverse, j))
                    && seen_nonqualifying(*compare_at, mode, scan_at(len, reverse, j))
            ||| call_ensures(*step, (), Err(e))
            ||| exists|i: u32| #[trigger] call_ensures(*compare_at, (i,), Err(e))
            ||| exists|i: u32| #[trigger] call_ensures(*wildcard_at, (i,), Err(e))
            ||| exists|a: u32, b: u32| #[trigger] call_ensures(*compare_entries, (a, b), Err(e))
        },
        forall|key: spec_fn(int) -> int, lookup: int|
            #[trigger] keys_consistent(*compare_at, *compare_entries, key, lookup) && approximate(mode)
                ==> (r matches Ok(m) ==> on_accepted_side(mode, key, lookup, m as int) && forall|i: int|
                0 <= i < len ==> #[trigger] at_least_as_close(mode, key, lookup, m as int, i)),
{
    let mut best: Option<u32> = None;
    let ghost mut best_step: int = 0;
    let mut k: u32 = 0;
    while k < len
        invariant
            k <= len,
            forall|i: u32| #[trigger] call_requires(*compare_at, (i,)),
            forall|a: u32, b: u32| #[trigger] call_requires(*compare_entries, (a, b)),
            forall|i: u32| #[trigger] call_requires(*wildcard_at, (i,)),
            call_requires(*step, ()),
            forall|j: int| 0 <= j < k ==> #[trigger] seen_unequal(*compare_at, *wildcard_at, mode, scan_at(len, reverse, j)),
            best matches Some(b) ==> b < len && seen_qualifying(*compare_at, mode, b as int),
            best is None ==> forall|j: int| 0 <= j < k ==> #[trigger] seen_nonqualifying(*compare_at, mode, scan_at(len, reverse, j)),
            best matches Some(b) ==> 0 <= best_step < k && scan_at(len, reverse, best_step) == b
                && forall|j: int| best_step < j < k ==> #[trigger] seen_not_closer(*compare_at, *compare_entries, mode, scan_at(len, reverse, j), b),
            keyed_progress(*compare_at, *compare_entries, mode, len, reverse, best, k as int),
        decreases len - k,
    {
        let ghost prev_best = best;
        let ghost mut ord = Comparison::Equal;
        let ghost mut cl = Comparison::Equal;
        match step() {
            Ok(()) => {},
            Err(e) => return Err(e),
        }
        let offset = if reverse { len - k - 1 } else { k };
        assert(offset as int == scan_at(len, reverse, k as int));
        if mode == XMatchMode::Wildcard {
            match wildcard_at(offset) {
                Ok(true) => return Ok(offset),
                Ok(false) => {},
                Err(e) => return Err(e),
            }
        } else {
            let ordering = match compare_at(offset) {
                Ok(o) => o,
                Err(e) => return Err(e),
            };
            proof {
                ord = ordering;
            }
            if ordering == Comparison::Equal {
                assert(compared(*compare_at, offset as int, Comparison::Equal));
                proof {
                    assert forall|key: spec_fn(int) -> int, lookup: int|
                        #[trigger] keys_consistent(*compare_at, *compare_entries, key, lookup) && approximate(mode)
                            implies on_accepted_side(mode, key, lookup, offset as int) && forall|i: int|
                            0 <= i < len ==> #[trigger] at_least_as_close(mode, key, lookup, offset as int, i) by {
                        assert(call_ensures(*compare_at, (offset,), Ok::<Comparison, ErrorKind>(ordering)));
                    }
                }
                return Ok(offset);
            }
            assert(compared(*compare_at, offset as int, ordering));
            let qualifies = (mode == XMatchMode::NextSmaller && ordering == Comparison::Less)
                || (mode == XMatchMode::NextLarger && ordering == Comparison::Greater);
            if qualifies {
                match best {
                    None => {
                        best = Some(offset);
                        proof {
                            best_step = k as int;
                        }
                    },
                    Some(b) => {
                        match step() {
                            Ok(()) => {},
                            Err(e) => return Err(e),
                        }
                        let closer = match compare_entries(offset, b) {
                            Ok(o) => o,
                            Err(e) => return Err(e),
                        };
                        proof {
                            cl = closer;
                        }
                        let better = (mode == XMatchMode::NextSmaller && closer == Comparison::Greater)
                            || (mode == XMatchMode::NextLarger && closer == Comparison::Less);
                        if better {
                            best = Some(offset);
                            proof {
                                best_step = k as int;
                            }
                        } else {
                            assert(call_ensures(*compare_entries, (offset, b), Ok(closer)));
                            assert(seen_not_closer(*compare_at, *compare_entries, mode, scan_at(len, reverse, k as int), b));
                        }
                    },
                }
            }
        }
        assert(seen_unequal(*compare_at, *wildcard_at, mode, scan_at(len, reverse, k as int)));
        assert(best is None ==> seen_nonqualifying(*compare_at, mode, scan_at(len, reverse, k as int)));
        proof {
            assert forall|key: spec_fn(int) -> int, lookup: int|
                #[trigger] keys_consistent(*compare_at, *compare_entries, key, lookup) && approximate(mode) implies match best {
                    None => forall|j: int|
                        0 <= j < k + 1 ==> !#[trigger] on_accepted_side(mode, key, lookup, scan_at(len, reverse, j)),
                    Some(b) => on_accepted_side(mode, key, lookup, b as int) && forall|j: int|
                        0 <= j < k + 1 ==> #[trigger] at_least_as_close(mode, key, lookup, b as int, scan_at(len, reverse, j)),
                } by {
                assert(call_ensures(*compare_at, (offset,), Ok::<Comparison, ErrorKind>(ord)));
                assert(ord == order_of(key(offset as int), lookup));
                if let Some(b) = prev_best {
                    if best != prev_best {
                        assert(call_ensures(*compare_entries, (offset, b), Ok::<Comparison, ErrorKind>(cl)));
                    } else if (mode == XMatchMode::NextSmaller && ord == Comparison::Less)
                        || (mode == XMatchMode::NextLarger && ord == Comparison::Greater) {
                        assert(call_ensures(*compare_entries, (offset, b), Ok::<Comparison, ErrorKind>(cl)));
                    }
                }
                match best {
                    None => {
                        assert forall|j: int| 0 <= j < k + 1 implies !#[trigger] on_accepted_side(mode, key, lookup, scan_at(len, reverse, j)) by {
                            if j < k {
                                assert(!on_accepted_side(mode, key, lookup, scan_at(len, reverse, j)));
                            }
                        }
                    },
                    Some(b) => {
                        assert forall|j: int| 0 <= j < k + 1 implies #[trigger] at_least_as_close(mode, key, lookup, b as int, scan_at(len, reverse, j)) by {
                            if j < k {
                                match prev_best {
                                    None => assert(!on_accepted_side(mode, key, lookup, scan_at(len, reverse, j))),
                                    Some(pb) => assert(at_least_as_close(mode, key, lookup, pb as int, scan_at(len, reverse, j))),
                                }
                            }
                        }
                    },
                }
            }
        }
        k = k + 1;
    }
    proof {
        assert forall|key: spec_fn(int) -> int, lookup: int|
            #[trigger] keys_consistent(*compare_at, *compare_entries, key, lookup) && approximate(mode)
                implies (best matches Some(m) ==> on_accepted_side(mode, key, lookup, m as int) && forall|i: int|
                0 <= i < len ==> #[trigger] at_least_as_close(mode, key, lookup, m as int, i)) by {
            if let Some(m) = best {
                assert forall|i: int| 0 <= i < len implies #[trigger] at_least_as_close(mode, key, lookup, m as int, i) by {
                    let j: int = if reverse { len - 1 - i } else { i };
                    assert(scan_at(len, reverse, j) == i);
                    assert(at_least_as_close(mode, key, lookup, m as int, scan_at(len, reverse, j)));
                }
            }
        }
    }
    match best {
        Some(b) => Ok(b),
        None => Err(ErrorKind::NA),
    }
}


/// The direction of an `XMATCH` search.
#[derive(Debug, Clone, Copy, PartialEq, Eq, Structural)]
pub enum XSearchMode {
    Forward,
    Reverse,
    BinaryAscending,
    BinaryDescending,
}

/// The match mode a truncated `match_mode` argument selects; `None` (an omitted argument) is 0.
/// Any other number gives `#VALUE!`.
pub fn xmatch_match_mode(truncated: Option<i64>) -> (r: Result<XMatchMode, ErrorKind>)
    ensures
        r == match truncated.unwrap_or(0) {
            0 => Ok::<XMatchMode, ErrorKind>(XMatchMode::Exact),
            -1 => Ok(XMatchMode::NextSmaller),
            1 => Ok(XMatchMode::NextLarger),
            2 => Ok(XMatchMode::Wildcard),
            _ => Err(ErrorKind::Value),
        },
{
    let mode = match truncated {
        Some(m) => m,
        None => 0,
    };
    match mode {
        0 => Ok(XMatchMode::Exact),
        -1 => Ok(XMatchMode::NextSmaller),
        1 => Ok(XMatchMode::NextLarger),
        2 => Ok(XMatchMode::Wildcard),
        _ => Err(ErrorKind::Value),
    }
}

/// The search mode a truncated `search_mode` argument selects; `None` (an omitted argument) is 1.
/// Any other number gives `#VALUE!`.
pub fn xmatch_search_mode(truncated: Option<i64>) -> (r: Result<XSearchMode, ErrorKind>)
    ensures
        r == match truncated.unwrap_or(1) {
            1 => Ok::<XSearchMode, ErrorKind>(XSearchMode::Forward),
            -1 => Ok(XSearchMode::Reverse),
            2 => Ok(XSearchMode::BinaryAscending),
            -2 => Ok(XSearchMode::BinaryDescending),
            _ => Err(ErrorKind::Value),
        },
{
    let mode = match truncated {
        Some(m) => m,
        None => 1,
    };
    match mode {
        1 => Ok(XSearchMode::Forward),
        -1 => Ok(XSearchMode::Reverse),
        2 => Ok(XSearchMode::BinaryAscending),
        -2 => Ok(XSearchMode::BinaryDescending),
        _ => Err(ErrorKind::Value),
    }
}

} // verus!
