//! Splitting text at the longest of several delimiters, as `TEXTSPLIT` does along one axis.
use vstd::prelude::*;

use crate::calculation::{CellValue, CellValueModel};
use crate::runtime::Array;
use crate::text::{
    byte_offset, chars_equal, chars_of, lemma_str_len_is_byte_offset, lowercase_chars, str_to_lowercase,
    string_from_range,
};
use crate::value::ErrorKind;

verus! {

/// One non-empty delimiter with its lowercase form.
#[derive(Debug)]
pub struct Delimiter {
    text: String,
    folded: String,
    characters: usize,
}

impl Delimiter {
    pub closed spec fn text_spec(self) -> Seq<char> {
        self.text@
    }

    pub closed spec fn folded_spec(self) -> Seq<char> {
        self.folded@
    }

    #[verifier::type_invariant]
    spec fn consistent(self) -> bool {
        &&& self.characters == self.text@.len()
        &&& self.characters > 0
        &&& self.folded@ == lowercase_chars(self.text@)
    }

    /// A delimiter for non-empty `text`; `None` for the empty text, which delimits nothing.
    pub fn new(text: String) -> (r: Option<Delimiter>)
        ensures
            match r {
                Some(d) => text@.len() > 0 && d.text_spec() == text@ && d.folded_spec() == lowercase_chars(text@),
                None => text@.len() == 0,
            },
    {
        let characters = chars_of(text.as_str()).len();
        if characters == 0 {
            return None;
        }
        let folded = str_to_lowercase(text.as_str());
        Some(Delimiter { text, folded, characters })
    }

    /// Returns the delimiter text.
    pub fn text(&self) -> (r: &str)
        ensures
            r@ == self.text_spec(),
    {
        self.text.as_str()
    }

    fn characters(&self) -> (r: usize)
        ensures
            r == self.text_spec().len(),
            r > 0,
    {
        proof {
            use_type_invariant(self);
        }
        self.characters
    }

    fn folded_chars(&self) -> (r: Vec<char>)
        ensures
            r@ == lowercase_chars(self.text_spec()),
    {
        proof {
            use_type_invariant(self);
        }
        chars_of(self.folded.as_str())
    }
}

/// Whether delimiter `d` occurs in `v` at character `i`, compared by lowercase form when
/// `case_insensitive`.
pub open spec fn matches_at(v: Seq<char>, d: Delimiter, i: int, case_insensitive: bool) -> bool {
    let end = i + d.text_spec().len();
    &&& 0 <= i
    &&& end <= v.len()
    &&& if case_insensitive {
        lowercase_chars(v.subrange(i, end)) == lowercase_chars(d.text_spec())
    } else {
        v.subrange(i, end) == d.text_spec()
    }
}

/// Length of the longest of the first `k` delimiters occurring at `i`, or zero.
pub open spec fn longest_at(v: Seq<char>, ds: Seq<Delimiter>, i: int, k: int, case_insensitive: bool) -> int
    decreases k,
{
    if k <= 0 {
        0
    } else {
        let rest = longest_at(v, ds, i, k - 1, case_insensitive);
        let len = ds[k - 1].text_spec().len() as int;
        if matches_at(v, ds[k - 1], i, case_insensitive) && len > rest {
            len
        } else {
            rest
        }
    }
}

/// The first delimiter occurrence at or after character `from`: its start and end.
pub open spec fn next_match_spec(v: Seq<char>, ds: Seq<Delimiter>, from: int, case_insensitive: bool) -> Option<(int, int)>
    decreases v.len() - from,
{
    if from < 0 || from >= v.len() {
        None
    } else {
        let len = longest_at(v, ds, from, ds.len() as int, case_insensitive);
        if len > 0 {
            Some((from, from + len))
        } else {
            next_match_spec(v, ds, from + 1, case_insensitive)
        }
    }
}

/// The pieces of `v` from character `cursor` on, between the longest delimiter occurrences,
/// leaving out empty pieces when `ignore_empty`.
pub open spec fn split_spec(
    v: Seq<char>,
    ds: Seq<Delimiter>,
    cursor: int,
    ignore_empty: bool,
    case_insensitive: bool,
) -> Seq<Seq<char>>
    decreases v.len() - cursor,
{
    if cursor < 0 || cursor > v.len() {
        Seq::empty()
    } else {
        match next_match_spec(v, ds, cursor, case_insensitive) {
            None => {
                let tail = v.subrange(cursor, v.len() as int);
                if ignore_empty && tail.len() == 0 { Seq::empty() } else { seq![tail] }
            },
            Some((start, end)) => {
                let piece = v.subrange(cursor, start);
                let first = if ignore_empty && piece.len() == 0 { Seq::empty() } else { seq![piece] };
                if cursor <= start < end <= v.len() {
                    first + split_spec(v, ds, end, ignore_empty, case_insensitive)
                } else {
                    first
                }
            },
        }
    }
}

proof fn lemma_longest_bounds(v: Seq<char>, ds: Seq<Delimiter>, i: int, k: int, case_insensitive: bool)
    ensures
        longest_at(v, ds, i, k, case_insensitive) >= 0,
        longest_at(v, ds, i, k, case_insensitive) > 0 ==> i + longest_at(v, ds, i, k, case_insensitive) <= v.len() && 0 <= i,
    decreases k,
{
    if k > 0 {
        lemma_longest_bounds(v, ds, i, k - 1, case_insensitive);
    }
}

proof fn lemma_next_match_bounds(v: Seq<char>, ds: Seq<Delimiter>, from: int, case_insensitive: bool)
    ensures
        next_match_spec(v, ds, from, case_insensitive) matches Some((s, e)) ==> from <= s < e <= v.len(),
    decreases v.len() - from,
{
    if 0 <= from < v.len() {
        lemma_longest_bounds(v, ds, from, ds.len() as int, case_insensitive);
        if longest_at(v, ds, from, ds.len() as int, case_insensitive) <= 0 {
            lemma_next_match_bounds(v, ds, from + 1, case_insensitive);
        }
    }
}

/// Ignoring case only widens what matches: a delimiter that occurs at `i` with case respected
/// also occurs there when case is ignored.
pub proof fn lemma_exact_match_matches_ignoring_case(v: Seq<char>, d: Delimiter, i: int)
    ensures
        matches_at(v, d, i, false) ==> matches_at(v, d, i, true),
{
}

proof fn lemma_longest_is_greatest(v: Seq<char>, ds: Seq<Delimiter>, i: int, k: int, case_insensitive: bool)
    requires
        0 <= k <= ds.len(),
    ensures
        forall|j: int|
            0 <= j < k && #[trigger] matches_at(v, ds[j], i, case_insensitive)
                ==> ds[j].text_spec().len() <= longest_at(v, ds, i, k, case_insensitive),
        longest_at(v, ds, i, k, case_insensitive) > 0 ==> exists|j: int|
            0 <= j < k && #[trigger] matches_at(v, ds[j], i, case_insensitive)
                && ds[j].text_spec().len() == longest_at(v, ds, i, k, case_insensitive),
    decreases k,
{
    if k > 0 {
        lemma_longest_is_greatest(v, ds, i, k - 1, case_insensitive);
        lemma_longest_bounds(v, ds, i, k - 1, case_insensitive);
        let rest = longest_at(v, ds, i, k - 1, case_insensitive);
        let len = ds[k - 1].text_spec().len() as int;
        if matches_at(v, ds[k - 1], i, case_insensitive) && len > rest {
            assert(matches_at(v, ds[k - 1], i, case_insensitive) && ds[k - 1].text_spec().len() == len);
        } else if rest > 0 {
            let j = choose|j: int|
                0 <= j < k - 1 && #[trigger] matches_at(v, ds[j], i, case_insensitive)
                    && ds[j].text_spec().len() == rest;
            assert(0 <= j < k && matches_at(v, ds[j], i, case_insensitive) && ds[j].text_spec().len() == rest);
        }
    }
}

/// The search for the next separator finds the first position, at or after `from`, where a
/// delimiter occurs, and cuts there the longest delimiter occurring at that position, whatever the
/// order in which the delimiters are listed: some listed delimiter of exactly the cut's length
/// occurs there, none occurring there is longer, and no delimiter occurs at an earlier position.
/// Where it finds none, no delimiter occurs anywhere from `from` on.
pub proof fn lemma_next_match_is_first_longest(v: Seq<char>, ds: Seq<Delimiter>, from: int, case_insensitive: bool)
    requires
        0 <= from,
        forall|k: int| 0 <= k < ds.len() ==> #[trigger] ds[k].text_spec().len() > 0,
    ensures
        match next_match_spec(v, ds, from, case_insensitive) {
            Some((start, end)) => {
                &&& from <= start < end <= v.len()
                &&& exists|k: int|
                    0 <= k < ds.len() && #[trigger] matches_at(v, ds[k], start, case_insensitive)
                        && ds[k].text_spec().len() == end - start
                &&& forall|k: int|
                    0 <= k < ds.len() && #[trigger] matches_at(v, ds[k], start, case_insensitive)
                        ==> ds[k].text_spec().len() <= end - start
                &&& forall|p: int, k: int|
                    from <= p < start && 0 <= k < ds.len() ==> !#[trigger] matches_at(v, ds[k], p, case_insensitive)
            },
            None => forall|p: int, k: int|
                from <= p < v.len() && 0 <= k < ds.len() ==> !#[trigger] matches_at(v, ds[k], p, case_insensitive),
        },
    decreases v.len() - from,
{
    lemma_next_match_bounds(v, ds, from, case_insensitive);
    if from < v.len() {
        lemma_longest_is_greatest(v, ds, from, ds.len() as int, case_insensitive);
        lemma_longest_bounds(v, ds, from, ds.len() as int, case_insensitive);
        let len = longest_at(v, ds, from, ds.len() as int, case_insensitive);
        if len <= 0 {
            assert forall|k: int| 0 <= k < ds.len() implies !#[trigger] matches_at(v, ds[k], from, case_insensitive) by {
                assert(ds[k].text_spec().len() > 0);
            }
            lemma_next_match_is_first_longest(v, ds, from + 1, case_insensitive);
        }
    }
}

/// Whether a delimiter occurs at character `i`.
fn delimiter_matches(chars: &Vec<char>, d: &Delimiter, i: usize, case_insensitive: bool) -> (r: bool)
    requires
        i <= chars@.len(),
    ensures
        r == matches_at(chars@, *d, i as int, case_insensitive),
{
    let len = d.characters();
    if len > chars.len() - i {
        return false;
    }
    let end = i + len;
    if case_insensitive {
        let candidate = string_from_range(chars.as_slice(), i, end);
        let lowered = str_to_lowercase(candidate.as_str());
        let lowered_chars = chars_of(lowered.as_str());
        let folded = d.folded_chars();
        chars_equal(lowered_chars.as_slice(), folded.as_slice())
    } else {
        let own = chars_of(d.text());
        chars_equal(&chars.as_slice()[i..end], own.as_slice())
    }
}

/// Finds the first delimiter occurrence at or after `from`, charging `comparison_work` for each
/// position examined; a charge that fails stops the search with its error.
/// Whether `charge` can accept `work`.
pub open spec fn charge_accepted<F: Fn(u64) -> Result<(), ErrorKind>>(charge: F, work: u64) -> bool {
    exists|res: Result<(), ErrorKind>| res is Ok && call_ensures(charge, (work,), res)
}

/// Whether `charge` refuses `work` whenever it is asked.
pub open spec fn charge_refused<F: Fn(u64) -> Result<(), ErrorKind>>(charge: F, work: u64) -> bool {
    forall|res: Result<(), ErrorKind>| call_ensures(charge, (work,), res) ==> res is Err
}

fn next_match<F: Fn(u64) -> Result<(), ErrorKind>>(
    chars: &Vec<char>,
    delimiters: &[Delimiter],
    from: usize,
    case_insensitive: bool,
    comparison_work: u64,
    charge: &F,
) -> (r: Result<Option<(usize, usize)>, ErrorKind>)
    requires
        from <= chars@.len(),
        forall|w: u64| #[trigger] call_requires(*charge, (w,)),
    ensures
        match r {
            Ok(found) => match (found, next_match_spec(chars@, delimiters@, from as int, case_insensitive)) {
                (Some((s, e)), Some((a, b))) => s == a && e == b,
                (None, None) => true,
                _ => false,
            },
            Err(e) => call_ensures(*charge, (comparison_work,), Err::<(), ErrorKind>(e)),
        },
        from < chars@.len() && r is Ok ==> charge_accepted(*charge, comparison_work),
{
    let mut index = from;
    while index < chars.len()
        invariant
            from <= index <= chars@.len(),
            from < index ==> charge_accepted(*charge, comparison_work),
            forall|w: u64| #[trigger] call_requires(*charge, (w,)),
            next_match_spec(chars@, delimiters@, from as int, case_insensitive)
                == next_match_spec(chars@, delimiters@, index as int, case_insensitive),
        decreases chars@.len() - index,
    {
        let charged = charge(comparison_work);
        match charged {
            Ok(()) => {},
            Err(e) => return Err(e),
        }
        let mut best: usize = 0;
        let mut k: usize = 0;
        while k < delimiters.len()
            invariant
                index < chars@.len(),
                charge_accepted(*charge, comparison_work),
                k <= delimiters@.len(),
                best as int == longest_at(chars@, delimiters@, index as int, k as int, case_insensitive),
                best <= chars@.len(),
            decreases delimiters@.len() - k,
        {
            proof {
                lemma_longest_bounds(chars@, delimiters@, index as int, k + 1, case_insensitive);
            }
            if delimiter_matches(chars, &delimiters[k], index, case_insensitive) {
                let len = delimiters[k].characters();
                if len > best {
                    best = len;
                }
            }
            k = k + 1;
        }
        if best > 0 {
            proof {
                lemma_longest_bounds(chars@, delimiters@, index as int, delimiters@.len() as int, case_insensitive);
            }
            return Ok(Some((index, index + best)));
        }
        index = index + 1;
    }
    Ok(None)
}

fn push_piece(output: &mut Vec<String>, chars: &Vec<char>, start: usize, end: usize, ignore_empty: bool)
    requires
        start <= end <= chars@.len(),
    ensures
        final(output)@.map_values(|s: String| s@) == old(output)@.map_values(|s: String| s@) + if ignore_empty && start == end {
            Seq::<Seq<char>>::empty()
        } else {
            seq![chars@.subrange(start as int, end as int)]
        },
{
    let ghost before = output@.map_values(|s: String| s@);
    if !ignore_empty || start < end {
        let piece = string_from_range(chars.as_slice(), start, end);
        output.push(piece);
        assert(output@.map_values(|s: String| s@) =~= before + seq![chars@.subrange(start as int, end as int)]);
    } else {
        assert(output@.map_values(|s: String| s@) =~= before + Seq::<Seq<char>>::empty());
    }
}

/// Total comparison work of one position: the sum of the delimiter lengths.
pub open spec fn comparison_work_spec(ds: Seq<Delimiter>) -> int
    decreases ds.len(),
{
    if ds.len() == 0 {
        0
    } else {
        comparison_work_spec(ds.drop_last()) + ds.last().text_spec().len()
    }
}

/// Splits `text` at the longest delimiter occurring at each position, scanning from the start,
/// and leaves out empty pieces when `ignore_empty`; without delimiters the text is one piece.
///
/// Every examined position is charged the total length of the delimiters through `charge`, and
/// `poll` runs after each delimiter found; an error of either stops the split and is returned as
/// it is. A total length beyond `u64` is refused with `#NUM!`.
pub fn split<F: Fn(u64) -> Result<(), ErrorKind>, P: Fn() -> Result<(), ErrorKind>>(
    text: &str,
    delimiters: &[Delimiter],
    ignore_empty: bool,
    case_insensitive: bool,
    charge: &F,
    poll: &P,
) -> (r: Result<Vec<String>, ErrorKind>)
    requires
        forall|w: u64| #[trigger] call_requires(*charge, (w,)),
        call_requires(*poll, ()),
    ensures
        match r {
            Ok(pieces) => pieces@.map_values(|s: String| s@) == if delimiters@.len() == 0 {
                seq![text@]
            } else {
                split_spec(text@, delimiters@, 0, ignore_empty, case_insensitive)
            },
            Err(e) => {
                ||| (comparison_work_spec(delimiters@) > u64::MAX && e == ErrorKind::Num)
                ||| exists|w: u64| call_ensures(*charge, (w,), Err::<(), ErrorKind>(e))
                ||| call_ensures(*poll, (), Err::<(), ErrorKind>(e))
            },
        },
        charge_refused(*charge, comparison_work_spec(delimiters@) as u64) && delimiters@.len() > 0 && text@.len() > 0
            ==> r is Err,
{
    let mut output: Vec<String> = Vec::new();
    if delimiters.len() == 0 {
        let whole = chars_of(text);
        output.push(string_from_range(whole.as_slice(), 0, whole.len()));
        assert(whole@.subrange(0, whole@.len() as int) =~= text@);
        assert(output@.map_values(|s: String| s@) =~= seq![text@]);
        return Ok(output);
    }
    let mut comparison_work: u64 = 0;
    let mut k: usize = 0;
    while k < delimiters.len()
        invariant
            k <= delimiters@.len(),
            comparison_work as int == comparison_work_spec(delimiters@.take(k as int)),
        decreases delimiters@.len() - k,
    {
        assert(delimiters@.take(k + 1).drop_last() =~= delimiters@.take(k as int));
        let len = delimiters[k].characters() as u64;
        match comparison_work.checked_add(len) {
            Some(total) => comparison_work = total,
            None => {
                proof {
                    lemma_work_grows(delimiters@, k + 1);
                }
                return Err(ErrorKind::Num);
            },
        }
        k = k + 1;
    }
    assert(delimiters@.take(delimiters@.len() as int) =~= delimiters@);
    let chars = chars_of(text);
    let ghost v = chars@;
    let mut cursor: usize = 0;
    while cursor <= chars.len()
        invariant
            cursor <= chars@.len(),
            v == chars@,
            v == text@,
            delimiters@.len() > 0,
            forall|w: u64| #[trigger] call_requires(*charge, (w,)),
            call_requires(*poll, ()),
            split_spec(v, delimiters@, 0, ignore_empty, case_insensitive)
                == output@.map_values(|s: String| s@) + split_spec(v, delimiters@, cursor as int, ignore_empty, case_insensitive),
            comparison_work as int == comparison_work_spec(delimiters@),
            cursor > 0 ==> charge_accepted(*charge, comparison_work),
        decreases chars@.len() + 1 - cursor,
    {
        proof {
            lemma_next_match_bounds(v, delimiters@, cursor as int, case_insensitive);
        }
        match next_match(&chars, delimiters, cursor, case_insensitive, comparison_work, charge) {
            Err(e) => return Err(e),
            Ok(None) => {
                let ghost before = output@.map_values(|s: String| s@);
                push_piece(&mut output, &chars, cursor, chars.len(), ignore_empty);
                assert(split_spec(v, delimiters@, 0, ignore_empty, case_insensitive) == output@.map_values(|s: String| s@));
                return Ok(output);
            },
            Ok(Some((start, end))) => {
                match poll() {
                    Ok(()) => {},
                    Err(e) => return Err(e),
                }
                let ghost before = output@.map_values(|s: String| s@);
                push_piece(&mut output, &chars, cursor, start, ignore_empty);
                assert(before + split_spec(v, delimiters@, cursor as int, ignore_empty, case_insensitive)
                    =~= output@.map_values(|s: String| s@) + split_spec(v, delimiters@, end as int, ignore_empty, case_insensitive));
                cursor = end;
            },
        }
    }
    Ok(output)
}

proof fn lemma_work_grows(ds: Seq<Delimiter>, k: int)
    requires
        0 <= k <= ds.len(),
    ensures
        comparison_work_spec(ds.take(k)) <= comparison_work_spec(ds),
    decreases ds.len() - k,
{
    if k < ds.len() {
        lemma_work_grows(ds, k + 1);
        assert(ds.take(k + 1).drop_last() =~= ds.take(k));
    } else {
        assert(ds.take(k) =~= ds);
    }
}


/// The delimiter occurrences `split_spec` cuts `v` at from character `cursor` on, in order.
pub open spec fn separators_spec(v: Seq<char>, ds: Seq<Delimiter>, cursor: int, case_insensitive: bool) -> Seq<Seq<char>>
    decreases v.len() - cursor,
{
    if cursor < 0 || cursor > v.len() {
        Seq::empty()
    } else {
        match next_match_spec(v, ds, cursor, case_insensitive) {
            None => Seq::empty(),
            Some((start, end)) => if cursor <= start < end <= v.len() {
                seq![v.subrange(start, end)] + separators_spec(v, ds, end, case_insensitive)
            } else {
                Seq::empty()
            },
        }
    }
}

/// The pieces joined with the separators between them: piece, separator, piece, and so on.
pub open spec fn interleave(pieces: Seq<Seq<char>>, separators: Seq<Seq<char>>) -> Seq<char>
    decreases pieces.len(),
{
    if pieces.len() == 0 {
        Seq::empty()
    } else if separators.len() == 0 {
        pieces[0]
    } else {
        pieces[0] + separators[0] + interleave(pieces.drop_first(), separators.drop_first())
    }
}

/// Splitting without dropping empty pieces loses nothing: the pieces, joined with the delimiter
/// occurrences they were cut at, give back the text, and there is one piece more than there are
/// occurrences.
pub proof fn lemma_split_reconstructs(v: Seq<char>, ds: Seq<Delimiter>, cursor: int, case_insensitive: bool)
    requires
        0 <= cursor <= v.len(),
    ensures
        split_spec(v, ds, cursor, false, case_insensitive).len()
            == separators_spec(v, ds, cursor, case_insensitive).len() + 1,
        interleave(split_spec(v, ds, cursor, false, case_insensitive), separators_spec(v, ds, cursor, case_insensitive))
            == v.subrange(cursor, v.len() as int),
    decreases v.len() - cursor,
{
    lemma_next_match_bounds(v, ds, cursor, case_insensitive);
    let pieces = split_spec(v, ds, cursor, false, case_insensitive);
    let seps = separators_spec(v, ds, cursor, case_insensitive);
    match next_match_spec(v, ds, cursor, case_insensitive) {
        None => {
            assert(pieces == seq![v.subrange(cursor, v.len() as int)]);
            assert(seps.len() == 0);
        },
        Some((start, end)) => {
            lemma_split_reconstructs(v, ds, end, case_insensitive);
            let rest_p = split_spec(v, ds, end, false, case_insensitive);
            let rest_s = separators_spec(v, ds, end, case_insensitive);
            assert(pieces == seq![v.subrange(cursor, start)] + rest_p);
            assert(seps == seq![v.subrange(start, end)] + rest_s);
            assert(pieces.drop_first() =~= rest_p);
            assert(seps.drop_first() =~= rest_s);
            assert(pieces[0] == v.subrange(cursor, start));
            assert(seps[0] == v.subrange(start, end));
            assert(v.subrange(cursor, start) + v.subrange(start, end) + v.subrange(end, v.len() as int)
                =~= v.subrange(cursor, v.len() as int));
        },
    }
}

/// Splitting while ignoring empty pieces gives the pieces of the plain split, in order, with the
/// empty ones left out.
pub proof fn lemma_ignore_empty_drops_empty_pieces(v: Seq<char>, ds: Seq<Delimiter>, cursor: int, case_insensitive: bool)
    ensures
        split_spec(v, ds, cursor, true, case_insensitive)
            == split_spec(v, ds, cursor, false, case_insensitive).filter(|p: Seq<char>| p.len() > 0),
    decreases v.len() - cursor,
{
    let nonempty = |p: Seq<char>| p.len() > 0;
    if 0 <= cursor <= v.len() {
        lemma_next_match_bounds(v, ds, cursor, case_insensitive);
        match next_match_spec(v, ds, cursor, case_insensitive) {
            None => {
                let tail = v.subrange(cursor, v.len() as int);
                reveal_with_fuel(Seq::filter, 2);
                assert(seq![tail].drop_last() =~= Seq::<Seq<char>>::empty());
                assert(seq![tail].filter(nonempty) =~= (if tail.len() == 0 { Seq::empty() } else { seq![tail] }));
            },
            Some((start, end)) => {
                lemma_ignore_empty_drops_empty_pieces(v, ds, end, case_insensitive);
                let piece = v.subrange(cursor, start);
                let rest = split_spec(v, ds, end, false, case_insensitive);
                reveal_with_fuel(Seq::filter, 2);
                assert(seq![piece].drop_last() =~= Seq::<Seq<char>>::empty());
                assert(seq![piece].filter(nonempty) =~= (if piece.len() == 0 { Seq::empty() } else { seq![piece] }));
                Seq::filter_distributes_over_add(seq![piece], rest, nonempty);
            },
        }
    } else {
        reveal_with_fuel(Seq::filter, 1);
    }
}

/// The pieces of `v` at the delimiters `ds`, or `v` whole when there are none.
pub open spec fn split_or_whole(v: Seq<char>, ds: Seq<Delimiter>, ignore_empty: bool, case_insensitive: bool) -> Seq<Seq<char>> {
    if ds.len() == 0 {
        seq![v]
    } else {
        split_spec(v, ds, 0, ignore_empty, case_insensitive)
    }
}

/// The rows of `text` at the row delimiters, each split into cells at the column delimiters.
pub open spec fn split_grid(
    text: Seq<char>,
    columns: Seq<Delimiter>,
    rows: Seq<Delimiter>,
    ignore_empty: bool,
    case_insensitive: bool,
) -> Seq<Seq<Seq<char>>> {
    split_or_whole(text, rows, ignore_empty, case_insensitive).map_values(
        |row: Seq<char>| split_or_whole(row, columns, ignore_empty, case_insensitive),
    )
}

/// The number of cells of the longest row of `grid`.
pub open spec fn widest(grid: Seq<Seq<Seq<char>>>) -> nat
    decreases grid.len(),
{
    if grid.len() == 0 {
        0
    } else {
        let w = widest(grid.drop_last());
        if grid.last().len() > w { grid.last().len() } else { w }
    }
}

/// The number of padding cells that fill the rows of `grid` to `width`.
pub open spec fn padding_count(grid: Seq<Seq<Seq<char>>>, width: nat) -> int
    decreases grid.len(),
{
    if grid.len() == 0 {
        0
    } else {
        padding_count(grid.drop_last(), width) + (width - grid.last().len())
    }
}

/// The cells of `grid` row by row, each row filled to `width` with `padding`.
pub open spec fn padded_cells(grid: Seq<Seq<Seq<char>>>, width: nat, padding: CellValueModel) -> Seq<CellValueModel>
    decreases grid.len(),
{
    if grid.len() == 0 {
        Seq::empty()
    } else {
        padded_cells(grid.drop_last(), width, padding) + grid.last().map_values(|t: Seq<char>| CellValueModel::Text(t))
            + Seq::new((width - grid.last().len()) as nat, |j: int| padding)
    }
}

/// The views of the cells of split rows.
pub open spec fn grid_view(grid: Seq<Vec<String>>) -> Seq<Seq<Seq<char>>> {
    grid.map_values(|row: Vec<String>| row@.map_values(|s: String| s@))
}

proof fn lemma_widest_bounds(grid: Seq<Seq<Seq<char>>>)
    ensures
        forall|i: int| 0 <= i < grid.len() ==> (#[trigger] grid[i]).len() <= widest(grid),
    decreases grid.len(),
{
    if grid.len() > 0 {
        lemma_widest_bounds(grid.drop_last());
        assert forall|i: int| 0 <= i < grid.len() implies (#[trigger] grid[i]).len() <= widest(grid) by {
            if i < grid.len() - 1 {
                assert(grid[i] == grid.drop_last()[i]);
            }
        }
    }
}

proof fn lemma_padding_count_bound(grid: Seq<Seq<Seq<char>>>, width: nat)
    requires
        forall|i: int| 0 <= i < grid.len() ==> (#[trigger] grid[i]).len() <= width,
    ensures
        0 <= padding_count(grid, width) <= grid.len() * width,
    decreases grid.len(),
{
    if grid.len() > 0 {
        assert forall|i: int| 0 <= i < grid.len() - 1 implies (#[trigger] grid.drop_last()[i]).len() <= width by {
            assert(grid.drop_last()[i] == grid[i]);
        }
        lemma_padding_count_bound(grid.drop_last(), width);
        assert(grid.last().len() <= width);
        let n = grid.len();
        assert((n - 1) * width + width == n * width) by (nonlinear_arith);
    }
}

/// Whether `charge`, `poll` and `ensure_cells` can fail with `e`.
pub open spec fn hook_failure<F: Fn(u64) -> Result<(), ErrorKind>, P: Fn() -> Result<(), ErrorKind>, C: Fn(u64) -> Result<(), ErrorKind>>(
    charge: F,
    poll: P,
    ensure_cells: C,
    e: ErrorKind,
) -> bool {
    ||| exists|w: u64| call_ensures(charge, (w,), Err::<(), ErrorKind>(e))
    ||| call_ensures(poll, (), Err::<(), ErrorKind>(e))
    ||| exists|w: u64| call_ensures(ensure_cells, (w,), Err::<(), ErrorKind>(e))
}

/// Lays `text` out as the array `TEXTSPLIT` returns: the rows at `rows`, each split into cells at
/// `columns`, filled row-major and padded to the longest row with `padding`.
///
/// With no delimiter at all the request is refused with `#VALUE!`; a padding value that is an
/// engine-side error is returned as it is; no row or no cell gives `#CALC!`; more rows or
/// columns than `u32` holds, or padding work beyond `u64`, gives `#NUM!`. Splitting is charged
/// through `charge` and polled through `poll`; the array's cell count is checked by
/// `ensure_cells` and charged, and so are the bytes of text padding.
pub fn text_split_array<
    F: Fn(u64) -> Result<(), ErrorKind>,
    P: Fn() -> Result<(), ErrorKind>,
    C: Fn(u64) -> Result<(), ErrorKind>,
>(
    text: &str,
    columns: &[Delimiter],
    rows: &[Delimiter],
    ignore_empty: bool,
    case_insensitive: bool,
    padding: &CellValue,
    charge: &F,
    poll: &P,
    ensure_cells: &C,
) -> (r: Result<Array, ErrorKind>)
    requires
        forall|w: u64| #[trigger] call_requires(*charge, (w,)),
        forall|w: u64| #[trigger] call_requires(*ensure_cells, (w,)),
        call_requires(*poll, ()),
    ensures
        ({
            let grid = split_grid(text@, columns@, rows@, ignore_empty, case_insensitive);
            let width = widest(grid);
            let no_delimiters = columns@.len() == 0 && rows@.len() == 0;
            let engine_padding = padding@ matches CellValueModel::Error(k) && k.is_engine_issue_spec();
            match r {
                Ok(a) => {
                    &&& !no_delimiters
                    &&& !engine_padding
                    &&& grid.len() > 0
                    &&& width > 0
                    &&& a.rows == grid.len()
                    &&& a.cols == width
                    &&& a.data@.map_values(|v: CellValue| v@) == padded_cells(grid, width, padding@)
                },
                Err(e) => {
                    ||| no_delimiters && e == ErrorKind::Value
                    ||| !no_delimiters && engine_padding && padding@ == CellValueModel::Error(e)
                    ||| !no_delimiters && !engine_padding && e == ErrorKind::Calc && (grid.len() == 0 || width == 0)
                    ||| !no_delimiters && !engine_padding && e == ErrorKind::Num && ({
                        ||| comparison_work_spec(rows@) > u64::MAX
                        ||| comparison_work_spec(columns@) > u64::MAX
                        ||| grid.len() > u32::MAX
                        ||| width > u32::MAX
                        ||| padding@ matches CellValueModel::Text(t)
                            && padding_count(grid, width) * byte_offset(t, t.len() as int) > u64::MAX
                    })
                    ||| hook_failure(*charge, *poll, *ensure_cells, e)
                },
            }
        }),
        charge_refused(*charge, comparison_work_spec(rows@) as u64) && rows@.len() > 0 && text@.len() > 0 ==> r is Err,
        r matches Ok(a) ==> charge_accepted(*charge, (a.rows as int * a.cols as int) as u64),
{
    if columns.len() == 0 && rows.len() == 0 {
        return Err(ErrorKind::Value);
    }
    match padding {
        CellValue::Error(kind) => {
            if kind.is_engine_issue() {
                return Err(*kind);
            }
        },
        _ => {},
    }
    let ghost t = text@;
    let ghost full = split_grid(t, columns@, rows@, ignore_empty, case_insensitive);
    let row_texts = match split(text, rows, ignore_empty, case_insensitive, charge, poll) {
        Ok(pieces) => pieces,
        Err(e) => return Err(e),
    };
    let ghost row_views = row_texts@.map_values(|s: String| s@);
    assert(row_views == split_or_whole(t, rows@, ignore_empty, case_insensitive));
    let mut grid: Vec<Vec<String>> = Vec::new();
    let mut width: usize = 0;
    let mut i: usize = 0;
    while i < row_texts.len()
        invariant
            i <= row_texts@.len(),
            row_views == row_texts@.map_values(|s: String| s@),
            full.len() == row_views.len(),
            forall|j: int| 0 <= j < full.len() ==> #[trigger] full[j]
                == split_or_whole(row_views[j], columns@, ignore_empty, case_insensitive),
            grid_view(grid@) == full.take(i as int),
            width == widest(full.take(i as int)),
            !(columns@.len() == 0 && rows@.len() == 0),
            !(padding@ matches CellValueModel::Error(k) && k.is_engine_issue_spec()),
            forall|w: u64| #[trigger] call_requires(*charge, (w,)),
            call_requires(*poll, ()),
        decreases row_texts@.len() - i,
    {
        match poll() {
            Ok(()) => {},
            Err(e) => return Err(e),
        }
        let cells = match split(row_texts[i].as_str(), columns, ignore_empty, case_insensitive, charge, poll) {
            Ok(pieces) => pieces,
            Err(e) => return Err(e),
        };
        let ghost before = grid@;
        assert(row_texts@[i as int]@ == row_views[i as int]);
        assert(cells@.map_values(|s: String| s@) == full[i as int]);
        if cells.len() > width {
            width = cells.len();
        }
        grid.push(cells);
        proof {
            assert(full.take(i + 1).drop_last() =~= full.take(i as int));
            assert(grid_view(grid@) =~= full.take(i + 1));
        }
        i = i + 1;
    }
    assert(full.take(full.len() as int) =~= full);
    assert(grid_view(grid@) == full);
    if grid.len() == 0 || width == 0 {
        return Err(ErrorKind::Calc);
    }
    if grid.len() > 4294967295usize || width > 4294967295usize {
        return Err(ErrorKind::Num);
    }
    let row_count = grid.len() as u32;
    let column_count = width as u32;
    assert((row_count as int) * (column_count as int) <= 4294967295 * 4294967295) by (nonlinear_arith)
        requires
            row_count <= 4294967295,
            column_count <= 4294967295,
    ;
    let cells = row_count as u64 * column_count as u64;
    match ensure_cells(cells) {
        Ok(()) => {},
        Err(e) => return Err(e),
    }
    match charge(cells) {
        Ok(()) => {},
        Err(e) => return Err(e),
    }
    assert(charge_accepted(*charge, cells));
    proof {
        lemma_widest_bounds(full);
        lemma_padding_count_bound(full, width as nat);
    }
    let mut padding_cells: u64 = 0;
    let mut i: usize = 0;
    while i < grid.len()
        invariant
            i <= grid@.len(),
            grid_view(grid@) == full,
            width == widest(full),
            cells == full.len() * width,
            forall|j: int| 0 <= j < full.len() ==> (#[trigger] full[j]).len() <= width,
            0 <= padding_count(full, width as nat) <= full.len() * width,
            padding_cells == padding_count(full.take(i as int), width as nat),
            padding_count(full.take(i as int), width as nat) <= full.take(i as int).len() * width,
        decreases grid@.len() - i,
    {
        assert(full.take(i + 1).drop_last() =~= full.take(i as int));
        assert(grid@[i as int]@.len() == full[i as int].len());
        proof {
            let n = i as int;
            assert(n * width + width <= full.len() * width) by (nonlinear_arith)
                requires
                    n < full.len(),
                    width >= 0,
            ;
            assert forall|j: int| 0 <= j < full.take(i + 1).len() implies (#[trigger] full.take(i + 1)[j]).len() <= width by {
                assert(full.take(i + 1)[j] == full[j]);
            }
            lemma_padding_count_bound(full.take(i + 1), width as nat);
        }
        padding_cells = padding_cells + (width - grid[i].len()) as u64;
        i = i + 1;
    }
    assert(full.take(full.len() as int) =~= full);
    match padding {
        CellValue::Text(pad) => {
            let pad_str = pad.as_str();
            proof {
                lemma_str_len_is_byte_offset(pad_str);
            }
            let pad_bytes = pad_str.as_bytes().len() as u64;
            match padding_cells.checked_mul(pad_bytes) {
                Some(total) => {
                    match charge(total) {
                        Ok(()) => {},
                        Err(e) => return Err(e),
                    }
                },
                None => return Err(ErrorKind::Num),
            }
        },
        _ => {},
    }
    let mut data: Vec<CellValue> = Vec::new();
    let mut i: usize = 0;
    while i < grid.len()
        invariant
            i <= grid@.len(),
            grid_view(grid@) == full,
            width == widest(full),
            forall|j: int| 0 <= j < full.len() ==> (#[trigger] full[j]).len() <= width,
            data@.map_values(|v: CellValue| v@) == padded_cells(full.take(i as int), width as nat, padding@),
        decreases grid@.len() - i,
    {
        let row = &grid[i];
        let ghost row_view = full[i as int];
        assert(row@.map_values(|s: String| s@) == row_view);
        let ghost start = data@.map_values(|v: CellValue| v@);
        let mut k: usize = 0;
        while k < row.len()
            invariant
                k <= row@.len(),
                row@.map_values(|s: String| s@) == row_view,
                data@.map_values(|v: CellValue| v@) == start + row_view.take(k as int).map_values(|t: Seq<char>| CellValueModel::Text(t)),
            decreases row@.len() - k,
        {
            let cell = row[k].clone();
            assert(row@[k as int]@ == row_view[k as int]);
            assert(cell@ == row_view[k as int]);
            let ghost before = data@.map_values(|v: CellValue| v@);
            data.push(CellValue::Text(cell));
            assert(data@.map_values(|v: CellValue| v@) =~= before.push(CellValueModel::Text(row_view[k as int])));
            assert(row_view.take(k + 1) =~= row_view.take(k as int).push(row_view[k as int]));
            assert(row_view.take(k + 1).map_values(|t: Seq<char>| CellValueModel::Text(t)) =~= row_view.take(k as int).map_values(
                |t: Seq<char>| CellValueModel::Text(t),
            ).push(CellValueModel::Text(row_view[k as int])));
            assert(data@.map_values(|v: CellValue| v@) =~= start + row_view.take(k + 1).map_values(|t: Seq<char>| CellValueModel::Text(t)));
            k = k + 1;
        }
        assert(row_view.take(row_view.len() as int) =~= row_view);
        let ghost mid = data@.map_values(|v: CellValue| v@);
        let fill = width - row.len();
        let mut m: usize = 0;
        while m < fill
            invariant
                m <= fill,
                data@.map_values(|v: CellValue| v@) == mid + Seq::new(m as nat, |j: int| padding@),
            decreases fill - m,
        {
            let ghost before = data@.map_values(|v: CellValue| v@);
            let copy = padding.duplicate();
            data.push(copy);
            assert(data@.map_values(|v: CellValue| v@) =~= before.push(padding@));
            assert(data@.map_values(|v: CellValue| v@) =~= mid + Seq::new((m + 1) as nat, |j: int| padding@));
            m = m + 1;
        }
        proof {
            assert(full.take(i + 1).drop_last() =~= full.take(i as int));
            assert(full.take(i + 1).last() == row_view);
            assert(data@.map_values(|v: CellValue| v@) =~= padded_cells(full.take(i + 1), width as nat, padding@));
        }
        i = i + 1;
    }
    assert(full.take(full.len() as int) =~= full);
    Ok(Array { rows: row_count, cols: column_count, data })
}

/// The options `TEXTSPLIT` reads after its delimiters: whether to drop empty pieces, whether to
/// ignore case, and the value that pads short rows.
#[derive(Debug)]
pub struct TextSplitOptions {
    pub ignore_empty: bool,
    pub case_insensitive: bool,
    pub padding: CellValue,
}

/// Whether `TEXTSPLIT` accepts `count` arguments: between two and six.
pub fn text_split_arity_ok(count: usize) -> (r: bool)
    ensures
        r == (2 <= count <= 6),
{
    2 <= count && count <= 6
}

/// Reads the options of `TEXTSPLIT` from its evaluated optional arguments, `None` where an
/// argument is omitted: `ignore_empty` as the argument's logical value (false when omitted), the
/// match mode truncated to an integer (0 matches case, 1 ignores it, anything else gives
/// `#VALUE!`; 0 when omitted), and the padding value (`#N/A` when omitted). An argument that
/// failed to evaluate passes its error on, in that order; a padding value that is an engine-side
/// error is returned as the error.
pub fn text_split_options(
    ignore_empty: Option<Result<bool, ErrorKind>>,
    match_mode: Option<Result<i64, ErrorKind>>,
    padding: Option<CellValue>,
) -> (r: Result<TextSplitOptions, ErrorKind>)
    ensures
        ignore_empty matches Some(Err(e)) ==> r matches Err(x) && x == e,
        !(ignore_empty matches Some(Err(_))) ==> {
            let ignore = match ignore_empty { Some(Ok(b)) => b, _ => false };
            match match_mode {
                Some(Err(e)) => r matches Err(x) && x == e,
                Some(Ok(m)) if m != 0 && m != 1 => r matches Err(x) && x == ErrorKind::Value,
                _ => {
                    let fold = match_mode matches Some(Ok(m)) && m == 1;
                    match padding {
                        Some(CellValue::Error(k)) if k.is_engine_issue_spec() => r matches Err(x) && x == k,
                        _ => r matches Ok(o) && o.ignore_empty == ignore && o.case_insensitive == fold
                            && o.padding@ == match padding {
                                None => CellValueModel::Error(ErrorKind::NA),
                                Some(v) => v@,
                            },
                    }
                },
            }
        },
{
    let ignore = match ignore_empty {
        None => false,
        Some(Ok(b)) => b,
        Some(Err(e)) => return Err(e),
    };
    let fold = match match_mode {
        None => false,
        Some(Ok(0)) => false,
        Some(Ok(1)) => true,
        Some(Ok(_)) => return Err(ErrorKind::Value),
        Some(Err(e)) => return Err(e),
    };
    let pad = match padding {
        None => CellValue::Error(ErrorKind::NA),
        Some(v) => v,
    };
    if let CellValue::Error(kind) = &pad {
        if kind.is_engine_issue() {
            return Err(*kind);
        }
    }
    Ok(TextSplitOptions { ignore_empty: ignore, case_insensitive: fold, padding: pad })
}

} // verus!
