//! Character mapping and delimiter search used by the text functions.
use vstd::prelude::*;
use vstd::string::StringSliceAdditionalSpecFns;

use crate::limits::CalculationLimitKind;
use crate::value::ErrorKind;
use crate::text::{
    byte_offset, char_offsets, chars_equal, chars_of, is_ascii_digit, lemma_str_len_is_byte_offset, lowercase_chars,
    push_char, str_to_lowercase, string_from_range, char_lowercase, char_to_lowercase, char_uppercase, char_to_uppercase,
    char_is_alphanumeric, is_alphanumeric_char,
};

verus! {

/// The Windows-1252 character for a byte, or `None` for the five bytes it leaves undefined.
pub open spec fn cp1252_spec(code: u8) -> Option<char> {
    if code == 0x80 { Some('\u{20AC}') }
    else if code == 0x82 { Some('\u{201A}') }
    else if code == 0x83 { Some('\u{0192}') }
    else if code == 0x84 { Some('\u{201E}') }
    else if code == 0x85 { Some('\u{2026}') }
    else if code == 0x86 { Some('\u{2020}') }
    else if code == 0x87 { Some('\u{2021}') }
    else if code == 0x88 { Some('\u{02C6}') }
    else if code == 0x89 { Some('\u{2030}') }
    else if code == 0x8A { Some('\u{0160}') }
    else if code == 0x8B { Some('\u{2039}') }
    else if code == 0x8C { Some('\u{0152}') }
    else if code == 0x8E { Some('\u{017D}') }
    else if code == 0x91 { Some('\u{2018}') }
    else if code == 0x92 { Some('\u{2019}') }
    else if code == 0x93 { Some('\u{201C}') }
    else if code == 0x94 { Some('\u{201D}') }
    else if code == 0x95 { Some('\u{2022}') }
    else if code == 0x96 { Some('\u{2013}') }
    else if code == 0x97 { Some('\u{2014}') }
    else if code == 0x98 { Some('\u{02DC}') }
    else if code == 0x99 { Some('\u{2122}') }
    else if code == 0x9A { Some('\u{0161}') }
    else if code == 0x9B { Some('\u{203A}') }
    else if code == 0x9C { Some('\u{0153}') }
    else if code == 0x9E { Some('\u{017E}') }
    else if code == 0x9F { Some('\u{0178}') }
    else if code == 0x81 || code == 0x8D || code == 0x8F || code == 0x90 || code == 0x9D { None }
    else { Some(code as char) }
}

/// The character `CHAR` returns for a code: the Windows-1252 mapping of the byte.
pub fn cp1252_character(code: u8) -> (r: Option<char>)
    ensures
        r == cp1252_spec(code),
{
    let c = match code {
        0x80 => '\u{20AC}',
        0x82 => '\u{201A}',
        0x83 => '\u{0192}',
        0x84 => '\u{201E}',
        0x85 => '\u{2026}',
        0x86 => '\u{2020}',
        0x87 => '\u{2021}',
        0x88 => '\u{02C6}',
        0x89 => '\u{2030}',
        0x8A => '\u{0160}',
        0x8B => '\u{2039}',
        0x8C => '\u{0152}',
        0x8E => '\u{017D}',
        0x91 => '\u{2018}',
        0x92 => '\u{2019}',
        0x93 => '\u{201C}',
        0x94 => '\u{201D}',
        0x95 => '\u{2022}',
        0x96 => '\u{2013}',
        0x97 => '\u{2014}',
        0x98 => '\u{02DC}',
        0x99 => '\u{2122}',
        0x9A => '\u{0161}',
        0x9B => '\u{203A}',
        0x9C => '\u{0153}',
        0x9E => '\u{017E}',
        0x9F => '\u{0178}',
        0x81 | 0x8D | 0x8F | 0x90 | 0x9D => return None,
        _ => code as char,
    };
    Some(c)
}

/// Whether the characters of `text` at `index` match `delimiter`, compared after lowercasing both
/// when `fold` is set.
pub open spec fn segment_matches(text: Seq<char>, index: int, delimiter: Seq<char>, fold: bool) -> bool {
    let segment = text.subrange(index, index + delimiter.len());
    if fold {
        lowercase_chars(segment) == lowercase_chars(delimiter)
    } else {
        segment == delimiter
    }
}

/// Byte spans of the non-overlapping matches of `delimiter` in `text` at or after character
/// `index`, leftmost first.
pub open spec fn matches_from(text: Seq<char>, delimiter: Seq<char>, fold: bool, index: int) -> Seq<(usize, usize)>
    decreases text.len() - index,
{
    if delimiter.len() == 0 || index < 0 || index + delimiter.len() > text.len() {
        Seq::empty()
    } else if segment_matches(text, index, delimiter, fold) {
        seq![(byte_offset(text, index) as usize, byte_offset(text, index + delimiter.len()) as usize)]
            + matches_from(text, delimiter, fold, index + delimiter.len())
    } else {
        matches_from(text, delimiter, fold, index + 1)
    }
}

/// The empty span at every character boundary of `text`, its end included.
pub open spec fn boundary_spans(text: Seq<char>) -> Seq<(usize, usize)> {
    Seq::new(text.len() + 1, |i: int| (byte_offset(text, i) as usize, byte_offset(text, i) as usize))
}

/// Byte spans of the non-overlapping, leftmost-first matches of `delimiter` in `text`; with
/// `case_insensitive` each candidate is lowercased before it is compared with the lowercased
/// delimiter, which must then not be empty. An empty delimiter matches, case-sensitively, at
/// every character boundary. Offsets are those of the initial text.
pub fn text_matches(text: &str, delimiter: &str, case_insensitive: bool) -> (r: Vec<(usize, usize)>)
    requires
        case_insensitive ==> delimiter@.len() > 0,
    ensures
        r@ == if delimiter@.len() == 0 {
            boundary_spans(text@)
        } else {
            matches_from(text@, delimiter@, case_insensitive, 0)
        },
{
    let chars = chars_of(text);
    let delim = chars_of(delimiter);
    let ghost t = text@;
    proof {
        lemma_str_len_is_byte_offset(text);
    }
    let total = text.as_bytes().len();
    assert(total == byte_offset(t, t.len() as int));
    let offsets = char_offsets(chars.as_slice());
    let folded = if case_insensitive { chars_of(str_to_lowercase(delimiter).as_str()) } else { Vec::new() };
    let d = delim.len();
    let n = chars.len();
    let mut out: Vec<(usize, usize)> = Vec::new();
    if d == 0 {
        let mut i: usize = 0;
        while i < n
            invariant
                i <= n,
                n == t.len(),
                offsets@.len() == n + 1,
                forall|j: int| 0 <= j <= n ==> #[trigger] offsets@[j] == byte_offset(t, j),
                out@ == boundary_spans(t).take(i as int),
            decreases n + 1 - i,
        {
            out.push((offsets[i], offsets[i]));
            assert(out@ =~= boundary_spans(t).take(i + 1));
            i = i + 1;
        }
        out.push((offsets[n], offsets[n]));
        assert(out@ =~= boundary_spans(t));
        return out;
    }
    let mut index: usize = 0;
    while d <= n - index
        invariant
            chars@ == t,
            delim@ == delimiter@,
            d == delim@.len(),
            d > 0,
            n == t.len(),
            index <= n,
            offsets@.len() == n + 1,
            forall|i: int| 0 <= i <= n ==> #[trigger] offsets@[i] == byte_offset(t, i),
            case_insensitive ==> folded@ == lowercase_chars(delimiter@),
            out@ + matches_from(t, delimiter@, case_insensitive, index as int)
                == matches_from(t, delimiter@, case_insensitive, 0),
        decreases n - index,
    {
        let found = if case_insensitive {
            let segment = string_from_range(chars.as_slice(), index, index + d);
            let lowered = str_to_lowercase(segment.as_str());
            let lowered_chars = chars_of(lowered.as_str());
            chars_equal(lowered_chars.as_slice(), folded.as_slice())
        } else {
            let mut same = true;
            let mut k: usize = 0;
            assert(t.subrange(index as int, index as int) =~= delim@.take(0));
            while k < d
                invariant
                    chars@ == t,
                    delim@ == delimiter@,
                    d == delim@.len(),
                    index + d <= n,
                    n == t.len(),
                    k <= d,
                    same == (t.subrange(index as int, index + k) == delim@.take(k as int)),
                decreases d - k,
            {
                if same && chars[index + k] != delim[k] {
                    same = false;
                    assert(t.subrange(index as int, index + k + 1)[k as int] != delim@.take(k + 1)[k as int]);
                } else if same {
                    assert(t.subrange(index as int, index + k + 1) =~= t.subrange(index as int, index + k).push(chars@[index + k]));
                    assert(delim@.take(k + 1) =~= delim@.take(k as int).push(delim@[k as int]));
                } else {
                    proof {
                        assert(t.subrange(index as int, index + k) != delim@.take(k as int));
                        if t.subrange(index as int, index + k + 1) == delim@.take(k + 1) {
                            assert(t.subrange(index as int, index + k) =~= t.subrange(index as int, index + k + 1).take(k as int));
                            assert(delim@.take(k as int) =~= delim@.take(k + 1).take(k as int));
                        }
                    }
                }
                k = k + 1;
            }
            assert(delim@.take(d as int) =~= delim@);
            same
        };
        assert(found == segment_matches(t, index as int, delimiter@, case_insensitive));
        if found {
            let start = offsets[index];
            let end = offsets[index + d];
            let ghost before = out@;
            out.push((start, end));
            proof {
                assert(out@ =~= before + seq![(start, end)]);
                assert(seq![(start, end)] + matches_from(t, delimiter@, case_insensitive, index + d)
                    == matches_from(t, delimiter@, case_insensitive, index as int));
                assert((before + seq![(start, end)]) + matches_from(t, delimiter@, case_insensitive, index + d)
                    =~= before + (seq![(start, end)] + matches_from(t, delimiter@, case_insensitive, index + d)));
            }
            index = index + d;
        } else {
            index = index + 1;
        }
    }
    assert(matches_from(t, delimiter@, case_insensitive, index as int) =~= Seq::<(usize, usize)>::empty());
    assert(out@ =~= out@ + Seq::<(usize, usize)>::empty());
    out
}

/// The byte span `TEXTBEFORE` and `TEXTAFTER` split at: the `instance`-th match of `delimiter`
/// (counted from the end when negative), with the text's ends counting as matches when
/// `match_end` is set. An empty delimiter matches at the start, or at the end for a negative
/// instance.
pub open spec fn text_boundary_spec(
    text: Seq<char>,
    delimiter: Seq<char>,
    instance: i64,
    case_insensitive: bool,
    match_end: bool,
) -> Option<(usize, usize)> {
    let len = byte_offset(text, text.len() as int) as usize;
    if delimiter.len() == 0 {
        Some(if instance > 0 { (0usize, 0usize) } else { (len, len) })
    } else {
        let found = matches_from(text, delimiter, case_insensitive, 0);
        let spans = if match_end {
            if instance > 0 { found.push((len, len)) } else { seq![(0usize, 0usize)] + found }
        } else {
            found
        };
        let index = if instance > 0 { instance - 1 } else { spans.len() + instance };
        if 0 <= index < spans.len() { Some(spans[index]) } else { None }
    }
}

/// Finds the byte span `TEXTBEFORE` and `TEXTAFTER` split at.
pub fn find_text_boundary(
    text: &str,
    delimiter: &str,
    instance: i64,
    case_insensitive: bool,
    match_end: bool,
) -> (r: Option<(usize, usize)>)
    ensures
        r == text_boundary_spec(text@, delimiter@, instance, case_insensitive, match_end),
{
    proof {
        lemma_str_len_is_byte_offset(text);
    }
    let len = text.as_bytes().len();
    if delimiter.is_empty() {
        return Some(if instance > 0 { (0, 0) } else { (len, len) });
    }
    let mut spans = text_matches(text, delimiter, case_insensitive);
    if match_end {
        if instance > 0 {
            spans.push((len, len));
        } else {
            spans.insert(0, (0, 0));
        }
    }
    let ghost expected = if match_end {
        if instance > 0 {
            matches_from(text@, delimiter@, case_insensitive, 0).push((len, len))
        } else {
            seq![(0usize, 0usize)] + matches_from(text@, delimiter@, case_insensitive, 0)
        }
    } else {
        matches_from(text@, delimiter@, case_insensitive, 0)
    };
    assert(spans@ =~= expected);
    if instance > 0 {
        let index = (instance - 1) as u64;
        if index < spans.len() as u64 {
            Some(spans[index as usize])
        } else {
            None
        }
    } else {
        let back = if instance == i64::MIN { 0x8000_0000_0000_0000u64 } else { (-instance) as u64 };
        if back <= spans.len() as u64 && (spans.len() as u64 - back) < spans.len() as u64 {
            Some(spans[(spans.len() as u64 - back) as usize])
        } else {
            None
        }
    }
}

/// Index of the first exponent marker `e` or `E`, or the length when there is none.
pub open spec fn exponent_position(v: Seq<char>) -> int
    decreases v.len(),
{
    if v.len() == 0 {
        0
    } else if v[0] == 'e' || v[0] == 'E' {
        0
    } else {
        1 + exponent_position(v.drop_first())
    }
}

/// Index of the first `c`, or the length when there is none.
pub open spec fn char_position(v: Seq<char>, c: char) -> int
    decreases v.len(),
{
    if v.len() == 0 {
        0
    } else if v[0] == c {
        0
    } else {
        1 + char_position(v.drop_first(), c)
    }
}

/// Whether `u` is one to three ASCII digits followed by at least one group of a comma and
/// three ASCII digits.
pub open spec fn grouped_digits(u: Seq<char>) -> bool {
    let n = u.len() as int;
    let first = n % 4;
    &&& n >= 4
    &&& first != 0
    &&& forall|i: int| 0 <= i < n ==> if i >= first && (i - first) % 4 == 0 {
        #[trigger] u[i] == ','
    } else {
        crate::text::is_ascii_digit_char(u[i])
    }
}

/// `u` without its commas.
pub open spec fn without_commas(u: Seq<char>) -> Seq<char>
    decreases u.len(),
{
    if u.len() == 0 {
        Seq::empty()
    } else if u.last() == ',' {
        without_commas(u.drop_last())
    } else {
        without_commas(u.drop_last()).push(u.last())
    }
}

/// Whether every character is an ASCII digit.
pub open spec fn all_digits(v: Seq<char>) -> bool {
    forall|i: int| 0 <= i < v.len() ==> crate::text::is_ascii_digit_char(#[trigger] v[i])
}

/// A number written with thousands separators, rewritten without them; unchanged when it has no
/// comma, and `None` when its commas do not separate groups of three digits in the integer part
/// or the fraction is empty or not all digits.
pub open spec fn normalize_grouped_spec(v: Seq<char>) -> Option<Seq<char>> {
    if !v.contains(',') {
        Some(v)
    } else {
        let e = exponent_position(v);
        let mantissa = v.take(e);
        let exponent = v.skip(e);
        let d = char_position(mantissa, '.');
        let integer = mantissa.take(d);
        let signed = integer.len() > 0 && (integer[0] == '+' || integer[0] == '-');
        let sign = if signed { integer.take(1) } else { Seq::<char>::empty() };
        let unsigned = if signed { integer.skip(1) } else { integer };
        let fraction_ok = d >= mantissa.len() || (mantissa.len() > d + 1 && all_digits(mantissa.skip(d + 1)));
        let fraction = if d < mantissa.len() { seq!['.'] + mantissa.skip(d + 1) } else { Seq::<char>::empty() };
        if grouped_digits(unsigned) && fraction_ok {
            Some(sign + without_commas(unsigned) + fraction + exponent)
        } else {
            None
        }
    }
}

proof fn lemma_exponent_position(v: Seq<char>)
    ensures
        0 <= exponent_position(v) <= v.len(),
        forall|i: int| 0 <= i < exponent_position(v) ==> v[i] != 'e' && v[i] != 'E',
        exponent_position(v) < v.len() ==> (v[exponent_position(v)] == 'e' || v[exponent_position(v)] == 'E'),
    decreases v.len(),
{
    if v.len() > 0 && v[0] != 'e' && v[0] != 'E' {
        lemma_exponent_position(v.drop_first());
        assert forall|i: int| 0 <= i < exponent_position(v) implies v[i] != 'e' && v[i] != 'E' by {
            if i > 0 {
                assert(v[i] == v.drop_first()[i - 1]);
            }
        }
    }
}

proof fn lemma_char_position(v: Seq<char>, c: char)
    ensures
        0 <= char_position(v, c) <= v.len(),
        forall|i: int| 0 <= i < char_position(v, c) ==> v[i] != c,
        char_position(v, c) < v.len() ==> v[char_position(v, c)] == c,
    decreases v.len(),
{
    if v.len() > 0 && v[0] != c {
        lemma_char_position(v.drop_first(), c);
        assert forall|i: int| 0 <= i < char_position(v, c) implies v[i] != c by {
            if i > 0 {
                assert(v[i] == v.drop_first()[i - 1]);
            }
        }
    }
}

fn contains_char(chars: &[char], c: char) -> (r: bool)
    ensures
        r == chars@.contains(c),
{
    let mut k: usize = 0;
    while k < chars.len()
        invariant
            k <= chars@.len(),
            forall|j: int| 0 <= j < k ==> chars@[j] != c,
        decreases chars@.len() - k,
    {
        if chars[k] == c {
            return true;
        }
        k = k + 1;
    }
    false
}

fn exponent_index(chars: &[char]) -> (r: usize)
    ensures
        r == exponent_position(chars@),
{
    let mut e: usize = 0;
    while e < chars.len() && chars[e] != 'e' && chars[e] != 'E'
        invariant
            e <= chars@.len(),
            forall|i: int| 0 <= i < e ==> chars@[i] != 'e' && chars@[i] != 'E',
        decreases chars@.len() - e,
    {
        e = e + 1;
    }
    proof {
        lemma_exponent_position(chars@);
        let p = exponent_position(chars@);
        if p < e {
            assert(chars@[p] != 'e' && chars@[p] != 'E');
        } else if e < p {
            assert(chars@[e as int] == 'e' || chars@[e as int] == 'E');
        }
    }
    e
}

fn char_index(chars: &[char], end: usize, c: char) -> (r: usize)
    requires
        end <= chars@.len(),
    ensures
        r == char_position(chars@.take(end as int), c),
{
    let ghost v = chars@.take(end as int);
    let mut d: usize = 0;
    while d < end && chars[d] != c
        invariant
            d <= end <= chars@.len(),
            v == chars@.take(end as int),
            forall|i: int| 0 <= i < d ==> v[i] != c,
        decreases end - d,
    {
        d = d + 1;
    }
    proof {
        lemma_char_position(v, c);
        let p = char_position(v, c);
        if p < d {
            assert(v[p] != c);
        } else if d < p {
            assert(v[d as int] == c);
        }
    }
    d
}

fn check_grouped(chars: &[char], start: usize, end: usize) -> (r: bool)
    requires
        start <= end <= chars@.len(),
    ensures
        r == grouped_digits(chars@.subrange(start as int, end as int)),
{
    let ghost u = chars@.subrange(start as int, end as int);
    let len = end - start;
    if len < 4 || len % 4 == 0 {
        return false;
    }
    let first = len % 4;
    let mut i: usize = 0;
    while i < len
        invariant
            i <= len == end - start,
            start <= end <= chars@.len(),
            u == chars@.subrange(start as int, end as int),
            first == len % 4,
            forall|j: int| 0 <= j < i ==> if j >= first && (j - first) % 4 == 0 {
                #[trigger] u[j] == ','
            } else {
                crate::text::is_ascii_digit_char(u[j])
            },
        decreases len - i,
    {
        let c = chars[start + i];
        assert(c == u[i as int]);
        if i >= first && (i - first) % 4 == 0 {
            if c != ',' {
                return false;
            }
        } else if !is_ascii_digit(c) {
            return false;
        }
        i = i + 1;
    }
    true
}

fn check_digits(chars: &[char], start: usize, end: usize) -> (r: bool)
    requires
        start <= end <= chars@.len(),
    ensures
        r == all_digits(chars@.subrange(start as int, end as int)),
{
    let ghost u = chars@.subrange(start as int, end as int);
    let mut f: usize = start;
    while f < end
        invariant
            start <= f <= end <= chars@.len(),
            u == chars@.subrange(start as int, end as int),
            forall|j: int| 0 <= j < f - start ==> crate::text::is_ascii_digit_char(#[trigger] u[j]),
        decreases end - f,
    {
        if !is_ascii_digit(chars[f]) {
            assert(u[f - start] == chars@[f as int]);
            return false;
        }
        f = f + 1;
    }
    true
}

fn push_range(out: &mut String, chars: &[char], start: usize, end: usize)
    requires
        start <= end <= chars@.len(),
    ensures
        final(out)@ == old(out)@ + chars@.subrange(start as int, end as int),
{
    let ghost before = out@;
    let mut x: usize = start;
    while x < end
        invariant
            start <= x <= end <= chars@.len(),
            out@ == before + chars@.subrange(start as int, x as int),
        decreases end - x,
    {
        push_char(out, chars[x]);
        x = x + 1;
        assert(out@ =~= before + chars@.subrange(start as int, x as int));
    }
}

fn push_without_commas(out: &mut String, chars: &[char], start: usize, end: usize)
    requires
        start <= end <= chars@.len(),
    ensures
        final(out)@ == old(out)@ + without_commas(chars@.subrange(start as int, end as int)),
{
    let ghost before = out@;
    let ghost u = chars@.subrange(start as int, end as int);
    let mut j: usize = start;
    while j < end
        invariant
            start <= j <= end <= chars@.len(),
            u == chars@.subrange(start as int, end as int),
            out@ == before + without_commas(u.take(j - start)),
        decreases end - j,
    {
        let c = chars[j];
        assert(u.take(j - start + 1).drop_last() =~= u.take(j - start));
        assert(u.take(j - start + 1).last() == c);
        if c != ',' {
            push_char(out, c);
        }
        j = j + 1;
        assert(out@ =~= before + without_commas(u.take(j - start)));
    }
    assert(u.take(end - start) =~= u);
}

/// Rewrites a number written with thousands separators without them.
pub fn normalize_grouped_number(value: &str) -> (r: Option<String>)
    ensures
        match r {
            Some(s) => normalize_grouped_spec(value@) == Some(s@),
            None => normalize_grouped_spec(value@) is None,
        },
{
    let chars = chars_of(value);
    let ghost v = value@;
    let n = chars.len();
    if !contains_char(chars.as_slice(), ',') {
        let copy = string_from_range(chars.as_slice(), 0, n);
        assert(v.subrange(0, n as int) =~= v);
        return Some(copy);
    }
    let e = exponent_index(chars.as_slice());
    proof {
        lemma_exponent_position(v);
    }
    let d = char_index(chars.as_slice(), e, '.');
    let ghost mantissa = v.take(e as int);
    proof {
        lemma_char_position(mantissa, '.');
    }
    let ghost integer = mantissa.take(d as int);
    let signed = d > 0 && (chars[0] == '+' || chars[0] == '-');
    let start: usize = if signed { 1 } else { 0 };
    let ghost unsigned = if signed { integer.skip(1) } else { integer };
    let ghost sign = if signed { integer.take(1) } else { Seq::<char>::empty() };
    assert(unsigned =~= v.subrange(start as int, d as int));
    let ghost fraction = if d < mantissa.len() { seq!['.'] + mantissa.skip(d + 1) } else { Seq::<char>::empty() };
    let grouped = check_grouped(chars.as_slice(), start, d);
    let fraction_ok = if d < e {
        d + 1 < e && check_digits(chars.as_slice(), d + 1, e)
    } else {
        true
    };
    assert(d < e ==> v.subrange(d + 1, e as int) =~= mantissa.skip(d + 1));
    if !grouped || !fraction_ok {
        return None;
    }
    let mut out = String::new();
    if signed {
        push_char(&mut out, chars[0]);
    }
    assert(out@ =~= sign);
    push_without_commas(&mut out, chars.as_slice(), start, d);
    if d < e {
        push_char(&mut out, '.');
        push_range(&mut out, chars.as_slice(), d + 1, e);
    }
    assert(out@ =~= sign + without_commas(unsigned) + fraction);
    push_range(&mut out, chars.as_slice(), e, n);
    assert(v.subrange(e as int, n as int) =~= v.skip(e as int));
    Some(out)
}

/// Output size of replacing `replacements` occurrences of an `old_bytes`-byte text with a
/// `new_bytes`-byte text in a `source_bytes`-byte text, when every step fits in `usize`.
pub open spec fn replacement_output_spec(source_bytes: int, old_bytes: int, new_bytes: int, replacements: int) -> Option<int> {
    let removed = old_bytes * replacements;
    let added = new_bytes * replacements;
    if removed > usize::MAX || removed > source_bytes || added > usize::MAX
        || source_bytes - removed + added > usize::MAX {
        None
    } else {
        Some(source_bytes - removed + added)
    }
}

/// Returns the output size of a text replacement, or `None` when it does not fit in `usize`.
pub fn replacement_output_bytes(source_bytes: usize, old_bytes: usize, new_bytes: usize, replacements: usize) -> (r: Option<usize>)
    ensures
        match r {
            Some(n) => replacement_output_spec(source_bytes as int, old_bytes as int, new_bytes as int, replacements as int)
                == Some(n as int),
            None => replacement_output_spec(source_bytes as int, old_bytes as int, new_bytes as int, replacements as int)
                is None,
        },
{
    let removed = match old_bytes.checked_mul(replacements) {
        Some(v) => v,
        None => return None,
    };
    let kept = match source_bytes.checked_sub(removed) {
        Some(v) => v,
        None => return None,
    };
    let added = match new_bytes.checked_mul(replacements) {
        Some(v) => v,
        None => return None,
    };
    kept.checked_add(added)
}

/// The characters compared by a search and, for each, the index of the initial character it
/// came from: each character itself, or its lowercase mapping when the search ignores case.
pub open spec fn comparison_form_spec(v: Seq<char>, case_sensitive: bool) -> (Seq<char>, Seq<int>)
    decreases v.len(),
{
    if v.len() == 0 {
        (Seq::empty(), Seq::empty())
    } else {
        let rest = comparison_form_spec(v.drop_last(), case_sensitive);
        let piece = if case_sensitive { seq![v.last()] } else { char_lowercase(v.last()) };
        (rest.0 + piece, rest.1 + Seq::new(piece.len(), |k: int| v.len() - 1))
    }
}

/// Returns the characters a search compares and the initial index of each, folding case one
/// character at a time so that every position maps back exactly.
pub fn comparison_form(text: &str, case_sensitive: bool) -> (r: (Vec<char>, Vec<usize>))
    ensures
        r.0@ == comparison_form_spec(text@, case_sensitive).0,
        r.1@.len() == comparison_form_spec(text@, case_sensitive).1.len(),
        forall|i: int| 0 <= i < r.1@.len() ==> #[trigger] r.1@[i] as int == comparison_form_spec(text@, case_sensitive).1[i],
{
    let chars = chars_of(text);
    let ghost v = text@;
    let mut characters: Vec<char> = Vec::new();
    let mut origins: Vec<usize> = Vec::new();
    let mut index: usize = 0;
    while index < chars.len()
        invariant
            index <= chars@.len(),
            chars@ == v,
            characters@ == comparison_form_spec(v.take(index as int), case_sensitive).0,
            origins@.len() == comparison_form_spec(v.take(index as int), case_sensitive).1.len(),
            forall|i: int| 0 <= i < origins@.len() ==> #[trigger] origins@[i] as int
                == comparison_form_spec(v.take(index as int), case_sensitive).1[i],
        decreases chars@.len() - index,
    {
        let c = chars[index];
        let ghost prefix = v.take(index as int);
        let ghost longer = v.take(index + 1);
        assert(longer.drop_last() =~= prefix);
        assert(longer.last() == c);
        let ghost before_origins = origins@;
        let ghost expected = comparison_form_spec(longer, case_sensitive);
        if case_sensitive {
            characters.push(c);
            origins.push(index);
        } else {
            let lowered = char_to_lowercase(c);
            let mut k: usize = 0;
            let ghost start_chars = characters@;
            while k < lowered.len()
                invariant
                    k <= lowered@.len(),
                    lowered@ == char_lowercase(c),
                    characters@ == start_chars + lowered@.take(k as int),
                    origins@.len() == before_origins.len() + k,
                    forall|i: int| 0 <= i < before_origins.len() ==> #[trigger] origins@[i] == before_origins[i],
                    forall|i: int| before_origins.len() <= i < origins@.len() ==> #[trigger] origins@[i] == index,
                decreases lowered@.len() - k,
            {
                characters.push(lowered[k]);
                origins.push(index);
                k = k + 1;
                assert(characters@ =~= start_chars + lowered@.take(k as int));
            }
            assert(lowered@.take(lowered@.len() as int) =~= lowered@);
        }
        proof {
            assert(characters@ =~= expected.0);
            assert forall|i: int| 0 <= i < origins@.len() implies #[trigger] origins@[i] as int == expected.1[i] by {
                if i >= before_origins.len() {
                    assert(expected.1[i] == index as int);
                }
            }
        }
        index = index + 1;
    }
    assert(v.take(chars@.len() as int) =~= v);
    (characters, origins)
}

/// Title case: each alphanumeric character that follows a character that is not alphanumeric
/// (or starts the text) is uppercased, every other alphanumeric character is lowercased, and
/// the rest are kept.
pub open spec fn proper_spec(v: Seq<char>) -> Seq<char>
    decreases v.len(),
{
    if v.len() == 0 {
        Seq::empty()
    } else {
        let c = v.last();
        let capitalize = v.len() == 1 || !is_alphanumeric_char(v[v.len() - 2]);
        proper_spec(v.drop_last()) + if !is_alphanumeric_char(c) {
            seq![c]
        } else if capitalize {
            char_uppercase(c)
        } else {
            char_lowercase(c)
        }
    }
}

fn push_all_chars(out: &mut String, chars: &Vec<char>)
    ensures
        final(out)@ == old(out)@ + chars@,
{
    let ghost before = out@;
    let mut k: usize = 0;
    while k < chars.len()
        invariant
            k <= chars@.len(),
            out@ == before + chars@.take(k as int),
        decreases chars@.len() - k,
    {
        push_char(out, chars[k]);
        k = k + 1;
        assert(out@ =~= before + chars@.take(k as int));
    }
    assert(chars@.take(chars@.len() as int) =~= chars@);
}

/// Capitalizes the first alphanumeric character of every word and lowercases the rest.
pub fn proper(text: &str) -> (r: String)
    ensures
        r@ == proper_spec(text@),
{
    let chars = chars_of(text);
    let ghost v = text@;
    let mut out = String::new();
    let mut capitalize = true;
    let mut index: usize = 0;
    while index < chars.len()
        invariant
            index <= chars@.len(),
            chars@ == v,
            out@ == proper_spec(v.take(index as int)),
            capitalize == (index == 0 || !is_alphanumeric_char(v[index - 1])),
        decreases chars@.len() - index,
    {
        let c = chars[index];
        let ghost longer = v.take(index + 1);
        assert(longer.drop_last() =~= v.take(index as int));
        assert(longer.last() == c);
        assert(index > 0 ==> longer[longer.len() - 2] == v[index - 1]);
        if char_is_alphanumeric(c) {
            let mapped = if capitalize { char_to_uppercase(c) } else { char_to_lowercase(c) };
            push_all_chars(&mut out, &mapped);
            capitalize = false;
        } else {
            push_char(&mut out, c);
            capitalize = true;
        }
        index = index + 1;
    }
    assert(v.take(chars@.len() as int) =~= v);
    out
}

/// The words of `v`, the runs of characters other than the space, joined by single spaces.
pub open spec fn trim_spaces_spec(v: Seq<char>) -> Seq<char>
    decreases v.len(),
{
    if v.len() == 0 {
        Seq::empty()
    } else {
        let rest = trim_spaces_spec(v.drop_last());
        let c = v.last();
        if c == ' ' {
            rest
        } else if v.len() >= 2 && v[v.len() - 2] == ' ' && rest.len() > 0 {
            rest + seq![' ', c]
        } else {
            rest.push(c)
        }
    }
}

/// Removes leading and trailing spaces and collapses every run of spaces to one, as `TRIM`
/// does; other whitespace is kept.
pub fn trim_excel(text: &str) -> (r: String)
    ensures
        r@ == trim_spaces_spec(text@),
        r@ == join_with_spaces(non_empty_pieces(space_pieces(text@))),
        space_normalized(r@),
        trim_spaces_spec(r@) == r@,
{
    proof {
        lemma_trim_excel_normalizes(text@);
        lemma_trim_excel_joins_pieces(text@);
    }
    let chars = chars_of(text);
    let ghost v = text@;
    let mut out = String::new();
    let mut any_word = false;
    let mut index: usize = 0;
    while index < chars.len()
        invariant
            index <= chars@.len(),
            chars@ == v,
            out@ == trim_spaces_spec(v.take(index as int)),
            any_word == (out@.len() > 0),
        decreases chars@.len() - index,
    {
        let c = chars[index];
        let ghost longer = v.take(index + 1);
        assert(longer.drop_last() =~= v.take(index as int));
        assert(longer.last() == c);
        if c != ' ' {
            if index > 0 && chars[index - 1] == ' ' && any_word {
                assert(longer[longer.len() - 2] == v[index - 1]);
                push_char(&mut out, ' ');
            } else {
                assert(index > 0 ==> longer[longer.len() - 2] == v[index - 1]);
            }
            push_char(&mut out, c);
            any_word = true;
            assert(out@ =~= trim_spaces_spec(longer));
        }
        index = index + 1;
    }
    assert(v.take(chars@.len() as int) =~= v);
    out
}


/// Whether `w` neither starts nor ends with a space and holds no two spaces in a row.
pub open spec fn space_normalized(w: Seq<char>) -> bool {
    &&& w.len() > 0 ==> w[0] != ' ' && w.last() != ' '
    &&& forall|i: int| 0 <= i < w.len() - 1 ==> !(#[trigger] w[i] == ' ' && w[i + 1] == ' ')
}

proof fn lemma_trim_spaces_normalized(v: Seq<char>)
    ensures
        space_normalized(trim_spaces_spec(v)),
    decreases v.len(),
{
    if v.len() > 0 {
        lemma_trim_spaces_normalized(v.drop_last());
        let rest = trim_spaces_spec(v.drop_last());
        let c = v.last();
        let t = trim_spaces_spec(v);
        if c != ' ' {
            if v.len() >= 2 && v[v.len() - 2] == ' ' && rest.len() > 0 {
                assert(t == rest + seq![' ', c]);
                assert forall|i: int| 0 <= i < t.len() - 1 implies !(#[trigger] t[i] == ' ' && t[i + 1] == ' ') by {
                    if i < rest.len() - 1 {
                        assert(t[i] == rest[i] && t[i + 1] == rest[i + 1]);
                    } else if i == rest.len() - 1 {
                        assert(t[i] == rest.last());
                    }
                }
            } else {
                assert(t == rest.push(c));
                assert forall|i: int| 0 <= i < t.len() - 1 implies !(#[trigger] t[i] == ' ' && t[i + 1] == ' ') by {
                    if i < rest.len() - 1 {
                        assert(t[i] == rest[i] && t[i + 1] == rest[i + 1]);
                    }
                }
            }
        }
    }
}

/// `w` without a final space.
pub open spec fn without_final_space(w: Seq<char>) -> Seq<char> {
    if w.len() > 0 && w.last() == ' ' { w.drop_last() } else { w }
}

proof fn lemma_trim_spaces_fixed(w: Seq<char>)
    requires
        w.len() > 0 ==> w[0] != ' ',
        forall|i: int| 0 <= i < w.len() - 1 ==> !(#[trigger] w[i] == ' ' && w[i + 1] == ' '),
    ensures
        trim_spaces_spec(w) == without_final_space(w),
    decreases w.len(),
{
    if w.len() > 0 {
        let u = w.drop_last();
        assert forall|i: int| 0 <= i < u.len() - 1 implies !(#[trigger] u[i] == ' ' && u[i + 1] == ' ') by {
            assert(u[i] == w[i] && u[i + 1] == w[i + 1]);
        }
        lemma_trim_spaces_fixed(u);
        let c = w.last();
        if u.len() > 0 {
            assert(u[0] == w[0]);
            assert(!(w[u.len() - 1] == ' ' && w[u.len() as int] == ' '));
        }
        if c == ' ' {
            assert(u.len() > 0);
            assert(without_final_space(u) == u);
        } else if w.len() >= 2 && w[w.len() - 2] == ' ' && trim_spaces_spec(u).len() > 0 {
            assert(u.last() == ' ');
            assert(trim_spaces_spec(u) == u.drop_last());
            assert(u.drop_last() + seq![' ', c] =~= w);
        } else {
            if u.len() > 0 && u.last() == ' ' {
                assert(u.len() >= 2);
                assert(w[w.len() - 2] == ' ');
                assert(trim_spaces_spec(u).len() == u.len() - 1);
            }
            assert(u.push(c) =~= w);
        }
    }
}

/// `TRIM` leaves no leading or trailing space and no two spaces in a row, and trimming its
/// result again changes nothing.
pub proof fn lemma_trim_excel_normalizes(v: Seq<char>)
    ensures
        space_normalized(trim_spaces_spec(v)),
        trim_spaces_spec(trim_spaces_spec(v)) == trim_spaces_spec(v),
{
    lemma_trim_spaces_normalized(v);
    let t = trim_spaces_spec(v);
    lemma_trim_spaces_fixed(t);
}

/// The pieces of `v` between its spaces, as splitting at every space gives them: one more piece
/// than there are spaces, empty pieces included.
pub open spec fn space_pieces(v: Seq<char>) -> Seq<Seq<char>>
    decreases v.len(),
{
    if v.len() == 0 {
        seq![Seq::empty()]
    } else {
        let rest = space_pieces(v.drop_last());
        if v.last() == ' ' {
            rest.push(Seq::empty())
        } else {
            rest.update(rest.len() - 1, rest.last().push(v.last()))
        }
    }
}

/// The non-empty pieces of `pieces`, in order.
pub open spec fn non_empty_pieces(pieces: Seq<Seq<char>>) -> Seq<Seq<char>>
    decreases pieces.len(),
{
    if pieces.len() == 0 {
        Seq::empty()
    } else {
        let rest = non_empty_pieces(pieces.drop_last());
        if pieces.last().len() > 0 { rest.push(pieces.last()) } else { rest }
    }
}

/// `words` joined by single spaces.
pub open spec fn join_with_spaces(words: Seq<Seq<char>>) -> Seq<char>
    decreases words.len(),
{
    if words.len() == 0 {
        Seq::empty()
    } else if words.len() == 1 {
        words[0]
    } else {
        join_with_spaces(words.drop_last()) + seq![' '] + words.last()
    }
}

proof fn lemma_space_pieces_shape(v: Seq<char>)
    ensures
        space_pieces(v).len() >= 1,
        space_pieces(v).last().len() == 0 <==> (v.len() == 0 || v.last() == ' '),
    decreases v.len(),
{
    if v.len() > 0 {
        lemma_space_pieces_shape(v.drop_last());
    }
}

proof fn lemma_join_empty(words: Seq<Seq<char>>)
    requires
        forall|i: int| 0 <= i < words.len() ==> (#[trigger] words[i]).len() > 0,
    ensures
        join_with_spaces(words).len() == 0 <==> words.len() == 0,
    decreases words.len(),
{
    if words.len() > 1 {
        assert(words.last() == words[words.len() - 1]);
    } else if words.len() == 1 {
        assert(words[0].len() > 0);
    }
}

proof fn lemma_non_empty_pieces_nonempty(pieces: Seq<Seq<char>>)
    ensures
        forall|i: int| 0 <= i < non_empty_pieces(pieces).len() ==> (#[trigger] non_empty_pieces(pieces)[i]).len() > 0,
    decreases pieces.len(),
{
    if pieces.len() > 0 {
        lemma_non_empty_pieces_nonempty(pieces.drop_last());
        let rest = non_empty_pieces(pieces.drop_last());
        if pieces.last().len() > 0 {
            assert forall|i: int| 0 <= i < rest.push(pieces.last()).len()
                implies (#[trigger] rest.push(pieces.last())[i]).len() > 0 by {
                if i < rest.len() {
                    assert(rest.push(pieces.last())[i] == rest[i]);
                }
            }
        }
    }
}

/// `TRIM` keeps exactly the non-empty pieces of the text split at every space, joined by single
/// spaces; tabs and other whitespace stay inside the pieces.
pub proof fn lemma_trim_excel_joins_pieces(v: Seq<char>)
    ensures
        trim_spaces_spec(v) == join_with_spaces(non_empty_pieces(space_pieces(v))),
    decreases v.len(),
{
    if v.len() == 0 {
        let p = space_pieces(v);
        assert(p == seq![Seq::<char>::empty()]);
        assert(p.drop_last() =~= Seq::<Seq<char>>::empty());
        assert(non_empty_pieces(p) == non_empty_pieces(p.drop_last()));
    } else {
        let u = v.drop_last();
        let c = v.last();
        lemma_trim_excel_joins_pieces(u);
        lemma_space_pieces_shape(u);
        let pu = space_pieces(u);
        let pv = space_pieces(v);
        let wu = non_empty_pieces(pu);
        lemma_non_empty_pieces_nonempty(pu);
        lemma_join_empty(wu);
        if c == ' ' {
            assert(pv == pu.push(Seq::<char>::empty()));
            assert(pv.drop_last() =~= pu);
            assert(non_empty_pieces(pv) == wu);
            assert(trim_spaces_spec(v) == trim_spaces_spec(u));
        } else {
            let x = pu.last().push(c);
            assert(pv == pu.update(pu.len() - 1, x));
            assert(pv.drop_last() =~= pu.drop_last());
            assert(pv.last() == x);
            let base = non_empty_pieces(pu.drop_last());
            assert(non_empty_pieces(pv) == base.push(x));
            if pu.last().len() == 0 {
                assert(wu == base);
                if base.len() > 0 {
                    assert(base.push(x).drop_last() =~= base);
                    assert(u.len() > 0 && u.last() == ' ');
                    assert(v[v.len() - 2] == u.last());
                    assert(join_with_spaces(base.push(x)) == join_with_spaces(base) + seq![' '] + x);
                    assert(x =~= seq![c]);
                    assert(join_with_spaces(base) + seq![' '] + x =~= join_with_spaces(base) + seq![' ', c]);
                    assert(trim_spaces_spec(u).len() > 0);
                    assert(trim_spaces_spec(v) == trim_spaces_spec(u) + seq![' ', c]);
                } else {
                    assert(x =~= seq![c]);
                    assert(join_with_spaces(base.push(x)) == x);
                    if v.len() >= 2 {
                        assert(v[v.len() - 2] == u.last());
                    }
                    assert(trim_spaces_spec(u).len() == 0);
                    assert(trim_spaces_spec(v) =~= seq![c]);
                }
            } else {
                assert(wu == base.push(pu.last()));
                assert(u.len() > 0 && u.last() != ' ');
                assert(v[v.len() - 2] == u.last());
                assert(base.push(x).drop_last() =~= base);
                assert(base.push(pu.last()).drop_last() =~= base);
                if base.len() > 0 {
                    assert(join_with_spaces(base.push(x)) == join_with_spaces(base) + seq![' '] + x);
                    assert(join_with_spaces(base.push(pu.last())) == join_with_spaces(base) + seq![' '] + pu.last());
                    assert(join_with_spaces(base.push(x)) =~= join_with_spaces(wu).push(c));
                } else {
                    assert(join_with_spaces(base.push(x)) == x);
                    assert(join_with_spaces(base.push(pu.last())) == pu.last());
                }
                assert(trim_spaces_spec(v) == trim_spaces_spec(u).push(c));
            }
        }
    }
}

/// The first index at or after `i` whose origin is at or after character `start`: where a search
/// that starts at `start` of the initial text starts in the compared characters.
pub open spec fn first_origin_at(origins: Seq<int>, start: int, i: int) -> int
    decreases origins.len() - i,
{
    if i < 0 || i >= origins.len() || origins[i] >= start {
        i
    } else {
        first_origin_at(origins, start, i + 1)
    }
}

/// The first index at or after `i` where `target` occurs in `source`.
pub open spec fn first_window(source: Seq<char>, target: Seq<char>, i: int) -> Option<int>
    decreases source.len() + 1 - i,
{
    if i < 0 || i + target.len() > source.len() {
        None
    } else if source.subrange(i, i + target.len()) == target {
        Some(i)
    } else {
        first_window(source, target, i + 1)
    }
}

/// The 1-based character position at which `needle` first occurs in `haystack` at or after
/// character `start` (0-based), compared exactly or ignoring case; `None` when it does not occur
/// there or `start` is past the end. An empty needle is found at `start`.
pub open spec fn find_position_spec(haystack: Seq<char>, needle: Seq<char>, start: int, case_sensitive: bool) -> Option<int> {
    let source = comparison_form_spec(haystack, case_sensitive).0;
    let origins = comparison_form_spec(haystack, case_sensitive).1;
    let target = comparison_form_spec(needle, case_sensitive).0;
    if start > haystack.len() {
        None
    } else if target.len() == 0 {
        Some(start + 1)
    } else {
        match first_window(source, target, first_origin_at(origins, start, 0)) {
            None => None,
            Some(k) => Some(origins[k] + 1),
        }
    }
}

/// The origin list of a comparison form has one entry per compared character.
proof fn lemma_comparison_form_lengths(v: Seq<char>, case_sensitive: bool)
    ensures
        comparison_form_spec(v, case_sensitive).0.len() == comparison_form_spec(v, case_sensitive).1.len(),
        forall|i: int| 0 <= i < comparison_form_spec(v, case_sensitive).1.len()
            ==> 0 <= #[trigger] comparison_form_spec(v, case_sensitive).1[i] < v.len(),
    decreases v.len(),
{
    if v.len() > 0 {
        lemma_comparison_form_lengths(v.drop_last(), case_sensitive);
    }
}

/// Whether `target` occurs in `source` at `k`.
fn window_matches(source: &Vec<char>, k: usize, target: &Vec<char>) -> (r: bool)
    requires
        k + target@.len() <= source@.len(),
    ensures
        r == (source@.subrange(k as int, k + target@.len()) == target@),
{
    let mut j: usize = 0;
    while j < target.len()
        invariant
            j <= target@.len(),
            k + target@.len() <= source@.len(),
            forall|m: int| 0 <= m < j ==> source@[k + m] == #[trigger] target@[m],
        decreases target.len() - j,
    {
        let n = source.len();
        assert(k + j < n);
        let at = k + j;
        if source[at] != target[j] {
            assert(source@.subrange(k as int, k + target@.len())[j as int] != target@[j as int]);
            return false;
        }
        j = j + 1;
    }
    assert(source@.subrange(k as int, k + target@.len()) =~= target@);
    true
}

/// Returns the 1-based character position at which `needle` first occurs in `haystack` at or
/// after character `start` (0-based), as `FIND` (exact) and `SEARCH` (ignoring case) report it;
/// `None`, which those functions answer with `#VALUE!`, when it does not occur there or `start`
/// is past the end. Case is folded one character at a time, so the position counts characters
/// of the initial text.
pub fn find_position(haystack: &str, needle: &str, start: usize, case_sensitive: bool) -> (r: Option<usize>)
    requires
        haystack@.len() < usize::MAX,
    ensures
        match (r, find_position_spec(haystack@, needle@, start as int, case_sensitive)) {
            (Some(p), Some(q)) => p as int == q,
            (None, None) => true,
            _ => false,
        },
{
    let (source, origins) = comparison_form(haystack, case_sensitive);
    let (target, _) = comparison_form(needle, case_sensitive);
    let ghost origin_spec = comparison_form_spec(haystack@, case_sensitive).1;
    proof {
        lemma_comparison_form_lengths(haystack@, case_sensitive);
    }
    let haystack_chars = chars_of(haystack);
    let source_length = haystack_chars.len();
    if start > source_length {
        return None;
    }
    if target.len() == 0 {
        return Some(start + 1);
    }
    let mut folded_start: usize = 0;
    while folded_start < origins.len() && origins[folded_start] < start
        invariant
            folded_start <= origins@.len(),
            origins@.len() == origin_spec.len(),
            forall|i: int| 0 <= i < origins@.len() ==> #[trigger] origins@[i] as int == origin_spec[i],
            first_origin_at(origin_spec, start as int, 0) == first_origin_at(origin_spec, start as int, folded_start as int),
        decreases origins.len() - folded_start,
    {
        folded_start = folded_start + 1;
    }
    assert(first_origin_at(origin_spec, start as int, folded_start as int) == folded_start as int);
    let mut k = folded_start;
    while k <= source.len() && target.len() <= source.len() - k
        invariant
            folded_start <= k,
            source@.len() == origins@.len(),
            source@ == comparison_form_spec(haystack@, case_sensitive).0,
            target@ == comparison_form_spec(needle@, case_sensitive).0,
            target@.len() > 0,
            first_origin_at(origin_spec, start as int, 0) == folded_start as int,
            first_window(source@, target@, folded_start as int) == first_window(source@, target@, k as int),
            origins@.len() == origin_spec.len(),
            forall|i: int| 0 <= i < origins@.len() ==> #[trigger] origins@[i] as int == origin_spec[i],
            forall|i: int| 0 <= i < origin_spec.len() ==> 0 <= #[trigger] origin_spec[i] < haystack@.len(),
            source_length == haystack@.len(),
            origin_spec == comparison_form_spec(haystack@, case_sensitive).1,
            start <= source_length,
        decreases source.len() - k,
    {
        if window_matches(&source, k, &target) {
            let origin = origins[k];
            assert(origin < source_length);
            return Some(origin + 1);
        }
        k = k + 1;
    }
    None
}


/// Whether `old` occurs in `text` at character `i`.
pub open spec fn occurs_at(text: Seq<char>, old: Seq<char>, i: int) -> bool {
    0 <= i && i + old.len() <= text.len() && text.subrange(i, i + old.len()) == old
}

/// `text` from character `i` on, with each non-overlapping, leftmost-first occurrence of the
/// non-empty `old` replaced by `new`.
pub open spec fn replace_all_from(text: Seq<char>, old: Seq<char>, new: Seq<char>, i: int) -> Seq<char>
    decreases text.len() - i,
{
    if i < 0 || i >= text.len() || old.len() == 0 {
        if 0 <= i < text.len() { text.subrange(i, text.len() as int) } else { Seq::empty() }
    } else if occurs_at(text, old, i) {
        new + replace_all_from(text, old, new, i + old.len())
    } else {
        seq![text[i]] + replace_all_from(text, old, new, i + 1)
    }
}

/// The number of non-overlapping, leftmost-first occurrences of the non-empty `old` in `text`
/// from character `i` on.
pub open spec fn occurrences_from(text: Seq<char>, old: Seq<char>, i: int) -> nat
    decreases text.len() - i,
{
    if i < 0 || i >= text.len() || old.len() == 0 {
        0
    } else if occurs_at(text, old, i) {
        1 + occurrences_from(text, old, i + old.len())
    } else {
        occurrences_from(text, old, i + 1)
    }
}

/// Where the occurrence numbered `n` (from zero) of the non-empty `old` in `text` starts, counting
/// non-overlapping, leftmost-first occurrences from character `i` on.
pub open spec fn nth_occurrence_from(text: Seq<char>, old: Seq<char>, i: int, n: nat) -> Option<int>
    decreases text.len() - i,
{
    if i < 0 || i >= text.len() || old.len() == 0 {
        None
    } else if occurs_at(text, old, i) {
        if n == 0 { Some(i) } else { nth_occurrence_from(text, old, i + old.len(), (n - 1) as nat) }
    } else {
        nth_occurrence_from(text, old, i + 1, n)
    }
}

/// The UTF-8 length of `s`.
pub open spec fn utf8_len(s: Seq<char>) -> int {
    byte_offset(s, s.len() as int) as int
}

/// The text `SUBSTITUTE` returns: `text` unchanged for an empty `old`; with no instance every
/// occurrence replaced; with instance `n` only the `n`-th occurrence, or the text unchanged when
/// there are fewer.
pub open spec fn substitute_spec(text: Seq<char>, old: Seq<char>, new: Seq<char>, instance: Option<usize>) -> Seq<char> {
    if old.len() == 0 {
        text
    } else {
        match instance {
            None => replace_all_from(text, old, new, 0),
            Some(n) => match nth_occurrence_from(text, old, 0, (n - 1) as nat) {
                None => text,
                Some(p) => text.take(p) + new + text.skip(p + old.len()),
            },
        }
    }
}

/// The byte length `SUBSTITUTE` checks against the text limit before it answers, or `None` when
/// that length does not fit in `usize`.
pub open spec fn substitute_checked_bytes(text: Seq<char>, old: Seq<char>, new: Seq<char>, instance: Option<usize>) -> Option<int> {
    if old.len() == 0 {
        Some(utf8_len(text))
    } else {
        match instance {
            None => replacement_output_spec(utf8_len(text), utf8_len(old), utf8_len(new), occurrences_from(text, old, 0) as int),
            Some(n) => match nth_occurrence_from(text, old, 0, (n - 1) as nat) {
                None => Some(utf8_len(text)),
                Some(p) => replacement_output_spec(utf8_len(text), utf8_len(old), utf8_len(new), 1),
            },
        }
    }
}

/// Occurrences from character `i` on number at most the characters left.
proof fn lemma_occurrences_bound(text: Seq<char>, old: Seq<char>, i: int)
    requires
        0 <= i,
    ensures
        occurrences_from(text, old, i) <= if i < text.len() { text.len() - i } else { 0 },
    decreases text.len() - i,
{
    if i < text.len() && old.len() > 0 {
        if occurs_at(text, old, i) {
            lemma_occurrences_bound(text, old, i + old.len());
        } else {
            lemma_occurrences_bound(text, old, i + 1);
        }
    }
}

/// Whether the byte check `f` can accept the byte length `bytes`.
pub open spec fn check_accepted<F: Fn(usize) -> Result<(), ErrorKind>>(f: F, bytes: int) -> bool {
    exists|res: Result<(), ErrorKind>| res is Ok && #[trigger] call_ensures(f, (bytes as usize,), res)
}

/// A byte check that answered `res`, which is not an error, for `n` can accept `n`.
proof fn lemma_check_accepted<F: Fn(usize) -> Result<(), ErrorKind>>(f: F, n: usize, res: Result<(), ErrorKind>)
    requires
        call_ensures(f, (n,), res),
        res is Ok,
    ensures
        check_accepted(f, n as int),
{
    assert(((n as int) as usize) == n);
    assert(call_ensures(f, ((n as int) as usize,), res));
}

/// Whether `old` occurs in `text` at character `i`.
fn occurs_at_exec(text: &Vec<char>, old: &Vec<char>, i: usize) -> (r: bool)
    ensures
        r == occurs_at(text@, old@, i as int),
{
    if i > text.len() || old.len() > text.len() - i {
        return false;
    }
    let mut j: usize = 0;
    while j < old.len()
        invariant
            j <= old@.len(),
            i + old@.len() <= text@.len(),
            forall|m: int| 0 <= m < j ==> text@[i + m] == #[trigger] old@[m],
        decreases old.len() - j,
    {
        let n = text.len();
        assert(i + j < n);
        let at = i + j;
        if text[at] != old[j] {
            assert(text@.subrange(i as int, i + old@.len())[j as int] != old@[j as int]);
            return false;
        }
        j = j + 1;
    }
    assert(text@.subrange(i as int, i + old@.len()) =~= old@);
    true
}

/// Returns `text` with `old` replaced as `SUBSTITUTE` replaces it: every non-overlapping,
/// leftmost-first occurrence, or with `instance` set only that occurrence (counted from one).
/// The result's byte length is first checked through `ensure_text_bytes`; a length that does not
/// fit in `usize` is refused with the text-bytes resource limit.
pub fn substitute_text<F: Fn(usize) -> Result<(), ErrorKind>>(
    text: &str,
    old: &str,
    new: &str,
    instance: Option<usize>,
    ensure_text_bytes: &F,
) -> (r: Result<String, ErrorKind>)
    requires
        instance matches Some(n) ==> n >= 1,
        forall|b: usize| #[trigger] call_requires(*ensure_text_bytes, (b,)),
    ensures
        match substitute_checked_bytes(text@, old@, new@, instance) {
            None => r == Err::<String, ErrorKind>(ErrorKind::ResourceLimit(CalculationLimitKind::TextBytes)),
            Some(b) => match r {
                Ok(s) => s@ == substitute_spec(text@, old@, new@, instance)
                    && check_accepted(*ensure_text_bytes, b),
                Err(e) => call_ensures(*ensure_text_bytes, (b as usize,), Err(e)),
            },
        },
{
    proof {
        lemma_str_len_is_byte_offset(text);
        lemma_str_len_is_byte_offset(old);
        lemma_str_len_is_byte_offset(new);
    }
    let chars = chars_of(text);
    let old_chars = chars_of(old);
    let new_chars = chars_of(new);
    let text_bytes = text.as_bytes().len();
    assert(text_bytes as int == utf8_len(text@));
    if old_chars.len() == 0 {
        let checked = ensure_text_bytes(text_bytes);
        if checked.is_err() {
            return Err(checked.unwrap_err());
        }
        let same = string_from_range(chars.as_slice(), 0, chars.len());
        assert(same@ =~= text@);
        proof {
            lemma_check_accepted(*ensure_text_bytes, text_bytes, checked);
        }
        return Ok(same);
    }
    match instance {
        None => {
            let mut count: usize = 0;
            let mut i: usize = 0;
            while i < chars.len()
                invariant
                    i <= chars@.len(),
                    chars@ == text@,
                    old_chars@ == old@,
                    old@.len() > 0,
                    count + occurrences_from(text@, old@, i as int) == occurrences_from(text@, old@, 0),
                decreases chars.len() - i,
            {
                if occurs_at_exec(&chars, &old_chars, i) {
                    proof {
                        lemma_occurrences_bound(text@, old@, 0);
                    }
                    assert(count < occurrences_from(text@, old@, 0));
                    count = count + 1;
                    i = i + old_chars.len();
                } else {
                    i = i + 1;
                }
            }
            assert(count == occurrences_from(text@, old@, 0));
            let bytes = match replacement_output_bytes(text_bytes, old.as_bytes().len(), new.as_bytes().len(), count) {
                None => return Err(ErrorKind::ResourceLimit(CalculationLimitKind::TextBytes)),
                Some(b) => b,
            };
            let checked = ensure_text_bytes(bytes);
            if checked.is_err() {
                return Err(checked.unwrap_err());
            }
            proof {
                lemma_check_accepted(*ensure_text_bytes, bytes, checked);
            }
            let mut out = String::new();
            let mut i: usize = 0;
            while i < chars.len()
                invariant
                    i <= chars@.len(),
                    chars@ == text@,
                    old_chars@ == old@,
                    new_chars@ == new@,
                    old@.len() > 0,
                    out@ + replace_all_from(text@, old@, new@, i as int) == replace_all_from(text@, old@, new@, 0),
                decreases chars.len() - i,
            {
                if occurs_at_exec(&chars, &old_chars, i) {
                    let mut k: usize = 0;
                    let ghost before = out@;
                    while k < new_chars.len()
                        invariant
                            k <= new_chars@.len(),
                            out@ == before + new_chars@.take(k as int),
                        decreases new_chars.len() - k,
                    {
                        push_char(&mut out, new_chars[k]);
                        k = k + 1;
                        assert(out@ =~= before + new_chars@.take(k as int));
                    }
                    assert(new_chars@.take(k as int) =~= new@);
                    assert(before + replace_all_from(text@, old@, new@, i as int)
                        =~= out@ + replace_all_from(text@, old@, new@, i + old@.len()));
                    i = i + old_chars.len();
                } else {
                    let ghost before = out@;
                    push_char(&mut out, chars[i]);
                    assert(before + replace_all_from(text@, old@, new@, i as int)
                        =~= out@ + replace_all_from(text@, old@, new@, i + 1));
                    i = i + 1;
                }
            }
            assert(out@ =~= replace_all_from(text@, old@, new@, 0));
            Ok(out)
        },
        Some(n) => {
            let mut remaining: usize = n - 1;
            let mut i: usize = 0;
            let mut found: Option<usize> = None;
            while i < chars.len() && found.is_none()
                invariant
                    i <= chars@.len(),
                    chars@ == text@,
                    old_chars@ == old@,
                    old@.len() > 0,
                    found is None ==> nth_occurrence_from(text@, old@, i as int, remaining as nat)
                        == nth_occurrence_from(text@, old@, 0, (n - 1) as nat),
                    found matches Some(q) ==> nth_occurrence_from(text@, old@, 0, (n - 1) as nat) == Some(q as int)
                        && occurs_at(text@, old@, q as int),
                decreases (chars@.len() - i) * 2 + if found is None { 1int } else { 0int },
            {
                if occurs_at_exec(&chars, &old_chars, i) {
                    if remaining == 0 {
                        assert(nth_occurrence_from(text@, old@, i as int, 0) == Some(i as int));
                        found = Some(i);
                    } else {
                        remaining = remaining - 1;
                        i = i + old_chars.len();
                    }
                } else {
                    i = i + 1;
                }
            }
            match found {
                None => {
                    let checked = ensure_text_bytes(text_bytes);
                    if checked.is_err() {
                        return Err(checked.unwrap_err());
                    }
                    proof {
                        lemma_check_accepted(*ensure_text_bytes, text_bytes, checked);
                    }
                    let same = string_from_range(chars.as_slice(), 0, chars.len());
                    assert(same@ =~= text@);
                    Ok(same)
                },
                Some(p) => {
                    let bytes = match replacement_output_bytes(text_bytes, old.as_bytes().len(), new.as_bytes().len(), 1) {
                        None => return Err(ErrorKind::ResourceLimit(CalculationLimitKind::TextBytes)),
                        Some(b) => b,
                    };
                    let checked = ensure_text_bytes(bytes);
                    if checked.is_err() {
                        return Err(checked.unwrap_err());
                    }
                    proof {
                        lemma_check_accepted(*ensure_text_bytes, bytes, checked);
                    }
                    let mut out = string_from_range(chars.as_slice(), 0, p);
                    let mut k: usize = 0;
                    let ghost before = out@;
                    while k < new_chars.len()
                        invariant
                            k <= new_chars@.len(),
                            out@ == before + new_chars@.take(k as int),
                        decreases new_chars.len() - k,
                    {
                        push_char(&mut out, new_chars[k]);
                        k = k + 1;
                        assert(out@ =~= before + new_chars@.take(k as int));
                    }
                    let resume = p + old_chars.len();
                    let mut k: usize = resume;
                    let ghost middle = out@;
                    while k < chars.len()
                        invariant
                            resume <= k <= chars@.len(),
                            out@ == middle + chars@.subrange(resume as int, k as int),
                        decreases chars.len() - k,
                    {
                        push_char(&mut out, chars[k]);
                        k = k + 1;
                        assert(out@ =~= middle + chars@.subrange(resume as int, k as int));
                    }
                    proof {
                        assert(new_chars@.take(new_chars@.len() as int) =~= new@);
                        assert(out@ =~= text@.take(p as int) + new@ + text@.skip(p + old@.len()));
                    }
                    Ok(out)
                },
            }
        },
    }
}


/// Replacing every occurrence of a text by itself gives the text back.
pub proof fn lemma_substitute_identity(text: Seq<char>, old: Seq<char>, instance: Option<usize>)
    requires
        instance matches Some(n) ==> n >= 1,
    ensures
        substitute_spec(text, old, old, instance) == text,
{
    if old.len() > 0 {
        lemma_replace_self_from(text, old, 0);
        assert(text.subrange(0, text.len() as int) =~= text);
        if let Some(n) = instance {
            if let Some(p) = nth_occurrence_from(text, old, 0, (n - 1) as nat) {
                lemma_nth_occurrence_occurs(text, old, 0, (n - 1) as nat);
                assert(text.take(p) + old + text.skip(p + old.len()) =~= text);
            }
        }
    } else {
        assert(substitute_spec(text, old, old, instance) == text);
    }
}

/// From character `i` on, replacing each occurrence by itself keeps the text.
proof fn lemma_replace_self_from(text: Seq<char>, old: Seq<char>, i: int)
    requires
        0 <= i,
        old.len() > 0,
    ensures
        replace_all_from(text, old, old, i) == if i < text.len() { text.subrange(i, text.len() as int) } else { Seq::empty() },
    decreases text.len() - i,
{
    if i < text.len() {
        if occurs_at(text, old, i) {
            lemma_replace_self_from(text, old, i + old.len());
            assert(old + (if i + old.len() < text.len() { text.subrange(i + old.len(), text.len() as int) } else { Seq::<char>::empty() })
                =~= text.subrange(i, text.len() as int));
        } else {
            lemma_replace_self_from(text, old, i + 1);
            assert(seq![text[i]] + (if i + 1 < text.len() { text.subrange(i + 1, text.len() as int) } else { Seq::<char>::empty() })
                =~= text.subrange(i, text.len() as int));
        }
    }
}

/// The occurrence `nth_occurrence_from` reports is an occurrence.
proof fn lemma_nth_occurrence_occurs(text: Seq<char>, old: Seq<char>, i: int, n: nat)
    ensures
        nth_occurrence_from(text, old, i, n) matches Some(p) ==> occurs_at(text, old, p) && i <= p,
    decreases text.len() - i,
{
    if 0 <= i < text.len() && old.len() > 0 {
        if occurs_at(text, old, i) {
            if n > 0 {
                lemma_nth_occurrence_occurs(text, old, i + old.len(), (n - 1) as nat);
            }
        } else {
            lemma_nth_occurrence_occurs(text, old, i + 1, n);
        }
    }
}

/// Compared exactly, a text is its own comparison form and each character its own origin.
proof fn lemma_exact_comparison_form(v: Seq<char>)
    ensures
        comparison_form_spec(v, true).0 == v,
        comparison_form_spec(v, true).1 == Seq::new(v.len(), |i: int| i),
    decreases v.len(),
{
    if v.len() > 0 {
        lemma_exact_comparison_form(v.drop_last());
        assert(v.drop_last() + seq![v.last()] =~= v);
        assert(Seq::new((v.len() - 1) as nat, |i: int| i) + Seq::new(1, |k: int| v.len() - 1)
            =~= Seq::new(v.len(), |i: int| i));
    } else {
        assert(comparison_form_spec(v, true).1 =~= Seq::new(v.len(), |i: int| i));
    }
}

/// Where `first_window` reports a window, the target occurs there, at or after where it started.
proof fn lemma_first_window_occurs(source: Seq<char>, target: Seq<char>, i: int)
    ensures
        first_window(source, target, i) matches Some(k) ==> i <= k && k + target.len() <= source.len()
            && source.subrange(k, k + target.len()) == target,
    decreases source.len() + 1 - i,
{
    if !(i < 0 || i + target.len() > source.len()) && source.subrange(i, i + target.len()) != target {
        lemma_first_window_occurs(source, target, i + 1);
    }
}

/// Where an exact `FIND` reports position `p`, the needle occurs at character `p - 1`, and that is
/// at or after the start.
pub proof fn lemma_exact_find_occurs(haystack: Seq<char>, needle: Seq<char>, start: int)
    requires
        0 <= start,
    ensures
        find_position_spec(haystack, needle, start, true) matches Some(p) ==> start < p
            && p - 1 + needle.len() <= haystack.len()
            && haystack.subrange(p - 1, p - 1 + needle.len()) == needle,
{
    lemma_exact_comparison_form(haystack);
    lemma_exact_comparison_form(needle);
    let origins = comparison_form_spec(haystack, true).1;
    if start <= haystack.len() && needle.len() > 0 {
        let fs = first_origin_at(origins, start, 0);
        lemma_first_origin_is_start(haystack.len() as int, start, 0);
        lemma_first_window_occurs(haystack, needle, fs);
    } else if start <= haystack.len() {
        assert(haystack.subrange(start, start) =~= needle);
    }
}

/// Over the identity origins, the search starts at `start` itself.
proof fn lemma_first_origin_is_start(len: int, start: int, i: int)
    requires
        0 <= i <= start <= len,
    ensures
        first_origin_at(Seq::new(len as nat, |k: int| k), start, i) == start,
    decreases len - i,
{
    if i < start {
        lemma_first_origin_is_start(len, start, i + 1);
    }
}

} // verus!
