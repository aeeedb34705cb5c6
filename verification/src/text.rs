//! Character-level helpers shared by the lexer, name validation and text functions.
use vstd::prelude::*;
use vstd::string::StringSliceAdditionalSpecFns;

verus! {

/// Collects the characters of `s` in order.
pub fn chars_of(s: &str) -> (r: Vec<char>)
    ensures
        r@ == s@,
{
    let mut out: Vec<char> = Vec::new();
    for c in iter: s.chars()
        invariant
            out@ == iter.seq().take(iter.index() as int),
    {
        out.push(c);
    }
    out
}

/// Compares two character sequences element by element.
pub fn chars_equal(a: &[char], b: &[char]) -> (r: bool)
    ensures
        r == (a@ == b@),
{
    if a.len() != b.len() {
        return false;
    }
    let mut i: usize = 0;
    while i < a.len()
        invariant
            a@.len() == b@.len(),
            i <= a@.len(),
            forall|j: int| 0 <= j < i ==> a@[j] == b@[j],
        decreases a.len() - i,
    {
        if a[i] != b[i] {
            return false;
        }
        i = i + 1;
    }
    assert(a@ =~= b@);
    true
}

/// Compares two string slices by their characters.
pub fn str_equal(a: &str, b: &str) -> (r: bool)
    ensures
        r == (a@ == b@),
{
    let x = chars_of(a);
    let y = chars_of(b);
    chars_equal(x.as_slice(), y.as_slice())
}

/// Calls `String::push`, which appends one character: the new characters are the old ones
/// followed by `c`.
#[verifier::external_body]
pub(crate) fn push_char(s: &mut String, c: char)
    ensures
        final(s)@ == old(s)@.push(c),
{
    s.push(c);
}

/// Builds a string from `chars[start..end]`.
pub fn string_from_range(chars: &[char], start: usize, end: usize) -> (r: String)
    requires
        start <= end <= chars@.len(),
    ensures
        r@ == chars@.subrange(start as int, end as int),
{
    let mut out = String::new();
    let mut i = start;
    while i < end
        invariant
            start <= i <= end <= chars@.len(),
            out@ == chars@.subrange(start as int, i as int),
        decreases end - i,
    {
        push_char(&mut out, chars[i]);
        i = i + 1;
        assert(out@ =~= chars@.subrange(start as int, i as int));
    }
    out
}

/// Builds a string from every character of `chars`.
pub fn string_from_chars(chars: &[char]) -> (r: String)
    ensures
        r@ == chars@,
{
    let r = string_from_range(chars, 0, chars.len());
    assert(chars@.subrange(0, chars@.len() as int) =~= chars@);
    r
}

/// Number of UTF-8 bytes used to encode one character.
pub open spec fn utf8_width(c: char) -> nat {
    if (c as u32) < 0x80 {
        1
    } else if (c as u32) < 0x800 {
        2
    } else if (c as u32) < 0x10000 {
        3
    } else {
        4
    }
}

/// UTF-8 byte offset of the character at index `i` of `chars`.
pub open spec fn byte_offset(chars: Seq<char>, i: int) -> nat
    decreases i,
{
    if i <= 0 || chars.len() == 0 {
        0
    } else if i > chars.len() {
        byte_offset(chars, chars.len() as int)
    } else {
        byte_offset(chars, i - 1) + utf8_width(chars[i - 1])
    }
}

/// The number of UTF-8 bytes of one character.
pub fn char_utf8_width(c: char) -> (r: usize)
    ensures
        r == utf8_width(c),
        1 <= r <= 4,
{
    let code = c as u32;
    if code < 0x80 {
        1
    } else if code < 0x800 {
        2
    } else if code < 0x10000 {
        3
    } else {
        4
    }
}

pub proof fn lemma_byte_offset_monotonic(chars: Seq<char>, i: int, j: int)
    requires
        0 <= i <= j <= chars.len(),
    ensures
        byte_offset(chars, i) <= byte_offset(chars, j),
        byte_offset(chars, j) <= byte_offset(chars, i) + 4 * (j - i),
    decreases j - i,
{
    if i < j {
        lemma_byte_offset_monotonic(chars, i, j - 1);
    }
}

/// Byte length of a character sequence, counted from the front.
pub open spec fn byte_len(chars: Seq<char>) -> nat
    decreases chars.len(),
{
    if chars.len() == 0 {
        0
    } else {
        utf8_width(chars[0]) + byte_len(chars.drop_first())
    }
}

proof fn lemma_byte_offset_split(chars: Seq<char>, i: int)
    requires
        1 <= i <= chars.len(),
    ensures
        byte_offset(chars, i) == utf8_width(chars[0]) + byte_offset(chars.drop_first(), i - 1),
    decreases i,
{
    assert(byte_offset(chars, 0) == 0);
    assert(byte_offset(chars.drop_first(), 0) == 0);
    if i > 1 {
        lemma_byte_offset_split(chars, i - 1);
        assert(chars.drop_first()[i - 2] == chars[i - 1]);
    }
}

proof fn lemma_byte_offset_is_byte_len(chars: Seq<char>)
    ensures
        byte_offset(chars, chars.len() as int) == byte_len(chars),
    decreases chars.len(),
{
    if chars.len() > 0 {
        lemma_byte_offset_split(chars, chars.len() as int);
        lemma_byte_offset_is_byte_len(chars.drop_first());
    }
}

proof fn lemma_encode_len(chars: Seq<char>)
    ensures
        vstd::utf8::encode_utf8(chars).len() == byte_len(chars),
    decreases chars.len(),
{
    if chars.len() > 0 {
        let c = chars[0];
        vstd::utf8::char_is_scalar(c);
        lemma_encode_len(chars.drop_first());
    }
}

/// The UTF-8 byte offset of the end of a string is its byte length.
pub proof fn lemma_str_len_is_byte_offset(s: &str)
    ensures
        s.spec_bytes().len() == byte_offset(s@, s@.len() as int),
{
    lemma_encode_len(s@);
    lemma_byte_offset_is_byte_len(s@);
}

/// Byte offsets of every character boundary of `chars`: `r[i]` is the offset of character `i`
/// and the final entry is the total byte length.
pub fn char_offsets(chars: &[char]) -> (r: Vec<usize>)
    requires
        byte_offset(chars@, chars@.len() as int) <= usize::MAX,
    ensures
        r@.len() == chars@.len() + 1,
        forall|i: int| 0 <= i <= chars@.len() ==> #[trigger] r@[i] == byte_offset(chars@, i),
{
    let mut out: Vec<usize> = Vec::new();
    out.push(0);
    let mut total: usize = 0;
    let mut i: usize = 0;
    while i < chars.len()
        invariant
            byte_offset(chars@, chars@.len() as int) <= usize::MAX,
            i <= chars@.len(),
            out@.len() == i + 1,
            total == byte_offset(chars@, i as int),
            forall|j: int| 0 <= j <= i ==> #[trigger] out@[j] == byte_offset(chars@, j),
        decreases chars.len() - i,
    {
        let w = char_utf8_width(chars[i]);
        proof {
            lemma_byte_offset_monotonic(chars@, i + 1, chars@.len() as int);
        }
        total = total + w;
        i = i + 1;
        out.push(total);
    }
    out
}

/// Unicode `Alphabetic` property of a character.
pub uninterp spec fn is_alphabetic_char(c: char) -> bool;

/// Unicode `Alphabetic` or `Numeric` property of a character.
pub uninterp spec fn is_alphanumeric_char(c: char) -> bool;

/// Unicode `White_Space` property of a character: tab, line feed, vertical tab, form feed,
/// carriage return, space, next line, no-break space, ogham space mark, the spaces from en quad
/// to hair space, line and paragraph separators, narrow no-break space, medium mathematical
/// space and ideographic space.
pub open spec fn is_whitespace_char(c: char) -> bool {
    let v = c as u32;
    ||| 0x09 <= v <= 0x0D
    ||| v == 0x20
    ||| v == 0x85
    ||| v == 0xA0
    ||| v == 0x1680
    ||| 0x2000 <= v <= 0x200A
    ||| v == 0x2028
    ||| v == 0x2029
    ||| v == 0x202F
    ||| v == 0x205F
    ||| v == 0x3000
}

/// ASCII lowercase mapping of one character.
pub open spec fn ascii_lower(c: char) -> char {
    if 'A' <= c <= 'Z' {
        ((c as u32) + 32) as char
    } else {
        c
    }
}

/// Whether every character of `s` is ASCII.
pub open spec fn all_ascii(s: Seq<char>) -> bool {
    forall|i: int| 0 <= i < s.len() ==> (#[trigger] s[i] as u32) < 0x80
}

/// Full Unicode lowercase mapping of a string.
pub uninterp spec fn lowercase_chars(s: Seq<char>) -> Seq<char>;

/// Calls `char::is_alphabetic`, which reports the Unicode `Alphabetic` property; among ASCII
/// characters exactly the letters have it.
#[verifier::external_body]
pub(crate) fn char_is_alphabetic(c: char) -> (r: bool)
    ensures
        r == is_alphabetic_char(c),
        (c as u32) < 0x80 ==> (r <==> is_ascii_alpha_char(c)),
{
    c.is_alphabetic()
}

/// Calls `char::is_alphanumeric`, which reports `Alphabetic` or `Numeric`; among ASCII
/// characters exactly the letters and digits have it.
#[verifier::external_body]
pub(crate) fn char_is_alphanumeric(c: char) -> (r: bool)
    ensures
        r == is_alphanumeric_char(c),
        (c as u32) < 0x80 ==> (r <==> (is_ascii_alpha_char(c) || is_ascii_digit_char(c))),
{
    c.is_alphanumeric()
}

/// Whether `c` has the Unicode `White_Space` property, the code points `is_whitespace_char` lists,
/// as `char::is_whitespace` reports it.
pub fn char_is_whitespace(c: char) -> (r: bool)
    ensures
        r == is_whitespace_char(c),
{
    let v = c as u32;
    (0x09 <= v && v <= 0x0D) || v == 0x20 || v == 0x85 || v == 0xA0 || v == 0x1680 || (0x2000 <= v && v <= 0x200A)
        || v == 0x2028 || v == 0x2029 || v == 0x202F || v == 0x205F || v == 0x3000
}

/// Full Unicode lowercase mapping of one character, which may be several characters.
pub uninterp spec fn char_lowercase(c: char) -> Seq<char>;

/// Full Unicode uppercase mapping of one character, which may be several characters.
pub uninterp spec fn char_uppercase(c: char) -> Seq<char>;

/// Calls `char::to_lowercase` and collects the characters of the mapping, which depend on `c`
/// alone; the mapping is named, and stated for ASCII characters, which map to their ASCII
/// lowercase.
#[verifier::external_body]
pub(crate) fn char_to_lowercase(c: char) -> (r: Vec<char>)
    ensures
        r@ == char_lowercase(c),
        (c as u32) < 0x80 ==> r@ == seq![ascii_lower(c)],
{
    c.to_lowercase().collect()
}

/// Calls `char::to_uppercase` and collects the characters of the mapping, which depend on `c`
/// alone; the mapping is named, and stated for ASCII characters, which map to their ASCII
/// uppercase.
#[verifier::external_body]
pub(crate) fn char_to_uppercase(c: char) -> (r: Vec<char>)
    ensures
        r@ == char_uppercase(c),
        (c as u32) < 0x80 ==> r@ == seq![ascii_upper(c)],
{
    c.to_uppercase().collect()
}

/// Calls `str::to_lowercase`, the full Unicode lowercase mapping of the whole string; an ASCII
/// string maps character by character to its ASCII lowercase.
#[verifier::external_body]
pub(crate) fn str_to_lowercase(s: &str) -> (r: String)
    ensures
        r@ == lowercase_chars(s@),
        all_ascii(s@) ==> r@ == s@.map_values(|c: char| ascii_lower(c)),
{
    s.to_lowercase()
}

/// ASCII decimal digit.
pub open spec fn is_ascii_digit_char(c: char) -> bool {
    '0' <= c <= '9'
}

/// ASCII letter.
pub open spec fn is_ascii_alpha_char(c: char) -> bool {
    ('a' <= c <= 'z') || ('A' <= c <= 'Z')
}

/// ASCII uppercase mapping of one character.
pub open spec fn ascii_upper(c: char) -> char {
    if 'a' <= c <= 'z' {
        ((c as u32) - 32) as char
    } else {
        c
    }
}

pub fn is_ascii_digit(c: char) -> (r: bool)
    ensures
        r == is_ascii_digit_char(c),
{
    '0' <= c && c <= '9'
}

pub fn is_ascii_alpha(c: char) -> (r: bool)
    ensures
        r == is_ascii_alpha_char(c),
{
    ('a' <= c && c <= 'z') || ('A' <= c && c <= 'Z')
}

pub fn to_ascii_upper(c: char) -> (r: char)
    ensures
        r == ascii_upper(c),
{
    if 'a' <= c && c <= 'z' {
        let code = (c as u32) - 32;
        assert(code < 0x80);
        char_from_ascii(code)
    } else {
        c
    }
}

/// Converts an ASCII code point to its character.
pub fn char_from_ascii(code: u32) -> (r: char)
    requires
        code < 0x80,
    ensures
        r == code as char,
        r as u32 == code,
{
    let b = code as u8;
    let r = b as char;
    assert(r as u32 == code) by {
        assert(b as u32 == code);
    }
    r
}

/// Decimal digits of a natural number, most significant first, without leading zeros.
pub open spec fn decimal_spec(n: nat) -> Seq<char>
    decreases n,
{
    if n < 10 {
        seq![((n + 48) as u32) as char]
    } else {
        decimal_spec(n / 10).push((((n % 10) + 48) as u32) as char)
    }
}

/// Appends the decimal digits of `n`.
pub fn push_decimal(s: &mut String, n: u64)
    ensures
        final(s)@ == old(s)@ + decimal_spec(n as nat),
    decreases n,
{
    if n >= 10 {
        push_decimal(s, n / 10);
    }
    let d = (n % 10) as u32;
    let c = char_from_ascii(d + 48);
    push_char(s, c);
    assert(final(s)@ =~= old(s)@ + decimal_spec(n as nat)) by {
        if n < 10 {
            assert(n % 10 == n);
        }
    }
}

/// Appends every character of `t`.
pub fn push_str(s: &mut String, t: &str)
    ensures
        final(s)@ == old(s)@ + t@,
{
    let chars = chars_of(t);
    let ghost start = s@;
    let mut i: usize = 0;
    while i < chars.len()
        invariant
            i <= chars@.len(),
            chars@ == t@,
            s@ == start + chars@.take(i as int),
        decreases chars.len() - i,
    {
        push_char(s, chars[i]);
        i = i + 1;
        assert(s@ =~= start + chars@.take(i as int));
    }
    assert(chars@.take(chars@.len() as int) =~= chars@);
}

} // verus!
