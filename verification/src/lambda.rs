//! Names local to `LET` and `LAMBDA`, and the scopes they introduce.
use vstd::prelude::*;

use crate::lexer::{
    all_ascii_digits, alpha_end, alpha_run_end, capped_row_number, column_number, digit_end,
    digit_run_end, digits_value, letters_value, EXCEL_MAX_COLUMNS, EXCEL_MAX_ROWS,
};
use crate::text::{
    all_ascii, ascii_lower, ascii_upper, char_is_alphabetic, char_is_alphanumeric, chars_of, is_alphabetic_char,
    is_alphanumeric_char, is_ascii_alpha_char, lowercase_chars, str_equal, str_to_lowercase,
    string_from_chars, string_from_range, to_ascii_upper,
};

verus! {

/// Largest number of parameters a `LAMBDA` declares.
pub const MAX_LAMBDA_PARAMETERS: usize = 253;

/// Which function declares a local name; only `LET` names may contain periods.
#[derive(Debug, Clone, Copy, PartialEq, Eq, Structural)]
pub enum LocalNamePolicy {
    Let,
    Lambda,
}

impl LocalNamePolicy {
    /// Whether names under this policy may contain periods.
    pub fn allows_period(self) -> (r: bool)
        ensures
            r == (self is Let),
    {
        match self {
            LocalNamePolicy::Let => true,
            LocalNamePolicy::Lambda => false,
        }
    }
}

/// A local name that passed validation, in canonical form.
#[derive(Debug, Clone, PartialEq, Eq)]
pub struct ValidatedLocalName {
    name: String,
}

impl View for ValidatedLocalName {
    type V = Seq<char>;

    closed spec fn view(&self) -> Seq<char> {
        self.name@
    }
}

impl ValidatedLocalName {
    /// Returns the canonical name.
    pub fn into_string(self) -> (r: String)
        ensures
            r@ == self@,
    {
        self.name
    }
}


/// The prefix Excel writes before parameter names in stored formulas.
pub open spec fn xlpm_prefix() -> Seq<char> {
    seq!['_', 'x', 'l', 'p', 'm', '.']
}

/// Whether `s` starts with the parameter prefix, ignoring ASCII case.
pub open spec fn has_xlpm_prefix(s: Seq<char>) -> bool {
    s.len() >= 6 && forall|i: int| 0 <= i < 6 ==> ascii_lower(#[trigger] s[i]) == xlpm_prefix()[i]
}

/// The name without its parameter prefix.
pub open spec fn local_name_base_spec(s: Seq<char>) -> Seq<char> {
    if has_xlpm_prefix(s) { s.skip(6) } else { s }
}

/// Canonical form of a local name: without the parameter prefix, lowercased.
pub open spec fn canonical_local_name_spec(s: Seq<char>) -> Seq<char> {
    lowercase_chars(local_name_base_spec(s))
}

/// Returns the name without its parameter prefix.
pub fn local_name_base(name: &str) -> (r: String)
    ensures
        r@ == local_name_base_spec(name@),
{
    let chars = chars_of(name);
    let prefix = ['_', 'x', 'l', 'p', 'm', '.'];
    let mut matched = chars.len() >= 6;
    let mut i: usize = 0;
    while matched && i < 6
        invariant
            chars@ == name@,
            i <= 6,
            prefix@ == xlpm_prefix(),
            matched ==> chars@.len() >= 6,
            matched == (chars@.len() >= 6 && forall|k: int| 0 <= k < i ==> ascii_lower(#[trigger] chars@[k]) == xlpm_prefix()[k]),
        decreases 6 - i,
    {
        let c = chars[i];
        let lowered = if 'A' <= c && c <= 'Z' { crate::text::char_from_ascii((c as u32) + 32) } else { c };
        if lowered != prefix[i] {
            matched = false;
        }
        i = i + 1;
    }
    if matched {
        assert(has_xlpm_prefix(name@));
        let r = string_from_range(chars.as_slice(), 6, chars.len());
        assert(chars@.subrange(6, chars@.len() as int) =~= name@.skip(6));
        r
    } else {
        assert(!has_xlpm_prefix(name@)) by {
            if has_xlpm_prefix(name@) {
                if chars@.len() >= 6 {
                    let k = choose|k: int| 0 <= k < i && ascii_lower(#[trigger] chars@[k]) != xlpm_prefix()[k];
                }
            }
        }
        string_from_chars(chars.as_slice())
    }
}

/// Returns the canonical form of a local name: without the parameter prefix, lowercased.
pub fn canonical_local_name(name: &str) -> (r: String)
    ensures
        r@ == canonical_local_name_spec(name@),
        all_ascii(local_name_base_spec(name@)) ==> r@ == local_name_base_spec(name@).map_values(|c: char| ascii_lower(c)),
{
    let base = local_name_base(name);
    str_to_lowercase(base.as_str())
}

/// Whether `s` spells an A1 cell reference inside the sheet: letters, then digits without a
/// leading zero.
pub open spec fn a1_conflict_spec(s: Seq<char>) -> bool {
    let le = alpha_end(s, 0);
    let digits = s.subrange(le, s.len() as int);
    &&& 0 < le < s.len()
    &&& s[le] != '0'
    &&& all_ascii_digits(digits)
    &&& letters_value(s.subrange(0, le)) <= EXCEL_MAX_COLUMNS
    &&& digits_value(digits) <= EXCEL_MAX_ROWS
}

/// `s` with ASCII letters uppercased.
pub open spec fn upper_chars(s: Seq<char>) -> Seq<char> {
    s.map_values(|c: char| ascii_upper(c))
}

/// Whether `s` spells an R1C1 reference inside the sheet, ignoring ASCII case: `R` and `C`
/// alone, or `R`, optional row digits, `C`, optional column digits, without leading zeros.
pub open spec fn r1c1_conflict_spec(s: Seq<char>) -> bool {
    let u = upper_chars(s);
    if u == seq!['R'] || u == seq!['C'] {
        true
    } else if u.len() == 0 || u[0] != 'R' {
        false
    } else {
        let d = digit_end(u, 1);
        let row = u.subrange(1, d);
        if d >= u.len() || u[d] != 'C' {
            false
        } else {
            let col = u.subrange(d + 1, u.len() as int);
            &&& all_ascii_digits(col)
            &&& (row.len() == 0 || row[0] != '0')
            &&& (col.len() == 0 || col[0] != '0')
            &&& (row.len() == 0 || digits_value(row) <= EXCEL_MAX_ROWS)
            &&& (col.len() == 0 || digits_value(col) <= EXCEL_MAX_COLUMNS)
        }
    }
}

/// Whether a name would read as an A1 cell reference.
pub fn conflicts_with_a1_reference(name: &[char]) -> (r: bool)
    ensures
        r == a1_conflict_spec(name@),
{
    let ghost s = name@;
    let le = alpha_run_end(name);
    if le == 0 || le == name.len() {
        return false;
    }
    if name[le] == '0' {
        return false;
    }
    let row = match capped_row_number(name, le, name.len()) {
        Some(v) => v,
        None => return false,
    };
    proof {
        lemma_alpha_prefix(s, le as int);
    }
    match column_number(name, 0, le) {
        Some(_) => row <= EXCEL_MAX_ROWS,
        None => false,
    }
}

proof fn lemma_alpha_prefix(s: Seq<char>, le: int)
    requires
        le == alpha_end(s, 0),
        0 <= le <= s.len(),
    ensures
        forall|k: int| 0 <= k < le ==> #[trigger] is_ascii_alpha_char(s.subrange(0, le)[k]),
{
    assert forall|k: int| 0 <= k < le implies #[trigger] is_ascii_alpha_char(s.subrange(0, le)[k]) by {
        lemma_alpha_end_covers(s, 0, k);
    }
}

proof fn lemma_alpha_end_covers(s: Seq<char>, i: int, k: int)
    requires
        0 <= i <= k < alpha_end(s, i),
    ensures
        is_ascii_alpha_char(s[k]),
    decreases k - i,
{
    if i < k {
        lemma_alpha_end_covers(s, i + 1, k);
    }
}

/// Whether a name would read as an R1C1 reference.
pub fn conflicts_with_r1c1_reference(name: &[char]) -> (r: bool)
    ensures
        r == r1c1_conflict_spec(name@),
{
    let mut upper: Vec<char> = Vec::new();
    let mut i: usize = 0;
    while i < name.len()
        invariant
            i <= name@.len(),
            upper@ == upper_chars(name@).take(i as int),
        decreases name@.len() - i,
    {
        upper.push(to_ascii_upper(name[i]));
        i = i + 1;
        assert(upper@ =~= upper_chars(name@).take(i as int));
    }
    let ghost u = upper_chars(name@);
    assert(upper@ =~= u);
    if upper.len() == 1 && (upper[0] == 'R' || upper[0] == 'C') {
        assert(u =~= seq![upper[0]]);
        return true;
    }
    assert(u != seq!['R'] && u != seq!['C']) by {
        if u == seq!['R'] || u == seq!['C'] {
            assert(u.len() == 1);
        }
    }
    if upper.len() == 0 || upper[0] != 'R' {
        return false;
    }
    let d = digit_run_end(upper.as_slice(), 1);
    if d >= upper.len() || upper[d] != 'C' {
        return false;
    }
    let col = match capped_row_number(upper.as_slice(), d + 1, upper.len()) {
        Some(v) => v,
        None => return false,
    };
    let row_empty = d == 1;
    let col_empty = d + 1 == upper.len();
    if !row_empty && upper[1] == '0' {
        return false;
    }
    if !col_empty && upper[d + 1] == '0' {
        return false;
    }
    let row_valid = if row_empty {
        true
    } else {
        proof {
            lemma_digit_run(u, 1, d as int);
        }
        match capped_row_number(upper.as_slice(), 1, d) {
            Some(v) => v <= EXCEL_MAX_ROWS,
            None => false,
        }
    };
    let col_valid = col_empty || col <= EXCEL_MAX_COLUMNS;
    row_valid && col_valid
}

proof fn lemma_digit_run(s: Seq<char>, i: int, d: int)
    requires
        d == digit_end(s, i),
        0 <= i <= s.len(),
    ensures
        all_ascii_digits(s.subrange(i, d)),
        i <= d <= s.len(),
    decreases s.len() - i,
{
    if i < s.len() && crate::text::is_ascii_digit_char(s[i]) {
        lemma_digit_run(s, i + 1, d);
        assert forall|k: int| 0 <= k < d - i implies #[trigger] crate::text::is_ascii_digit_char(s.subrange(i, d)[k]) by {
            if k > 0 {
                assert(s.subrange(i, d)[k] == s.subrange(i + 1, d)[k - 1]);
            }
        }
    }
}

/// Whether a canonical name reads as a cell reference in either notation.
pub fn conflicts_with_reference_syntax(name: &[char]) -> (r: bool)
    ensures
        r == (a1_conflict_spec(name@) || r1c1_conflict_spec(name@)),
{
    conflicts_with_a1_reference(name) || conflicts_with_r1c1_reference(name)
}

/// Whether a canonical name is a valid local name under `policy`.
pub open spec fn valid_local_name_spec(c: Seq<char>, policy: LocalNamePolicy) -> bool {
    &&& 1 <= c.len() <= 255
    &&& is_alphabetic_char(c[0]) || c[0] == '_' || c[0] == '\\'
    &&& forall|i: int| 1 <= i < c.len() ==> is_alphanumeric_char(#[trigger] c[i]) || c[i] == '_'
        || (policy is Let && c[i] == '.')
    &&& !a1_conflict_spec(c)
    &&& !r1c1_conflict_spec(c)
}

/// Validates a `LET` or `LAMBDA` name: its canonical form has at most 255 characters, starts with
/// a letter, underscore or backslash, continues with letters, digits and underscores (and periods
/// for `LET`), and does not read as a cell reference.
pub fn validate_local_name(name: &str, policy: LocalNamePolicy) -> (r: Option<ValidatedLocalName>)
    ensures
        match r {
            Some(v) => valid_local_name_spec(canonical_local_name_spec(name@), policy)
                && v@ == canonical_local_name_spec(name@),
            None => !valid_local_name_spec(canonical_local_name_spec(name@), policy),
        },
        r matches Some(v) ==> (all_ascii(local_name_base_spec(name@))
            ==> v@ == local_name_base_spec(name@).map_values(|c: char| ascii_lower(c))),
{
    let canonical = canonical_local_name(name);
    let chars = chars_of(canonical.as_str());
    let ghost c = chars@;
    if chars.len() > 255 || chars.len() == 0 {
        return None;
    }
    let first = chars[0];
    if !(char_is_alphabetic(first) || first == '_' || first == '\\') {
        return None;
    }
    let period = policy.allows_period();
    let mut i: usize = 1;
    while i < chars.len()
        invariant
            chars@ == c,
            c == canonical_local_name_spec(name@),
            1 <= i <= c.len(),
            period == (policy is Let),
            forall|k: int| 1 <= k < i ==> is_alphanumeric_char(#[trigger] c[k]) || c[k] == '_' || (policy is Let && c[k] == '.'),
        decreases c.len() - i,
    {
        let ch = chars[i];
        if !(char_is_alphanumeric(ch) || ch == '_' || (period && ch == '.')) {
            assert(!(is_alphanumeric_char(c[i as int]) || c[i as int] == '_' || (policy is Let && c[i as int] == '.')));
            assert(!valid_local_name_spec(c, policy));
            return None;
        }
        i = i + 1;
    }
    if conflicts_with_reference_syntax(chars.as_slice()) {
        return None;
    }
    Some(ValidatedLocalName { name: canonical })
}

/// Whether `name` refers to one of the local names in `scope`, compared in canonical form.
pub fn is_local_name(name: &str, scope: &[String]) -> (r: bool)
    ensures
        r == exists|i: int| 0 <= i < scope@.len() && #[trigger] scope@[i]@ == canonical_local_name_spec(name@),
        all_ascii(local_name_base_spec(name@)) ==> (r == exists|i: int| 0 <= i < scope@.len()
            && #[trigger] scope@[i]@ == local_name_base_spec(name@).map_values(|c: char| ascii_lower(c))),
{
    let key = canonical_local_name(name);
    let mut i = scope.len();
    while i > 0
        invariant
            i <= scope@.len(),
            key@ == canonical_local_name_spec(name@),
            all_ascii(local_name_base_spec(name@)) ==> key@ == local_name_base_spec(name@).map_values(|c: char| ascii_lower(c)),
            forall|k: int| i <= k < scope@.len() ==> #[trigger] scope@[k]@ != key@,
        decreases i,
    {
        i = i - 1;
        if str_equal(scope[i].as_str(), key.as_str()) {
            assert(scope@[i as int]@ == key@);
            return true;
        }
    }
    false
}

/// A formula expression, as far as local scopes look into it.
#[derive(Debug)]
pub enum Expr {
    /// An omitted argument.
    Missing,
    /// A name.
    Name(String),
    /// A function call.
    Call { name: String, args: Vec<Expr> },
    /// Any other expression; scopes do not look inside it.
    Other,
}

/// The functions that open a local scope.
#[derive(Debug, Clone, Copy, PartialEq, Eq, Structural)]
pub enum ScopeFunction {
    ArrayMap,
    Lambda,
    Let,
}

/// The scope-opening function a call name denotes, as the parser stores function names.
pub open spec fn scope_function_spec(name: Seq<char>) -> Option<ScopeFunction> {
    if name == seq!['M', 'A', 'P'] {
        Some(ScopeFunction::ArrayMap)
    } else if name == seq!['L', 'A', 'M', 'B', 'D', 'A'] {
        Some(ScopeFunction::Lambda)
    } else if name == seq!['L', 'E', 'T'] {
        Some(ScopeFunction::Let)
    } else {
        None
    }
}

/// Returns the scope-opening function a call name denotes.
pub fn scope_function(name: &str) -> (r: Option<ScopeFunction>)
    ensures
        r == scope_function_spec(name@),
{
    let chars = chars_of(name);
    let map = ['M', 'A', 'P'];
    let lambda = ['L', 'A', 'M', 'B', 'D', 'A'];
    let let_name = ['L', 'E', 'T'];
    assert(map@ =~= seq!['M', 'A', 'P']);
    assert(lambda@ =~= seq!['L', 'A', 'M', 'B', 'D', 'A']);
    assert(let_name@ =~= seq!['L', 'E', 'T']);
    if crate::text::chars_equal(chars.as_slice(), map.as_slice()) {
        Some(ScopeFunction::ArrayMap)
    } else if crate::text::chars_equal(chars.as_slice(), lambda.as_slice()) {
        Some(ScopeFunction::Lambda)
    } else if crate::text::chars_equal(chars.as_slice(), let_name.as_slice()) {
        Some(ScopeFunction::Let)
    } else {
        None
    }
}

/// The views of a list of names.
pub open spec fn names_view(names: Seq<String>) -> Seq<Seq<char>> {
    names.map_values(|n: String| n@)
}

/// Canonical parameter names of a `LAMBDA` argument list, when they define a lambda: between zero
/// and the maximum number of parameters, each a valid and distinct name, then a body that is not
/// omitted.
pub open spec fn lambda_parameters_spec(args: Seq<Expr>) -> Option<Seq<Seq<char>>> {
    let count = args.len() - 1;
    let names = Seq::new(count as nat, |i: int| canonical_local_name_spec(args[i]->Name_0@));
    if args.len() == 0 || args.len() > MAX_LAMBDA_PARAMETERS + 1 || args.last() is Missing {
        None
    } else if !(forall|i: int| 0 <= i < count ==> (#[trigger] args[i]) is Name
        && valid_local_name_spec(canonical_local_name_spec(args[i]->Name_0@), LocalNamePolicy::Lambda)) {
        None
    } else if !(forall|i: int, j: int| 0 <= i < j < count ==> names[i] != names[j]) {
        None
    } else {
        Some(names)
    }
}

/// Parameters and body of a `LAMBDA`.
#[derive(Debug)]
pub struct LambdaDefinition<'formula> {
    parameters: Vec<String>,
    body: &'formula Expr,
}

impl<'formula> LambdaDefinition<'formula> {
    pub closed spec fn parameters_spec(self) -> Seq<Seq<char>> {
        names_view(self.parameters@)
    }

    pub closed spec fn body_spec(self) -> Expr {
        *self.body
    }

    /// Returns the canonical parameter names in order.
    pub fn parameters(&self) -> (r: &[String])
        ensures
            names_view(r@) == self.parameters_spec(),
    {
        self.parameters.as_slice()
    }

    /// Returns the body.
    pub fn body(&self) -> (r: &'formula Expr)
        ensures
            *r == self.body_spec(),
    {
        self.body
    }
}

/// Reads the parameters and body of a `LAMBDA` from its arguments.
pub fn definition_from_args<'a>(args: &'a [Expr]) -> (r: Option<LambdaDefinition<'a>>)
    ensures
        match lambda_parameters_spec(args@) {
            Some(names) => r matches Some(d) && d.parameters_spec() == names && d.body_spec() == args@.last(),
            None => r is None,
        },
{
    let ghost a = args@;
    if args.len() == 0 || args.len() > MAX_LAMBDA_PARAMETERS + 1 {
        return None;
    }
    let count = args.len() - 1;
    let body = &args[count];
    match body {
        Expr::Missing => return None,
        _ => {},
    }
    let ghost names = Seq::new(count as nat, |i: int| canonical_local_name_spec(a[i]->Name_0@));
    let mut parameters: Vec<String> = Vec::new();
    let mut i: usize = 0;
    while i < count
        invariant
            a == args@,
            count == a.len() - 1,
            i <= count,
            names == Seq::new(count as nat, |k: int| canonical_local_name_spec(a[k]->Name_0@)),
            names_view(parameters@) == names.take(i as int),
            parameters@.len() == i,
            forall|k: int| 0 <= k < i ==> (#[trigger] a[k]) is Name
                && valid_local_name_spec(canonical_local_name_spec(a[k]->Name_0@), LocalNamePolicy::Lambda),
            forall|k: int, j: int| 0 <= k < j < i ==> names[k] != names[j],
        decreases count - i,
    {
        let name = match &args[i] {
            Expr::Name(name) => name,
            _ => return None,
        };
        let canonical = match validate_local_name(name.as_str(), LocalNamePolicy::Lambda) {
            Some(v) => v.into_string(),
            None => return None,
        };
        assert(canonical@ == names[i as int]);
        let mut k: usize = 0;
        while k < parameters.len()
            invariant
                k <= parameters@.len(),
                a == args@,
                count == a.len() - 1,
                names == Seq::new(count as nat, |m: int| canonical_local_name_spec(a[m]->Name_0@)),
                i < count,
                names.len() == count,
                names_view(parameters@) == names.take(i as int),
                parameters@.len() == i,
                canonical@ == names[i as int],
                forall|m: int| 0 <= m < k ==> names[m] != names[i as int],
            decreases parameters@.len() - k,
        {
            assert(names_view(parameters@)[k as int] == parameters@[k as int]@);
            if str_equal(parameters[k].as_str(), canonical.as_str()) {
                assert(names.take(i as int)[k as int] == names[k as int]);
                assert(names[k as int] == names[i as int]);
                assert(!(forall|x: int, y: int| 0 <= x < y < count ==> names[x] != names[y]));
                assert(lambda_parameters_spec(args@) is None);
                return None;
            }
            k = k + 1;
        }
        parameters.push(canonical);
        assert(names_view(parameters@) =~= names.take(i + 1));
        i = i + 1;
    }
    assert(names.take(count as int) =~= names);
    Some(LambdaDefinition { parameters, body })
}

/// Whether a call name denotes `LAMBDA`.
pub fn is_lambda_function(name: &str) -> (r: bool)
    ensures
        r == (scope_function_spec(name@) == Some(ScopeFunction::Lambda)),
{
    match scope_function(name) {
        Some(ScopeFunction::Lambda) => true,
        _ => false,
    }
}

/// Parameters of an expression that is a `LAMBDA` call defining a lambda.
pub open spec fn definition_spec(expr: Expr) -> Option<Seq<Seq<char>>> {
    match expr {
        Expr::Call { name, args } => if scope_function_spec(name@) == Some(ScopeFunction::Lambda) {
            lambda_parameters_spec(args@)
        } else {
            None
        },
        _ => None,
    }
}

/// Reads the lambda an expression defines, when it is a `LAMBDA` call.
pub fn definition<'a>(expr: &'a Expr) -> (r: Option<LambdaDefinition<'a>>)
    ensures
        match definition_spec(*expr) {
            Some(names) => r matches Some(d) && d.parameters_spec() == names
                && (*expr matches Expr::Call { args, .. } && d.body_spec() == args@.last()),
            None => r is None,
        },
{
    match expr {
        Expr::Call { name, args } => {
            if !is_lambda_function(name.as_str()) {
                return None;
            }
            definition_from_args(args.as_slice())
        },
        _ => None,
    }
}

proof fn lemma_names_view_push(s: Seq<String>, x: String)
    ensures
        names_view(s.push(x)) == names_view(s).push(x@),
{
    assert(names_view(s.push(x)) =~= names_view(s).push(x@));
}

proof fn lemma_names_view_take(s: Seq<String>, i: int)
    requires
        0 <= i < s.len(),
    ensures
        names_view(s).take(i + 1) == names_view(s).take(i).push(s[i]@),
{
    assert(names_view(s).take(i + 1) =~= names_view(s).take(i).push(s[i]@));
}

proof fn lemma_visits_view_push<'a>(s: Seq<ScopeVisit<'a>>, x: ScopeVisit<'a>)
    ensures
        visits_view(s.push(x)) == visits_view(s).push((*x.0, names_view(x.1@))),
{
    assert(visits_view(s.push(x)) =~= visits_view(s).push((*x.0, names_view(x.1@))));
}

/// Copies a list of names.
fn copy_names(names: &Vec<String>) -> (r: Vec<String>)
    ensures
        names_view(r@) == names_view(names@),
{
    let mut out: Vec<String> = Vec::new();
    let mut i: usize = 0;
    while i < names.len()
        invariant
            i <= names@.len(),
            names_view(out@) == names_view(names@).take(i as int),
        decreases names@.len() - i,
    {
        let ghost before = out@;
        let x = names[i].clone();
        out.push(x);
        proof {
            lemma_names_view_push(before, x);
            lemma_names_view_take(names@, i as int);
        }
        i = i + 1;
    }
    assert(names_view(names@).take(names@.len() as int) =~= names_view(names@));
    out
}

/// An expression to visit, with the local names in scope at it.
pub type ScopeVisit<'a> = (&'a Expr, Vec<String>);

/// The expressions and scopes of a list of visits.
pub open spec fn visits_view<'a>(visits: Seq<ScopeVisit<'a>>) -> Seq<(Expr, Seq<Seq<char>>)> {
    visits.map_values(|v: ScopeVisit<'a>| (*v.0, names_view(v.1@)))
}

/// Names bound by the first `k` name/value pairs of a `LET`; a pair whose first element is not a
/// name binds nothing.
pub open spec fn let_names(args: Seq<Expr>, k: int) -> Seq<Seq<char>>
    decreases k,
{
    if k <= 0 {
        Seq::empty()
    } else {
        let rest = let_names(args, k - 1);
        match args[2 * (k - 1)] {
            Expr::Name(n) => rest.push(canonical_local_name_spec(n@)),
            _ => rest,
        }
    }
}

/// What a `LET` visits: each value with the names bound before it, then the final expression
/// with every name bound. A trailing unpaired argument before the final one is not visited.
pub open spec fn let_visits(args: Seq<Expr>, scope: Seq<Seq<char>>) -> Seq<(Expr, Seq<Seq<char>>)> {
    if args.len() == 0 {
        Seq::empty()
    } else {
        let pairs = (args.len() - 1) / 2;
        Seq::new(pairs as nat, |k: int| (args[2 * k + 1], scope + let_names(args, k)))
            .push((args.last(), scope + let_names(args, pairs)))
    }
}

/// Whether a call opens a local scope, and what it visits in which scope.
pub open spec fn scope_visits(
    function: Option<ScopeFunction>,
    arguments_reachable: bool,
    args: Seq<Expr>,
    scope: Seq<Seq<char>>,
) -> (bool, Seq<(Expr, Seq<Seq<char>>)>) {
    match function {
        None => (false, Seq::empty()),
        Some(f) => if !arguments_reachable {
            (true, Seq::empty())
        } else {
            match f {
                ScopeFunction::ArrayMap => if args.len() == 0 {
                    (false, Seq::empty())
                } else {
                    match definition_spec(args.last()) {
                        None => (false, Seq::empty()),
                        Some(parameters) => (
                            true,
                            Seq::new((args.len() - 1) as nat, |i: int| (args[i], scope))
                                .push((args.last()->Call_args@.last(), scope + parameters)),
                        ),
                    }
                },
                ScopeFunction::Lambda => match lambda_parameters_spec(args) {
                    None => (false, Seq::empty()),
                    Some(parameters) => (true, seq![(args.last(), scope + parameters)]),
                },
                ScopeFunction::Let => (true, let_visits(args, scope)),
            }
        },
    }
}

/// Lists what a call to a scope-opening function visits, each with the local names in scope at
/// it, leaving `scope` as it was. `arguments_reachable` is the function catalog's verdict on
/// whether the arguments fit the function's shape and binding budget; without it nothing is
/// visited. Returns whether the call opens a local scope, and the visits in order.
pub fn walk_local_scope<'a>(
    name: &str,
    args: &'a [Expr],
    scope: &mut Vec<String>,
    arguments_reachable: bool,
) -> (r: (bool, Vec<ScopeVisit<'a>>))
    ensures
        names_view(final(scope)@) == names_view(old(scope)@),
        ({
            let expected = scope_visits(scope_function_spec(name@), arguments_reachable, args@, names_view(old(scope)@));
            r.0 == expected.0 && visits_view(r.1@) == expected.1
        }),
{
    let function = scope_function(name);
    let mut visits: Vec<ScopeVisit<'a>> = Vec::new();
    let ghost start = names_view(scope@);
    assert(visits_view(visits@) =~= Seq::<(Expr, Seq<Seq<char>>)>::empty());
    let kind = match function {
        None => return (false, visits),
        Some(kind) => kind,
    };
    if !arguments_reachable {
        return (true, visits);
    }
    match kind {
        ScopeFunction::ArrayMap => {
            if args.len() == 0 {
                return (false, visits);
            }
            let last = args.len() - 1;
            let lambda = match definition(&args[last]) {
                Some(d) => d,
                None => return (false, visits),
            };
            let mut i: usize = 0;
            while i < last
                invariant
                    last == args@.len() - 1,
                    i <= last,
                    names_view(scope@) == start,
                    visits_view(visits@) == Seq::new(i as nat, |k: int| (args@[k], start)),
                decreases last - i,
            {
                let copy = copy_names(scope);
                let ghost before = visits@;
                let item = (&args[i], copy);
                visits.push(item);
                proof {
                    lemma_visits_view_push(before, item);
                    assert(Seq::new((i + 1) as nat, |k: int| (args@[k], start))
                        =~= Seq::new(i as nat, |k: int| (args@[k], start)).push((args@[i as int], start)));
                }
                i = i + 1;
            }
            let previous = scope.len();
            let ghost initial = scope@;
            push_names(scope, lambda.parameters());
            let copy = copy_names(scope);
            let ghost before = visits@;
            let item = (lambda.body(), copy);
            visits.push(item);
            proof {
                lemma_visits_view_push(before, item);
            }
            scope.truncate(previous);
            assert(scope@ == initial);
            (true, visits)
        },
        ScopeFunction::Lambda => {
            let lambda = match definition_from_args(args) {
                Some(d) => d,
                None => return (false, visits),
            };
            let previous = scope.len();
            let ghost initial = scope@;
            push_names(scope, lambda.parameters());
            let copy = copy_names(scope);
            let ghost before = visits@;
            let item = (lambda.body(), copy);
            visits.push(item);
            proof {
                lemma_visits_view_push(before, item);
                assert(before.len() == 0);
                assert(visits_view(visits@) =~= seq![(args@.last(), start + lambda.parameters_spec())]);
            }
            scope.truncate(previous);
            assert(scope@ == initial);
            (true, visits)
        },
        ScopeFunction::Let => {
            if args.len() == 0 {
                return (true, visits);
            }
            let previous = scope.len();
            let ghost initial = scope@;
            let last = args.len() - 1;
            let pairs = last / 2;
            let mut k: usize = 0;
            while k < pairs
                invariant
                    last == args@.len() - 1,
                    pairs == last / 2,
                    k <= pairs,
                    previous == start.len(),
                    previous == initial.len(),
                    scope@.len() >= previous,
                    scope@.subrange(0, previous as int) == initial,
                    names_view(scope@) == start + let_names(args@, k as int),
                    visits_view(visits@) == Seq::new(k as nat, |m: int| (args@[2 * m + 1], start + let_names(args@, m))),
                decreases pairs - k,
            {
                let copy = copy_names(scope);
                let ghost before_visits = visits@;
                let item = (&args[2 * k + 1], copy);
                visits.push(item);
                proof {
                    lemma_visits_view_push(before_visits, item);
                    assert(Seq::new((k + 1) as nat, |m: int| (args@[2 * m + 1], start + let_names(args@, m)))
                        =~= Seq::new(k as nat, |m: int| (args@[2 * m + 1], start + let_names(args@, m)))
                            .push((args@[2 * k + 1], start + let_names(args@, k as int))));
                }
                match &args[2 * k] {
                    Expr::Name(n) => {
                        let canonical = canonical_local_name(n.as_str());
                        let ghost before = scope@;
                        scope.push(canonical);
                        proof {
                            lemma_names_view_push(before, canonical);
                            assert(scope@.subrange(0, previous as int) =~= before.subrange(0, previous as int));
                            assert(start + let_names(args@, k + 1) =~= (start + let_names(args@, k as int)).push(canonical@));
                        }
                    },
                    _ => {
                        assert(let_names(args@, k + 1) == let_names(args@, k as int));
                    },
                }
                k = k + 1;
            }
            let copy = copy_names(scope);
            let ghost before_visits = visits@;
            let item = (&args[last], copy);
            visits.push(item);
            proof {
                lemma_visits_view_push(before_visits, item);
            }
            scope.truncate(previous);
            assert(scope@ =~= initial);
            (true, visits)
        },
    }
}

/// Appends copies of `names` to `scope`.
fn push_names(scope: &mut Vec<String>, names: &[String])
    ensures
        names_view(final(scope)@) == names_view(old(scope)@) + names_view(names@),
        final(scope)@.len() == old(scope)@.len() + names@.len(),
        final(scope)@.subrange(0, old(scope)@.len() as int) == old(scope)@,
{
    let ghost start = scope@;
    let mut i: usize = 0;
    while i < names.len()
        invariant
            i <= names@.len(),
            scope@.len() == start.len() + i,
            scope@.subrange(0, start.len() as int) == start,
            names_view(scope@) == names_view(start) + names_view(names@).take(i as int),
        decreases names@.len() - i,
    {
        let ghost before = scope@;
        let x = names[i].clone();
        scope.push(x);
        proof {
            lemma_names_view_push(before, x);
            lemma_names_view_take(names@, i as int);
            assert(scope@.subrange(0, start.len() as int) =~= before.subrange(0, start.len() as int));
            assert(names_view(start) + names_view(names@).take(i + 1)
                =~= (names_view(start) + names_view(names@).take(i as int)).push(names@[i as int]@));
        }
        i = i + 1;
    }
    assert(names_view(names@).take(names@.len() as int) =~= names_view(names@));
}

} // verus!
