//! Tokenization of formula source text with UTF-8 byte spans.
use vstd::prelude::*;

use crate::limits::CalculationLimitKind;
use crate::text::{
    chars_of, char_is_alphabetic, char_is_alphanumeric, to_ascii_upper, char_is_whitespace, is_ascii_alpha, is_ascii_digit, push_char, string_from_range,
    char_offsets, lemma_byte_offset_monotonic, lemma_str_len_is_byte_offset,
    ascii_upper, byte_offset, is_alphabetic_char, is_alphanumeric_char, is_ascii_alpha_char,
    is_ascii_digit_char, is_whitespace_char, utf8_width,
};
use crate::value::ErrorKind;

verus! {

/// Largest Excel worksheet row number.
pub const EXCEL_MAX_ROWS: u32 = 1_048_576;

/// Largest Excel worksheet column number.
pub const EXCEL_MAX_COLUMNS: u32 = 16_384;

/// A half-open UTF-8 byte range of formula source text.
#[derive(Debug, Clone, Copy, PartialEq, Eq, Hash, Structural)]
pub struct SourceSpan {
    pub start: usize,
    pub end: usize,
}

impl SourceSpan {
    /// Builds the span `start..end`.
    pub fn new(start: usize, end: usize) -> (r: SourceSpan)
        ensures
            r == (SourceSpan { start, end }),
    {
        SourceSpan { start, end }
    }

    /// Builds the empty span at `at`.
    pub fn empty(at: usize) -> (r: SourceSpan)
        ensures
            r == (SourceSpan { start: at, end: at }),
    {
        SourceSpan { start: at, end: at }
    }
}

/// Stable machine-readable reason that formula text could not be tokenized or parsed.
#[derive(Debug, Clone, Copy, PartialEq, Eq, Hash, Structural)]
pub enum ParseErrorCode {
    UnexpectedCharacter,
    UnexpectedToken,
    UnterminatedString,
    UnterminatedSheetName,
    UnterminatedStructuredReference,
    UnknownErrorLiteral,
}

impl ParseErrorCode {
    /// The stable dotted identifier of a code.
    pub open spec fn as_str_spec(self) -> Seq<char> {
        match self {
            ParseErrorCode::UnexpectedCharacter => "parse.unexpected_character"@,
            ParseErrorCode::UnexpectedToken => "parse.unexpected_token"@,
            ParseErrorCode::UnterminatedString => "parse.unterminated_string"@,
            ParseErrorCode::UnterminatedSheetName => "parse.unterminated_sheet_name"@,
            ParseErrorCode::UnterminatedStructuredReference => "parse.unterminated_structured_reference"@,
            ParseErrorCode::UnknownErrorLiteral => "parse.unknown_error_literal"@,
        }
    }

    /// Returns the stable dotted identifier of the code.
    pub fn as_str(self) -> (r: &'static str)
        ensures
            r@ == self.as_str_spec(),
            r@.len() > 0,
    {
        match self {
            ParseErrorCode::UnexpectedCharacter => {
                proof { reveal_strlit("parse.unexpected_character"); }
                "parse.unexpected_character"
            },
            ParseErrorCode::UnexpectedToken => {
                proof { reveal_strlit("parse.unexpected_token"); }
                "parse.unexpected_token"
            },
            ParseErrorCode::UnterminatedString => {
                proof { reveal_strlit("parse.unterminated_string"); }
                "parse.unterminated_string"
            },
            ParseErrorCode::UnterminatedSheetName => {
                proof { reveal_strlit("parse.unterminated_sheet_name"); }
                "parse.unterminated_sheet_name"
            },
            ParseErrorCode::UnterminatedStructuredReference => {
                proof { reveal_strlit("parse.unterminated_structured_reference"); }
                "parse.unterminated_structured_reference"
            },
            ParseErrorCode::UnknownErrorLiteral => {
                proof { reveal_strlit("parse.unknown_error_literal"); }
                "parse.unknown_error_literal"
            },
        }
    }
}

/// A numeric literal, kept as its exact source spelling.
#[derive(Debug, Clone, PartialEq)]
pub struct NumberLiteral {
    text: String,
}

impl View for NumberLiteral {
    type V = Seq<char>;

    closed spec fn view(&self) -> Seq<char> {
        self.text@
    }
}

impl NumberLiteral {
    /// Returns the literal exactly as written in the formula.
    pub fn text(&self) -> (r: &str)
        ensures
            r@ == self@,
    {
        self.text.as_str()
    }
}

/// One lexical token of a formula.
#[derive(Debug, Clone, PartialEq)]
pub enum Token {
    Number(NumberLiteral),
    Str(String),
    Ident(String),
    QuotedSheet(String),
    StructuredRef(String),
    ExternalWorkbook(String),
    ErrorLit(ErrorKind),
    Dollar,
    LParen,
    RParen,
    LBrace,
    RBrace,
    Comma,
    Semicolon,
    Colon,
    Bang,
    At,
    Hash,
    Intersection,
    Amp,
    Plus,
    Minus,
    Star,
    Slash,
    Caret,
    Percent,
    Eq,
    Ne,
    Lt,
    Le,
    Gt,
    Ge,
}

/// Mathematical model of a token: string payloads as character sequences.
pub enum TokenModel {
    Number(Seq<char>),
    Str(Seq<char>),
    Ident(Seq<char>),
    QuotedSheet(Seq<char>),
    StructuredRef(Seq<char>),
    ExternalWorkbook(Seq<char>),
    ErrorLit(ErrorKind),
    Dollar,
    LParen,
    RParen,
    LBrace,
    RBrace,
    Comma,
    Semicolon,
    Colon,
    Bang,
    At,
    Hash,
    Intersection,
    Amp,
    Plus,
    Minus,
    Star,
    Slash,
    Caret,
    Percent,
    Eq,
    Ne,
    Lt,
    Le,
    Gt,
    Ge,
}

impl View for Token {
    type V = TokenModel;

    open spec fn view(&self) -> TokenModel {
        match self {
            Token::Number(n) => TokenModel::Number(n@),
            Token::Str(s) => TokenModel::Str(s@),
            Token::Ident(s) => TokenModel::Ident(s@),
            Token::QuotedSheet(s) => TokenModel::QuotedSheet(s@),
            Token::StructuredRef(s) => TokenModel::StructuredRef(s@),
            Token::ExternalWorkbook(s) => TokenModel::ExternalWorkbook(s@),
            Token::ErrorLit(k) => TokenModel::ErrorLit(*k),
            Token::Dollar => TokenModel::Dollar,
            Token::LParen => TokenModel::LParen,
            Token::RParen => TokenModel::RParen,
            Token::LBrace => TokenModel::LBrace,
            Token::RBrace => TokenModel::RBrace,
            Token::Comma => TokenModel::Comma,
            Token::Semicolon => TokenModel::Semicolon,
            Token::Colon => TokenModel::Colon,
            Token::Bang => TokenModel::Bang,
            Token::At => TokenModel::At,
            Token::Hash => TokenModel::Hash,
            Token::Intersection => TokenModel::Intersection,
            Token::Amp => TokenModel::Amp,
            Token::Plus => TokenModel::Plus,
            Token::Minus => TokenModel::Minus,
            Token::Star => TokenModel::Star,
            Token::Slash => TokenModel::Slash,
            Token::Caret => TokenModel::Caret,
            Token::Percent => TokenModel::Percent,
            Token::Eq => TokenModel::Eq,
            Token::Ne => TokenModel::Ne,
            Token::Lt => TokenModel::Lt,
            Token::Le => TokenModel::Le,
            Token::Gt => TokenModel::Gt,
            Token::Ge => TokenModel::Ge,
        }
    }
}

/// A token with the UTF-8 byte span it was read from.
#[derive(Debug, Clone, PartialEq)]
pub struct SpannedToken {
    pub token: Token,
    pub span: SourceSpan,
}

/// Mathematical model of a spanned token.
pub struct SpannedTokenModel {
    pub token: TokenModel,
    pub span: SourceSpan,
}

impl View for SpannedToken {
    type V = SpannedTokenModel;

    open spec fn view(&self) -> SpannedTokenModel {
        SpannedTokenModel { token: self.token@, span: self.span }
    }
}

/// The semantic token stream of a formula and the byte spans of its whitespace runs.
#[derive(Debug, Clone, PartialEq)]
pub struct LexedFormula {
    pub tokens: Vec<SpannedToken>,
    pub trivia_spans: Vec<SourceSpan>,
}

/// Mathematical model of a lexed formula.
pub struct LexedModel {
    pub tokens: Seq<SpannedTokenModel>,
    pub trivia: Seq<SourceSpan>,
}

impl View for LexedFormula {
    type V = LexedModel;

    open spec fn view(&self) -> LexedModel {
        LexedModel {
            tokens: self.tokens@.map_values(|t: SpannedToken| t@),
            trivia: self.trivia_spans@,
        }
    }
}

/// Why formula text could not be tokenized or parsed, where, and which limit was reached.
#[derive(Debug, Clone, Copy, PartialEq, Eq, Structural)]
pub struct ParseError {
    pub code: ParseErrorCode,
    pub span: SourceSpan,
    pub limit: Option<CalculationLimitKind>,
}

impl From<LexError> for ParseError {
    fn from(error: LexError) -> (r: Self) {
        ParseError { code: error.code, span: error.span, limit: error.limit }
    }
}

impl vstd::std_specs::convert::FromSpecImpl<LexError> for ParseError {
    open spec fn obeys_from_spec() -> bool {
        true
    }

    open spec fn from_spec(error: LexError) -> ParseError {
        ParseError { code: error.code, span: error.span, limit: error.limit }
    }
}

/// Why formula text could not be tokenized.
#[derive(Debug, Clone, Copy, PartialEq, Eq, Structural)]
pub struct LexError {
    pub span: SourceSpan,
    pub code: ParseErrorCode,
    pub limit: Option<CalculationLimitKind>,
}

/// First character of an identifier.
pub open spec fn ident_start(c: char) -> bool {
    is_alphabetic_char(c) || c == '_' || c == '\\'
}

/// Continuation character of an identifier.
pub open spec fn ident_continue(c: char) -> bool {
    is_alphanumeric_char(c) || c == '_' || c == '.'
}

/// End of the whitespace run starting at `i`.
pub open spec fn whitespace_end(chars: Seq<char>, i: int) -> int
    decreases chars.len() - i,
{
    if 0 <= i < chars.len() && is_whitespace_char(chars[i]) {
        whitespace_end(chars, i + 1)
    } else {
        i
    }
}

/// End of the identifier-continuation run starting at `i`.
pub open spec fn ident_end(chars: Seq<char>, i: int) -> int
    decreases chars.len() - i,
{
    if 0 <= i < chars.len() && ident_continue(chars[i]) {
        ident_end(chars, i + 1)
    } else {
        i
    }
}

/// End of the ASCII-digit run starting at `i`.
pub open spec fn digit_end(chars: Seq<char>, i: int) -> int
    decreases chars.len() - i,
{
    if 0 <= i < chars.len() && is_ascii_digit_char(chars[i]) {
        digit_end(chars, i + 1)
    } else {
        i
    }
}

/// Body of a literal quoted by `q`, from index `j` with `acc` already read: the unescaped text
/// and the index after the closing quote, or `None` when the quote is never closed. A doubled
/// quote stands for one quote character.
pub open spec fn quoted_body(chars: Seq<char>, j: int, q: char, acc: Seq<char>) -> Option<(Seq<char>, int)>
    decreases chars.len() - j,
{
    if j < 0 || j >= chars.len() {
        None
    } else if chars[j] == q {
        if j + 1 < chars.len() && chars[j + 1] == q {
            quoted_body(chars, j + 2, q, acc.push(q))
        } else {
            Some((acc, j + 1))
        }
    } else {
        quoted_body(chars, j + 1, q, acc.push(chars[j]))
    }
}

/// Index just after the `]` that closes the bracket group being scanned at `cursor` with the
/// given nesting depth; a quote escapes the following character.
pub open spec fn bracket_end(chars: Seq<char>, cursor: int, depth: nat) -> Option<int>
    decreases chars.len() - cursor,
{
    if cursor < 0 || cursor >= chars.len() {
        None
    } else if chars[cursor] == '\'' && cursor + 1 < chars.len() {
        bracket_end(chars, cursor + 2, depth)
    } else if chars[cursor] == '[' {
        bracket_end(chars, cursor + 1, depth + 1)
    } else if chars[cursor] == ']' {
        let d: nat = if depth == 0 { 0 } else { (depth - 1) as nat };
        if d == 0 {
            Some(cursor + 1)
        } else {
            bracket_end(chars, cursor + 1, d)
        }
    } else {
        bracket_end(chars, cursor + 1, depth)
    }
}

/// Index just after the quote that closes a quoted sheet name scanned from `j` (or the end).
pub open spec fn quote_skip(chars: Seq<char>, j: int) -> int
    decreases chars.len() - j,
{
    if j < 0 || j >= chars.len() {
        j
    } else if chars[j] == '\'' {
        if j + 1 < chars.len() && chars[j + 1] == '\'' {
            quote_skip(chars, j + 2)
        } else {
            j + 1
        }
    } else {
        quote_skip(chars, j + 1)
    }
}

pub open spec fn char_at_is(chars: Seq<char>, i: int, c: char) -> bool {
    0 <= i < chars.len() && chars[i] == c
}

/// Whether a sheet prefix followed by `!` starts at `cursor`, so that the bracket group before
/// it names an external workbook.
pub open spec fn external_link_follows_spec(chars: Seq<char>, cursor: int) -> bool {
    if !(0 <= cursor < chars.len()) {
        false
    } else if chars[cursor] == '!' {
        true
    } else if chars[cursor] == '\'' {
        char_at_is(chars, quote_skip(chars, cursor + 1), '!')
    } else if ident_start(chars[cursor]) {
        let a = ident_end(chars, cursor);
        if char_at_is(chars, a, ':') {
            let b = a + 1;
            if !(0 <= b < chars.len()) || !ident_start(chars[b]) {
                false
            } else {
                char_at_is(chars, ident_end(chars, b + 1), '!')
            }
        } else {
            char_at_is(chars, a, '!')
        }
    } else {
        false
    }
}

/// The recognised error literals, in matching order.
pub open spec fn error_literal(index: int) -> Seq<char> {
    if index == 0 {
        "#UNSUPPORTED!"@
    } else if index == 1 {
        "#SPILL!"@
    } else if index == 2 {
        "#DIV/0!"@
    } else if index == 3 {
        "#VALUE!"@
    } else if index == 4 {
        "#NAME?"@
    } else if index == 5 {
        "#NULL!"@
    } else if index == 6 {
        "#CALC!"@
    } else if index == 7 {
        "#NUM!"@
    } else if index == 8 {
        "#REF!"@
    } else {
        "#N/A"@
    }
}

/// The error value named by each literal.
pub open spec fn error_literal_kind(index: int) -> ErrorKind {
    if index == 0 {
        ErrorKind::Unsupported
    } else if index == 1 {
        ErrorKind::Spill
    } else if index == 2 {
        ErrorKind::Div0
    } else if index == 3 {
        ErrorKind::Value
    } else if index == 4 {
        ErrorKind::Name
    } else if index == 5 {
        ErrorKind::Null
    } else if index == 6 {
        ErrorKind::Calc
    } else if index == 7 {
        ErrorKind::Num
    } else if index == 8 {
        ErrorKind::Ref
    } else {
        ErrorKind::NA
    }
}

/// Whether `lit` matches the source at `i`, ignoring ASCII case.
pub open spec fn literal_at(chars: Seq<char>, i: int, lit: Seq<char>) -> bool {
    &&& 0 <= i
    &&& i + lit.len() <= chars.len()
    &&& forall|k: int| 0 <= k < lit.len() ==> #[trigger] ascii_upper(chars[i + k]) == lit[k]
}

/// Index of the first error literal that matches at `i`, searching from `from`.
pub open spec fn first_error_literal(chars: Seq<char>, i: int, from: int) -> Option<int>
    decreases 10 - from,
{
    if from < 0 || from >= 10 {
        None
    } else if literal_at(chars, i, error_literal(from)) {
        Some(from)
    } else {
        first_error_literal(chars, i, from + 1)
    }
}

/// End of the mantissa of a number starting at `i`: digits and at most one decimal point.
pub open spec fn mantissa_end(chars: Seq<char>, i: int, seen_dot: bool) -> int
    decreases chars.len() - i,
{
    if !(0 <= i < chars.len()) {
        i
    } else if is_ascii_digit_char(chars[i]) {
        mantissa_end(chars, i + 1, seen_dot)
    } else if chars[i] == '.' && !seen_dot {
        mantissa_end(chars, i + 1, true)
    } else {
        i
    }
}

/// Whether `chars[start..end]` contains an ASCII digit.
pub open spec fn has_digit(chars: Seq<char>, start: int, end: int) -> bool {
    exists|k: int| start <= k < end && #[trigger] is_ascii_digit_char(chars[k])
}

/// End of a number literal whose mantissa ends at `m`: an exponent is included only when it has
/// at least one digit.
pub open spec fn number_end(chars: Seq<char>, m: int) -> int {
    if char_at_is(chars, m, 'e') || char_at_is(chars, m, 'E') {
        let sign_end = if char_at_is(chars, m + 1, '+') || char_at_is(chars, m + 1, '-') {
            m + 2
        } else {
            m + 1
        };
        let e = digit_end(chars, sign_end);
        if e > sign_end { e } else { m }
    } else {
        m
    }
}

/// Outcome of scanning the token that starts at one non-whitespace character.
pub enum Scan {
    Token(TokenModel, int),
    Error(ParseErrorCode, int, int),
}

/// The single-character and two-character operators.
pub open spec fn operator_scan(chars: Seq<char>, i: int) -> Scan {
    let c = chars[i];
    if c == '$' {
        Scan::Token(TokenModel::Dollar, i + 1)
    } else if c == '(' {
        Scan::Token(TokenModel::LParen, i + 1)
    } else if c == ')' {
        Scan::Token(TokenModel::RParen, i + 1)
    } else if c == '{' {
        Scan::Token(TokenModel::LBrace, i + 1)
    } else if c == '}' {
        Scan::Token(TokenModel::RBrace, i + 1)
    } else if c == ',' {
        Scan::Token(TokenModel::Comma, i + 1)
    } else if c == ';' {
        Scan::Token(TokenModel::Semicolon, i + 1)
    } else if c == ':' {
        Scan::Token(TokenModel::Colon, i + 1)
    } else if c == '!' {
        Scan::Token(TokenModel::Bang, i + 1)
    } else if c == '@' {
        Scan::Token(TokenModel::At, i + 1)
    } else if c == '&' {
        Scan::Token(TokenModel::Amp, i + 1)
    } else if c == '+' {
        Scan::Token(TokenModel::Plus, i + 1)
    } else if c == '-' {
        Scan::Token(TokenModel::Minus, i + 1)
    } else if c == '*' {
        Scan::Token(TokenModel::Star, i + 1)
    } else if c == '/' {
        Scan::Token(TokenModel::Slash, i + 1)
    } else if c == '^' {
        Scan::Token(TokenModel::Caret, i + 1)
    } else if c == '%' {
        Scan::Token(TokenModel::Percent, i + 1)
    } else if c == '=' {
        Scan::Token(TokenModel::Eq, i + 1)
    } else if c == '<' && char_at_is(chars, i + 1, '>') {
        Scan::Token(TokenModel::Ne, i + 2)
    } else if c == '<' && char_at_is(chars, i + 1, '=') {
        Scan::Token(TokenModel::Le, i + 2)
    } else if c == '<' {
        Scan::Token(TokenModel::Lt, i + 1)
    } else if c == '>' && char_at_is(chars, i + 1, '=') {
        Scan::Token(TokenModel::Ge, i + 2)
    } else if c == '>' {
        Scan::Token(TokenModel::Gt, i + 1)
    } else {
        Scan::Error(ParseErrorCode::UnexpectedCharacter, i, i + 1)
    }
}

/// The source text of an operator or punctuation token; empty for the other tokens.
pub open spec fn operator_spelling(t: TokenModel) -> Seq<char> {
    match t {
        TokenModel::Dollar => seq!['$'],
        TokenModel::LParen => seq!['('],
        TokenModel::RParen => seq![')'],
        TokenModel::LBrace => seq!['{'],
        TokenModel::RBrace => seq!['}'],
        TokenModel::Comma => seq![','],
        TokenModel::Semicolon => seq![';'],
        TokenModel::Colon => seq![':'],
        TokenModel::Bang => seq!['!'],
        TokenModel::At => seq!['@'],
        TokenModel::Amp => seq!['&'],
        TokenModel::Plus => seq!['+'],
        TokenModel::Minus => seq!['-'],
        TokenModel::Star => seq!['*'],
        TokenModel::Slash => seq!['/'],
        TokenModel::Caret => seq!['^'],
        TokenModel::Percent => seq!['%'],
        TokenModel::Eq => seq!['='],
        TokenModel::Ne => seq!['<', '>'],
        TokenModel::Lt => seq!['<'],
        TokenModel::Le => seq!['<', '='],
        TokenModel::Gt => seq!['>'],
        TokenModel::Ge => seq!['>', '='],
        _ => Seq::empty(),
    }
}

/// Each operator token is the one its source text spells: the characters an operator token covers
/// are exactly its spelling, and where the text at `i` spells a two-character operator (`<>`,
/// `<=`, `>=`) that operator is read, not its one-character prefix.
pub proof fn lemma_operator_spelled(chars: Seq<char>, i: int)
    requires
        0 <= i < chars.len(),
    ensures
        operator_scan(chars, i) matches Scan::Token(t, end) ==> {
            &&& operator_spelling(t).len() > 0
            &&& end == i + operator_spelling(t).len()
            &&& end <= chars.len()
            &&& chars.subrange(i, end) == operator_spelling(t)
        },
        forall|t: TokenModel|
            #![trigger operator_spelling(t)]
            operator_spelling(t).len() == 2 && i + 2 <= chars.len() && chars.subrange(i, i + 2) == operator_spelling(t)
                ==> operator_scan(chars, i) == Scan::Token(t, i + 2),
{
    if let Scan::Token(t, end) = operator_scan(chars, i) {
        assert(chars.subrange(i, end) =~= operator_spelling(t));
    }
    assert forall|t: TokenModel|
        #![trigger operator_spelling(t)]
        operator_spelling(t).len() == 2 && i + 2 <= chars.len() && chars.subrange(i, i + 2) == operator_spelling(t)
            implies operator_scan(chars, i) == Scan::Token(t, i + 2) by {
        assert(chars.subrange(i, i + 2)[0] == chars[i]);
        assert(chars.subrange(i, i + 2)[1] == chars[i + 1]);
    }
}

/// The token that starts at the non-whitespace character `i`.
pub open spec fn scan(chars: Seq<char>, i: int) -> Scan {
    let c = chars[i];
    let n = chars.len() as int;
    if c == '"' {
        match quoted_body(chars, i + 1, '"', Seq::empty()) {
            None => Scan::Error(ParseErrorCode::UnterminatedString, i, n),
            Some((text, end)) => Scan::Token(TokenModel::Str(text), end),
        }
    } else if c == '\'' {
        match quoted_body(chars, i + 1, '\'', Seq::empty()) {
            None => Scan::Error(ParseErrorCode::UnterminatedSheetName, i, n),
            Some((text, end)) => Scan::Token(TokenModel::QuotedSheet(text), end),
        }
    } else if c == '#' {
        match first_error_literal(chars, i, 0) {
            Some(index) => Scan::Token(
                TokenModel::ErrorLit(error_literal_kind(index)),
                i + error_literal(index).len(),
            ),
            None => if i + 1 < n && is_alphabetic_char(chars[i + 1]) {
                Scan::Error(ParseErrorCode::UnknownErrorLiteral, i, i + 1)
            } else {
                Scan::Token(TokenModel::Hash, i + 1)
            },
        }
    } else if is_ascii_digit_char(c) || c == '.' {
        let m = mantissa_end(chars, i, false);
        if !has_digit(chars, i, m) {
            Scan::Error(ParseErrorCode::UnexpectedCharacter, i, i + 1)
        } else {
            let e = number_end(chars, m);
            if decimal_overflows(chars.subrange(i, m), exponent_of(chars, m, e)) {
                Scan::Token(TokenModel::ErrorLit(ErrorKind::Num), e)
            } else {
                Scan::Token(TokenModel::Number(chars.subrange(i, e)), e)
            }
        }
    } else if c == '[' {
        match bracket_end(chars, i, 0) {
            None => Scan::Error(ParseErrorCode::UnterminatedStructuredReference, i, n),
            Some(close) => if external_link_follows_spec(chars, close) {
                Scan::Token(TokenModel::ExternalWorkbook(chars.subrange(i, close)), close)
            } else {
                Scan::Token(TokenModel::StructuredRef(chars.subrange(i, close)), close)
            },
        }
    } else if ident_start(c) {
        let j = ident_end(chars, i + 1);
        if char_at_is(chars, j, '[') {
            match bracket_end(chars, j, 0) {
                None => Scan::Error(ParseErrorCode::UnterminatedStructuredReference, j, n),
                Some(close) => Scan::Token(TokenModel::StructuredRef(chars.subrange(i, close)), close),
            }
        } else {
            Scan::Token(TokenModel::Ident(chars.subrange(i, j)), j)
        }
    } else {
        operator_scan(chars, i)
    }
}

/// Byte offset of character boundary `i`.
pub open spec fn off(chars: Seq<char>, i: int) -> usize {
    byte_offset(chars, i) as usize
}

/// The raw token stream and trivia of `chars` from index `i`, continuing the accumulated
/// `tokens` and `trivia`.
pub open spec fn lex_from(
    chars: Seq<char>,
    i: int,
    tokens: Seq<SpannedTokenModel>,
    trivia: Seq<SourceSpan>,
    max_tokens: u64,
) -> Result<(Seq<SpannedTokenModel>, Seq<SourceSpan>), LexError>
    decreases chars.len() - i,
{
    if i < 0 || i >= chars.len() {
        Ok((tokens, trivia))
    } else if is_whitespace_char(chars[i]) {
        let j = whitespace_end(chars, i + 1);
        if j <= i || j > chars.len() {
            Ok((tokens, trivia))
        } else {
            let trivia2 = trivia.push(SourceSpan { start: off(chars, i), end: off(chars, j) });
            if tokens.len() > max_tokens {
                Err(token_limit_error(off(chars, j)))
            } else {
                lex_from(chars, j, tokens, trivia2, max_tokens)
            }
        }
    } else {
        match scan(chars, i) {
            Scan::Error(code, start, end) => Err(
                LexError {
                    span: SourceSpan { start: off(chars, start), end: off(chars, end) },
                    code,
                    limit: None,
                },
            ),
            Scan::Token(token, end) => {
                if end <= i || end > chars.len() {
                    Ok((tokens, trivia))
                } else {
                    let tokens2 = tokens.push(
                        SpannedTokenModel {
                            token,
                            span: SourceSpan { start: off(chars, i), end: off(chars, end) },
                        },
                    );
                    if tokens2.len() > max_tokens {
                        Err(token_limit_error(off(chars, end)))
                    } else {
                        lex_from(chars, end, tokens2, trivia, max_tokens)
                    }
                }
            },
        }
    }
}

/// The error reported when a formula has too many tokens.
pub open spec fn token_limit_error(at: usize) -> LexError {
    LexError {
        span: SourceSpan { start: at, end: at },
        code: ParseErrorCode::UnexpectedToken,
        limit: Some(CalculationLimitKind::FormulaTokens),
    }
}

/// Whether a token can end a reference expression.
pub open spec fn may_end_reference_spec(t: TokenModel) -> bool {
    match t {
        TokenModel::Ident(_) | TokenModel::QuotedSheet(_) | TokenModel::StructuredRef(_)
        | TokenModel::Number(_) | TokenModel::RParen | TokenModel::Hash => true,
        TokenModel::ErrorLit(kind) => kind == ErrorKind::Ref,
        _ => false,
    }
}

/// Base-26 value of a run of ASCII letters (A = 1), ignoring case.
pub open spec fn letters_value(s: Seq<char>) -> nat
    decreases s.len(),
{
    if s.len() == 0 {
        0
    } else {
        letters_value(s.drop_last()) * 26 + ((ascii_upper(s.last()) as int - 64) as nat)
    }
}

/// Decimal value of a run of ASCII digits.
pub open spec fn digits_value(s: Seq<char>) -> nat
    decreases s.len(),
{
    if s.len() == 0 {
        0
    } else {
        digits_value(s.drop_last()) * 10 + ((s.last() as int - 48) as nat)
    }
}

pub open spec fn all_ascii_alpha(s: Seq<char>) -> bool {
    forall|k: int| 0 <= k < s.len() ==> #[trigger] is_ascii_alpha_char(s[k])
}

pub open spec fn all_ascii_digits(s: Seq<char>) -> bool {
    forall|k: int| 0 <= k < s.len() ==> #[trigger] is_ascii_digit_char(s[k])
}

/// The worksheet column named by a run of letters, when it is within the sheet.
pub open spec fn column_number_spec(s: Seq<char>) -> Option<nat> {
    if s.len() > 0 && all_ascii_alpha(s) && letters_value(s) <= EXCEL_MAX_COLUMNS {
        Some(letters_value(s))
    } else {
        None
    }
}

/// End of the ASCII-letter run starting at `i`.
pub open spec fn alpha_end(s: Seq<char>, i: int) -> int
    decreases s.len() - i,
{
    if 0 <= i < s.len() && is_ascii_alpha_char(s[i]) {
        alpha_end(s, i + 1)
    } else {
        i
    }
}

/// Whether an identifier spells an A1 cell reference inside the sheet.
pub open spec fn looks_like_cell_reference_spec(s: Seq<char>) -> bool {
    let le = alpha_end(s, 0);
    &&& 0 < le < s.len()
    &&& column_number_spec(s.subrange(0, le)) is Some
    &&& all_ascii_digits(s.subrange(le, s.len() as int))
    &&& 0 < digits_value(s.subrange(le, s.len() as int)) <= EXCEL_MAX_ROWS
}

/// Whether the tokens end with  followed by a (possibly absolute) column name.
pub open spec fn ends_whole_column_reference_spec(tokens: Seq<SpannedTokenModel>) -> bool {
    &&& tokens.len() > 0
    &&& tokens.last().token matches TokenModel::Ident(column)
    &&& column_number_spec(column) is Some
    &&& {
        let last = tokens.len() - 1;
        let cursor = if last > 0 && tokens[last - 1].token is Dollar { last - 1 } else { last };
        cursor > 0 && tokens[cursor - 1].token is Colon
    }
}

/// Whether token `t` can start a reference that intersects the one before it.
pub open spec fn may_start_reference_spec(previous: Seq<SpannedTokenModel>, t: TokenModel) -> bool {
    &&& previous.len() > 0
    &&& match t {
        TokenModel::Ident(_) | TokenModel::QuotedSheet(_) | TokenModel::StructuredRef(_)
        | TokenModel::ExternalWorkbook(_) | TokenModel::Number(_) | TokenModel::Dollar
        | TokenModel::At => true,
        TokenModel::ErrorLit(kind) => kind == ErrorKind::Ref,
        TokenModel::LParen => {
            (match previous.last().token {
                TokenModel::Ident(ident) => looks_like_cell_reference_spec(ident),
                TokenModel::Number(_) | TokenModel::StructuredRef(_) | TokenModel::RParen
                | TokenModel::Hash => true,
                _ => false,
            }) || ends_whole_column_reference_spec(previous)
        },
        _ => false,
    }
}

/// Whether whitespace between the last emitted token and `t` is an intersection operator.
pub open spec fn intersects(out: Seq<SpannedTokenModel>, t: SpannedTokenModel) -> bool {
    &&& out.len() > 0
    &&& out.last().span.end < t.span.start
    &&& may_end_reference_spec(out.last().token)
    &&& may_start_reference_spec(out, t.token)
}

/// The semantic token stream: raw tokens from index `k` appended to `out`, with an intersection
/// token wherever whitespace separates two reference operands.
pub open spec fn with_intersections(
    raw: Seq<SpannedTokenModel>,
    k: int,
    out: Seq<SpannedTokenModel>,
) -> Seq<SpannedTokenModel>
    decreases raw.len() - k,
{
    if k < 0 || k >= raw.len() {
        out
    } else {
        let t = raw[k];
        let out2 = if intersects(out, t) {
            out.push(
                SpannedTokenModel {
                    token: TokenModel::Intersection,
                    span: SourceSpan { start: out.last().span.end, end: t.span.start },
                },
            )
        } else {
            out
        };
        with_intersections(raw, k + 1, out2.push(t))
    }
}

/// The complete result of tokenizing `chars` with at most `max_tokens` tokens.
pub open spec fn lex_spec(chars: Seq<char>, max_tokens: u64) -> Result<LexedModel, LexError> {
    match lex_from(chars, 0, Seq::empty(), Seq::empty(), max_tokens) {
        Err(e) => Err(e),
        Ok((raw, trivia)) => {
            let tokens = with_intersections(raw, 0, Seq::empty());
            if tokens.len() > max_tokens {
                Err(token_limit_error(off(chars, chars.len() as int)))
            } else {
                Ok(LexedModel { tokens, trivia })
            }
        },
    }
}

/// The smallest decimal value that rounds to infinity as an IEEE-754 double: 2^1024 - 2^970.
pub open spec fn double_overflow_threshold() -> Seq<char> {
    "179769313486231580793728971405303415079934132710037826936173778980444968292764750946649017977587207096330286416692887910946555547851940402630657488671505820681908902000708383676273854845817711531764475730270069855571366959622842914819860834936475292719074168444365510704342711559699508093042880177904174497792"@
}

/// Mantissa digits of a number literal without its decimal point.
pub open spec fn mantissa_digits(m: Seq<char>) -> Seq<char>
    decreases m.len(),
{
    if m.len() == 0 {
        m
    } else if m.last() == '.' {
        mantissa_digits(m.drop_last())
    } else {
        mantissa_digits(m.drop_last()).push(m.last())
    }
}

/// Number of mantissa digits after the decimal point.
pub open spec fn fraction_len(m: Seq<char>) -> int
    decreases m.len(),
{
    if m.len() == 0 {
        0
    } else if m.last() == '.' {
        0
    } else {
        1 + fraction_len(m.drop_last())
    }
}

/// Whether the mantissa contains a decimal point.
pub open spec fn has_point(m: Seq<char>) -> bool {
    m.contains('.')
}

/// Digits with leading zeros removed.
pub open spec fn strip_leading_zeros(s: Seq<char>) -> Seq<char>
    decreases s.len(),
{
    if s.len() > 0 && s[0] == '0' {
        strip_leading_zeros(s.drop_first())
    } else {
        s
    }
}

/// Signed value of the exponent `chars[m..e]` of a number literal (zero when `e == m`).
pub open spec fn exponent_of(chars: Seq<char>, m: int, e: int) -> int {
    if e <= m + 1 {
        0
    } else if chars[m + 1] == '-' {
        -(digits_value(chars.subrange(m + 2, e)) as int)
    } else if chars[m + 1] == '+' {
        digits_value(chars.subrange(m + 2, e)) as int
    } else {
        digits_value(chars.subrange(m + 1, e)) as int
    }
}

/// Whether digit string `a` is lexicographically (and so, at equal length, numerically) below `b`.
pub open spec fn digits_below(a: Seq<char>, b: Seq<char>) -> bool
    decreases a.len(),
{
    if a.len() == 0 || b.len() == 0 {
        false
    } else if a[0] != b[0] {
        a[0] < b[0]
    } else {
        digits_below(a.drop_first(), b.drop_first())
    }
}

pub open spec fn zeros(n: nat) -> Seq<char> {
    Seq::new(n, |i: int| '0')
}

/// Whether the number with decimal mantissa `mantissa` (digits and at most one point) and
/// decimal exponent `exponent` is at least the double-overflow threshold, so that reading it as
/// an IEEE-754 double gives infinity. With `sig` the significant mantissa digits, the value has
/// `mag` digits before its decimal point; at the threshold's width the padded digit strings are
/// compared.
pub open spec fn decimal_overflows(mantissa: Seq<char>, exponent: int) -> bool {
    let sig = strip_leading_zeros(mantissa_digits(mantissa));
    let frac = if has_point(mantissa) { fraction_len(mantissa) } else { 0 };
    let mag = sig.len() + exponent - frac;
    let t = double_overflow_threshold();
    let width: nat = if sig.len() > t.len() { sig.len() } else { t.len() };
    &&& sig.len() > 0
    &&& (mag > t.len() || (mag == t.len() && !digits_below(
        sig + zeros((width - sig.len()) as nat),
        t + zeros((width - t.len()) as nat),
    )))
}

fn whitespace_run_end(chars: &[char], i: usize) -> (r: usize)
    requires
        i <= chars@.len(),
    ensures
        r as int == whitespace_end(chars@, i as int),
        i <= r <= chars@.len(),
{
    let mut j = i;
    while j < chars.len() && char_is_whitespace(chars[j])
        invariant
            i <= j <= chars@.len(),
            whitespace_end(chars@, i as int) == whitespace_end(chars@, j as int),
        decreases chars.len() - j,
    {
        j = j + 1;
    }
    j
}

fn ident_run_end(chars: &[char], i: usize) -> (r: usize)
    requires
        i <= chars@.len(),
    ensures
        r as int == ident_end(chars@, i as int),
        i <= r <= chars@.len(),
{
    let mut j = i;
    while j < chars.len() && is_ident_continue(chars[j])
        invariant
            i <= j <= chars@.len(),
            ident_end(chars@, i as int) == ident_end(chars@, j as int),
        decreases chars.len() - j,
    {
        j = j + 1;
    }
    j
}

pub(crate) fn digit_run_end(chars: &[char], i: usize) -> (r: usize)
    requires
        i <= chars@.len(),
    ensures
        r as int == digit_end(chars@, i as int),
        i <= r <= chars@.len(),
{
    let mut j = i;
    while j < chars.len() && is_ascii_digit(chars[j])
        invariant
            i <= j <= chars@.len(),
            digit_end(chars@, i as int) == digit_end(chars@, j as int),
        decreases chars.len() - j,
    {
        j = j + 1;
    }
    j
}

fn is_ident_start(c: char) -> (r: bool)
    ensures
        r == ident_start(c),
{
    char_is_alphabetic(c) || c == '_' || c == '\\'
}

fn is_ident_continue(c: char) -> (r: bool)
    ensures
        r == ident_continue(c),
{
    char_is_alphanumeric(c) || c == '_' || c == '.'
}

fn char_at(chars: &[char], i: usize, c: char) -> (r: bool)
    ensures
        r == char_at_is(chars@, i as int, c),
{
    i < chars.len() && chars[i] == c
}

/// Reads a literal quoted by `q` whose opening quote is at `i`.
fn scan_quoted(chars: &[char], i: usize, q: char) -> (r: Option<(String, usize)>)
    requires
        i < chars.len(),
    ensures
        match r {
            None => quoted_body(chars@, i + 1, q, Seq::empty()) is None,
            Some((text, end)) => quoted_body(chars@, i + 1, q, Seq::empty()) == Some(
                (text@, end as int),
            ) && i < end <= chars@.len(),
        },
{
    let mut text = String::new();
    let mut j = i + 1;
    loop
        invariant
            i < j <= chars@.len(),
            quoted_body(chars@, i + 1, q, Seq::empty()) == quoted_body(chars@, j as int, q, text@),
        decreases chars.len() - j,
    {
        if j >= chars.len() {
            return None;
        }
        if chars[j] == q {
            if j + 1 < chars.len() && chars[j + 1] == q {
                push_char(&mut text, q);
                j = j + 2;
            } else {
                return Some((text, j + 1));
            }
        } else {
            push_char(&mut text, chars[j]);
            j = j + 1;
        }
    }
}

/// Index just after the bracket that closes the group opened at `open`.
fn consume_balanced_brackets(chars: &[char], open: usize) -> (r: Option<usize>)
    requires
        open < chars@.len(),
    ensures
        match r {
            None => bracket_end(chars@, open as int, 0) is None,
            Some(close) => bracket_end(chars@, open as int, 0) == Some(close as int) && open < close
                <= chars@.len(),
        },
{
    let mut depth: usize = 0;
    let mut cursor = open;
    while cursor < chars.len()
        invariant
            open <= cursor <= chars@.len() + 1,
            depth <= cursor,
            cursor == open ==> depth == 0,
            bracket_end(chars@, open as int, 0) == bracket_end(chars@, cursor as int, depth as nat),
        decreases chars.len() + 1 - cursor,
    {
        let c = chars[cursor];
        if c == '\'' && cursor + 1 < chars.len() {
            cursor = cursor + 2;
        } else if c == '[' {
            depth = depth + 1;
            cursor = cursor + 1;
        } else if c == ']' {
            depth = if depth == 0 { 0 } else { depth - 1 };
            cursor = cursor + 1;
            if depth == 0 {
                return Some(cursor);
            }
        } else {
            cursor = cursor + 1;
        }
    }
    None
}

fn skip_quoted(chars: &[char], start: usize) -> (r: usize)
    requires
        start <= chars@.len(),
    ensures
        r as int == quote_skip(chars@, start as int),
        r <= chars@.len(),
{
    let mut cursor = start;
    while cursor < chars.len()
        invariant
            start <= cursor <= chars@.len(),
            quote_skip(chars@, start as int) == quote_skip(chars@, cursor as int),
        decreases chars.len() - cursor,
    {
        if chars[cursor] == '\'' {
            if cursor + 1 < chars.len() && chars[cursor + 1] == '\'' {
                cursor = cursor + 2;
            } else {
                return cursor + 1;
            }
        } else {
            cursor = cursor + 1;
        }
    }
    cursor
}

/// Whether a sheet prefix ending in `!` follows a bracket group ending at `cursor`.
fn external_link_follows(chars: &[char], cursor: usize) -> (r: bool)
    requires
        cursor <= chars@.len(),
    ensures
        r == external_link_follows_spec(chars@, cursor as int),
{
    if cursor >= chars.len() {
        return false;
    }
    let c = chars[cursor];
    if c == '!' {
        true
    } else if c == '\'' {
        let after = skip_quoted(chars, cursor + 1);
        char_at(chars, after, '!')
    } else if is_ident_start(c) {
        let a = ident_run_end(chars, cursor);
        if char_at(chars, a, ':') {
            let b = a + 1;
            if b >= chars.len() || !is_ident_start(chars[b]) {
                false
            } else {
                let e = ident_run_end(chars, b + 1);
                char_at(chars, e, '!')
            }
        } else {
            char_at(chars, a, '!')
        }
    } else {
        false
    }
}


fn error_literal_text(index: usize) -> (r: &'static str)
    requires
        index < 10,
    ensures
        r@ == error_literal(index as int),
{
    if index == 0 {
        "#UNSUPPORTED!"
    } else if index == 1 {
        "#SPILL!"
    } else if index == 2 {
        "#DIV/0!"
    } else if index == 3 {
        "#VALUE!"
    } else if index == 4 {
        "#NAME?"
    } else if index == 5 {
        "#NULL!"
    } else if index == 6 {
        "#CALC!"
    } else if index == 7 {
        "#NUM!"
    } else if index == 8 {
        "#REF!"
    } else {
        "#N/A"
    }
}

fn error_literal_kind_at(index: usize) -> (r: ErrorKind)
    ensures
        r == error_literal_kind(index as int),
{
    if index == 0 {
        ErrorKind::Unsupported
    } else if index == 1 {
        ErrorKind::Spill
    } else if index == 2 {
        ErrorKind::Div0
    } else if index == 3 {
        ErrorKind::Value
    } else if index == 4 {
        ErrorKind::Name
    } else if index == 5 {
        ErrorKind::Null
    } else if index == 6 {
        ErrorKind::Calc
    } else if index == 7 {
        ErrorKind::Num
    } else if index == 8 {
        ErrorKind::Ref
    } else {
        ErrorKind::NA
    }
}

fn literal_matches(chars: &[char], i: usize, lit: &[char]) -> (r: bool)
    ensures
        r == literal_at(chars@, i as int, lit@),
{
    if lit.len() > chars.len() || i > chars.len() - lit.len() {
        return false;
    }
    let mut k: usize = 0;
    while k < lit.len()
        invariant
            k <= lit@.len(),
            i + lit.len() <= chars.len(),
            forall|m: int| 0 <= m < k ==> #[trigger] ascii_upper(chars@[i + m]) == lit@[m],
        decreases lit.len() - k,
    {
        if to_ascii_upper(chars[i + k]) != lit[k] {
            return false;
        }
        k = k + 1;
    }
    true
}

fn find_error_literal(chars: &[char], i: usize) -> (r: Option<usize>)
    ensures
        match r {
            None => first_error_literal(chars@, i as int, 0) is None,
            Some(index) => first_error_literal(chars@, i as int, 0) == Some(index as int) && index
                < 10,
        },
{
    let mut index: usize = 0;
    while index < 10
        invariant
            index <= 10,
            first_error_literal(chars@, i as int, 0) == first_error_literal(
                chars@,
                i as int,
                index as int,
            ),
        decreases 10 - index,
    {
        let lit = chars_of(error_literal_text(index));
        if literal_matches(chars, i, lit.as_slice()) {
            return Some(index);
        }
        index = index + 1;
    }
    None
}

/// End of the mantissa starting at `i` and whether it holds a digit.
fn scan_mantissa(chars: &[char], i: usize) -> (r: (usize, bool))
    requires
        i < chars@.len(),
        is_ascii_digit_char(chars@[i as int]) || chars@[i as int] == '.',
    ensures
        r.0 as int == mantissa_end(chars@, i as int, false),
        r.1 == has_digit(chars@, i as int, r.0 as int),
        i < r.0 <= chars@.len(),
{
    let mut j = i;
    let mut seen_dot = false;
    let mut seen_digit = false;
    while j < chars.len() && (is_ascii_digit(chars[j]) || (chars[j] == '.' && !seen_dot))
        invariant
            i <= j <= chars@.len(),
            j == i ==> !seen_dot,
            mantissa_end(chars@, i as int, false) == mantissa_end(chars@, j as int, seen_dot),
            seen_digit == has_digit(chars@, i as int, j as int),
        decreases chars.len() - j,
    {
        if is_ascii_digit(chars[j]) {
            seen_digit = true;
        } else {
            seen_dot = true;
        }
        j = j + 1;
    }
    (j, seen_digit)
}

fn scan_number_end(chars: &[char], m: usize) -> (r: usize)
    requires
        m <= chars.len(),
    ensures
        r as int == number_end(chars@, m as int),
        m <= r <= chars@.len(),
{
    if char_at(chars, m, 'e') || char_at(chars, m, 'E') {
        assert(m < chars.len());
        let sign_end = if char_at(chars, m + 1, '+') || char_at(chars, m + 1, '-') {
            m + 2
        } else {
            m + 1
        };
        let e = digit_run_end(chars, sign_end);
        if e > sign_end {
            e
        } else {
            m
        }
    } else {
        m
    }
}


pub const COLUMN_CAP: u32 = 16_385;
pub const ROW_CAP: u32 = 1_048_577;

proof fn lemma_letters_step(s: Seq<char>, k: int)
    requires
        0 <= k < s.len(),
        is_ascii_alpha_char(s[k]),
    ensures
        letters_value(s.subrange(0, k + 1)) == letters_value(s.subrange(0, k)) * 26 + ((ascii_upper(s[k]) as int - 64) as nat),
        1 <= ascii_upper(s[k]) as int - 64 <= 26,
{
    assert(s.subrange(0, k + 1).drop_last() =~= s.subrange(0, k));
}

proof fn lemma_digits_step(s: Seq<char>, k: int)
    requires
        0 <= k < s.len(),
        is_ascii_digit_char(s[k]),
    ensures
        digits_value(s.subrange(0, k + 1)) == digits_value(s.subrange(0, k)) * 10 + ((s[k] as int - 48) as nat),
        0 <= s[k] as int - 48 <= 9,
{
    assert(s.subrange(0, k + 1).drop_last() =~= s.subrange(0, k));
}

/// The column named by `s[start..end]`, when it is a run of letters inside the sheet.
pub(crate) fn column_number(s: &[char], start: usize, end: usize) -> (r: Option<u32>)
    requires
        start <= end <= s@.len(),
    ensures
        match r {
            None => column_number_spec(s@.subrange(start as int, end as int)) is None,
            Some(v) => column_number_spec(s@.subrange(start as int, end as int)) == Some(v as nat),
        },
{
    let ghost sub = s@.subrange(start as int, end as int);
    if start == end {
        return None;
    }
    let mut value: u32 = 0;
    let mut k = start;
    while k < end
        invariant
            start <= k <= end <= s@.len(),
            sub == s@.subrange(start as int, end as int),
            all_ascii_alpha(sub.subrange(0, k - start)),
            value as int == if letters_value(sub.subrange(0, k - start)) < COLUMN_CAP {
                letters_value(sub.subrange(0, k - start)) as int
            } else {
                COLUMN_CAP as int
            },
        decreases end - k,
    {
        let c = s[k];
        if !is_ascii_alpha(c) {
            assert(sub[k - start] == c);
            return None;
        }
        proof {
            lemma_letters_step(sub, k - start);
            assert(sub.subrange(0, k + 1 - start) =~= sub.subrange(0, k - start).push(c));
        }
        let d = (to_ascii_upper(c) as u32) - 64;
        if value >= COLUMN_CAP {
            value = COLUMN_CAP;
        } else {
            let next = value * 26 + d;
            value = if next >= COLUMN_CAP { COLUMN_CAP } else { next };
        }
        k = k + 1;
    }
    assert(sub.subrange(0, end - start) =~= sub);
    if value > EXCEL_MAX_COLUMNS {
        None
    } else {
        Some(value)
    }
}

/// The value of the ASCII-digit run `s[start..end]`, capped just above the last sheet row.
pub(crate) fn capped_row_number(s: &[char], start: usize, end: usize) -> (r: Option<u32>)
    requires
        start <= end <= s@.len(),
    ensures
        match r {
            None => !all_ascii_digits(s@.subrange(start as int, end as int)),
            Some(v) => all_ascii_digits(s@.subrange(start as int, end as int)) && v as int == if digits_value(s@.subrange(start as int, end as int)) < ROW_CAP {
                digits_value(s@.subrange(start as int, end as int)) as int
            } else {
                ROW_CAP as int
            },
        },
{
    let ghost sub = s@.subrange(start as int, end as int);
    let mut value: u32 = 0;
    let mut k = start;
    while k < end
        invariant
            start <= k <= end <= s@.len(),
            sub == s@.subrange(start as int, end as int),
            all_ascii_digits(sub.subrange(0, k - start)),
            value as int == if digits_value(sub.subrange(0, k - start)) < ROW_CAP {
                digits_value(sub.subrange(0, k - start)) as int
            } else {
                ROW_CAP as int
            },
        decreases end - k,
    {
        let c = s[k];
        if !is_ascii_digit(c) {
            assert(sub[k - start] == c);
            return None;
        }
        proof {
            lemma_digits_step(sub, k - start);
            assert(sub.subrange(0, k + 1 - start) =~= sub.subrange(0, k - start).push(c));
        }
        let d = (c as u32) - 48;
        if value >= ROW_CAP {
            value = ROW_CAP;
        } else {
            let next = value * 10 + d;
            value = if next >= ROW_CAP { ROW_CAP } else { next };
        }
        k = k + 1;
    }
    assert(sub.subrange(0, end - start) =~= sub);
    Some(value)
}

pub(crate) fn alpha_run_end(s: &[char]) -> (r: usize)
    ensures
        r as int == alpha_end(s@, 0),
        r <= s@.len(),
{
    let mut j: usize = 0;
    while j < s.len() && is_ascii_alpha(s[j])
        invariant
            j <= s@.len(),
            alpha_end(s@, 0) == alpha_end(s@, j as int),
        decreases s.len() - j,
    {
        j = j + 1;
    }
    j
}

/// Whether an identifier spells an A1 cell reference inside the sheet.
fn looks_like_cell_reference(ident: &str) -> (r: bool)
    ensures
        r == looks_like_cell_reference_spec(ident@),
{
    let s = chars_of(ident);
    let le = alpha_run_end(s.as_slice());
    if le == 0 || le == s.len() {
        return false;
    }
    if column_number(s.as_slice(), 0, le).is_none() {
        return false;
    }
    match capped_row_number(s.as_slice(), le, s.len()) {
        None => false,
        Some(row) => row > 0 && row <= EXCEL_MAX_ROWS,
    }
}

fn may_end_reference(token: &Token) -> (r: bool)
    ensures
        r == may_end_reference_spec(token@),
{
    match token {
        Token::Ident(_) | Token::QuotedSheet(_) | Token::StructuredRef(_) | Token::Number(_)
        | Token::RParen | Token::Hash => true,
        Token::ErrorLit(kind) => matches!(kind, ErrorKind::Ref),
        _ => false,
    }
}

fn ends_whole_column_reference(tokens: &Vec<SpannedToken>) -> (r: bool)
    ensures
        r == ends_whole_column_reference_spec(tokens@.map_values(|t: SpannedToken| t@)),
{
    let ghost model = tokens@.map_values(|t: SpannedToken| t@);
    if tokens.len() == 0 {
        return false;
    }
    let last = tokens.len() - 1;
    let column = match &tokens[last].token {
        Token::Ident(column) => column,
        _ => return false,
    };
    let cs = chars_of(column.as_str());
    if column_number(cs.as_slice(), 0, cs.len()).is_none() {
        assert(cs@.subrange(0, cs@.len() as int) =~= cs@);
        return false;
    }
    assert(cs@.subrange(0, cs@.len() as int) =~= cs@);
    let mut cursor = last;
    if cursor > 0 && matches!(tokens[cursor - 1].token, Token::Dollar) {
        cursor = cursor - 1;
    }
    cursor > 0 && matches!(tokens[cursor - 1].token, Token::Colon)
}

fn may_start_reference(previous: &Vec<SpannedToken>, token: &Token) -> (r: bool)
    ensures
        r == may_start_reference_spec(previous@.map_values(|t: SpannedToken| t@), token@),
{
    if previous.len() == 0 {
        return false;
    }
    match token {
        Token::Ident(_) | Token::QuotedSheet(_) | Token::StructuredRef(_)
        | Token::ExternalWorkbook(_) | Token::Number(_) | Token::Dollar | Token::At => true,
        Token::ErrorLit(kind) => matches!(kind, ErrorKind::Ref),
        Token::LParen => {
            let last = previous.len() - 1;
            let by_previous = match &previous[last].token {
                Token::Ident(ident) => looks_like_cell_reference(ident.as_str()),
                Token::Number(_) | Token::StructuredRef(_) | Token::RParen | Token::Hash => true,
                _ => false,
            };
            by_previous || ends_whole_column_reference(previous)
        },
        _ => false,
    }
}


const EXPONENT_CAP: u128 = 0x40_0000_0000_0000_0000;

proof fn lemma_digit_end_digits(chars: Seq<char>, x: int)
    requires
        0 <= x <= chars.len(),
    ensures
        x <= digit_end(chars, x) <= chars.len(),
        forall|k: int| x <= k < digit_end(chars, x) ==> #[trigger] is_ascii_digit_char(chars[k]),
    decreases chars.len() - x,
{
    if x < chars.len() && is_ascii_digit_char(chars[x]) {
        lemma_digit_end_digits(chars, x + 1);
    }
}

/// The value of the digit run `chars[s..e]`, capped at `EXPONENT_CAP`.
fn capped_digits(chars: &[char], s: usize, e: usize) -> (r: u128)
    requires
        s <= e <= chars@.len(),
        forall|k: int| s <= k < e ==> #[trigger] is_ascii_digit_char(chars@[k]),
    ensures
        r as int == if digits_value(chars@.subrange(s as int, e as int)) < EXPONENT_CAP {
            digits_value(chars@.subrange(s as int, e as int)) as int
        } else {
            EXPONENT_CAP as int
        },
{
    let ghost sub = chars@.subrange(s as int, e as int);
    let mut value: u128 = 0;
    let mut k = s;
    while k < e
        invariant
            s <= k <= e <= chars@.len(),
            sub == chars@.subrange(s as int, e as int),
            forall|j: int| s <= j < e ==> #[trigger] is_ascii_digit_char(chars@[j]),
            value as int == if digits_value(sub.subrange(0, k - s)) < EXPONENT_CAP {
                digits_value(sub.subrange(0, k - s)) as int
            } else {
                EXPONENT_CAP as int
            },
        decreases e - k,
    {
        let c = chars[k];
        assert(sub[k - s] == c);
        proof {
            lemma_digits_step(sub, k - s);
        }
        let d = (c as u32 as u128) - 48;
        if value >= EXPONENT_CAP {
            value = EXPONENT_CAP;
        } else {
            let next = value * 10 + d;
            value = if next >= EXPONENT_CAP { EXPONENT_CAP } else { next };
        }
        k = k + 1;
    }
    assert(sub.subrange(0, e - s) =~= sub);
    value
}

/// The exponent of a number literal as a sign and a capped magnitude.
fn exponent_parts(chars: &[char], m: usize, e: usize) -> (r: (bool, u128))
    requires
        m <= e <= chars@.len(),
        e as int == number_end(chars@, m as int),
    ensures
        ({
            let x = exponent_of(chars@, m as int, e as int);
            let mag = if x < 0 { -x } else { x };
            &&& r.1 as int == if mag < EXPONENT_CAP { mag } else { EXPONENT_CAP as int }
            &&& (r.0 ==> x <= 0)
            &&& (!r.0 ==> x >= 0)
        }),
{
    if e <= m || e - m <= 1 {
        return (false, 0);
    }
    let sign_end = if chars[m + 1] == '-' || chars[m + 1] == '+' { m + 2 } else { m + 1 };
    proof {
        lemma_digit_end_digits(chars@, sign_end as int);
    }
    let v = capped_digits(chars, sign_end, e);
    (chars[m + 1] == '-', v)
}

proof fn lemma_strip_skip(s: Seq<char>, k: int)
    requires
        0 <= k <= s.len(),
        forall|j: int| 0 <= j < k ==> s[j] == '0',
    ensures
        strip_leading_zeros(s) == strip_leading_zeros(s.skip(k)),
    decreases k,
{
    assert(s.skip(0) =~= s);
    if k > 0 {
        assert(s.skip(1) =~= s.drop_first());
        lemma_strip_skip(s.drop_first(), k - 1);
        assert(s.drop_first().skip(k - 1) =~= s.skip(k));
    }
}

proof fn lemma_digits_below_skip(a: Seq<char>, b: Seq<char>, k: int)
    requires
        0 <= k <= a.len(),
        a.len() == b.len(),
        forall|j: int| 0 <= j < k ==> a[j] == b[j],
    ensures
        digits_below(a, b) == digits_below(a.skip(k), b.skip(k)),
    decreases k,
{
    assert(a.skip(0) =~= a);
    assert(b.skip(0) =~= b);
    if k > 0 {
        assert(a.skip(1) =~= a.drop_first());
        assert(b.skip(1) =~= b.drop_first());
        lemma_digits_below_skip(a.drop_first(), b.drop_first(), k - 1);
        assert(a.drop_first().skip(k - 1) =~= a.skip(k));
        assert(b.drop_first().skip(k - 1) =~= b.skip(k));
    }
}

/// Whether the number literal with mantissa `chars[i..m]` and exponent `chars[m..e]` overflows a
/// double.
fn literal_overflows(chars: &[char], i: usize, m: usize, e: usize) -> (r: bool)
    requires
        i <= m <= e <= chars@.len(),
        e as int == number_end(chars@, m as int),
    ensures
        r == decimal_overflows(chars@.subrange(i as int, m as int), exponent_of(chars@, m as int, e as int)),
{
    let ghost mant = chars@.subrange(i as int, m as int);
    let (negative, exponent) = exponent_parts(chars, m, e);
    let mut digits: Vec<char> = Vec::new();
    let mut frac: usize = 0;
    let mut point = false;
    let mut k = i;
    while k < m
        invariant
            i <= k <= m <= chars@.len(),
            mant == chars@.subrange(i as int, m as int),
            digits@ == mantissa_digits(mant.subrange(0, k - i)),
            frac as int == fraction_len(mant.subrange(0, k - i)),
            frac <= k - i,
            point == has_point(mant.subrange(0, k - i)),
        decreases m - k,
    {
        let c = chars[k];
        let ghost prefix = mant.subrange(0, k - i);
        assert(mant.subrange(0, k + 1 - i) =~= prefix.push(c));
        assert(mant.subrange(0, k + 1 - i).drop_last() =~= prefix);
        if c == '.' {
            frac = 0;
            point = true;
            assert(prefix.push(c).contains('.')) by {
                assert(prefix.push(c)[prefix.len() as int] == '.');
            }
        } else {
            digits.push(c);
            frac = frac + 1;
            assert(prefix.push(c).contains('.') == prefix.contains('.')) by {
                if prefix.push(c).contains('.') {
                    let w = choose|w: int| 0 <= w < prefix.push(c).len() && prefix.push(c)[w] == '.';
                    assert(w < prefix.len());
                    assert(prefix[w] == '.');
                }
                if prefix.contains('.') {
                    let w = choose|w: int| 0 <= w < prefix.len() && prefix[w] == '.';
                    assert(prefix.push(c)[w] == '.');
                }
            }
        }
        k = k + 1;
    }
    assert(mant.subrange(0, m - i) =~= mant);
    let mut z: usize = 0;
    while z < digits.len() && digits[z] == '0'
        invariant
            z <= digits@.len(),
            forall|j: int| 0 <= j < z ==> digits@[j] == '0',
        decreases digits.len() - z,
    {
        z = z + 1;
    }
    proof {
        lemma_strip_skip(digits@, z as int);
        if z < digits@.len() {
            assert(digits@.skip(z as int)[0] != '0');
        }
    }
    let ghost sig = digits@.skip(z as int);
    assert(strip_leading_zeros(digits@) == sig);
    let sig_len = digits.len() - z;
    if sig_len == 0 {
        return false;
    }
    let t = chars_of("179769313486231580793728971405303415079934132710037826936173778980444968292764750946649017977587207096330286416692887910946555547851940402630657488671505820681908902000708383676273854845817711531764475730270069855571366959622842914819860834936475292719074168444365510704342711559699508093042880177904174497792");
    proof {
        reveal_strlit("179769313486231580793728971405303415079934132710037826936173778980444968292764750946649017977587207096330286416692887910946555547851940402630657488671505820681908902000708383676273854845817711531764475730270069855571366959622842914819860834936475292719074168444365510704342711559699508093042880177904174497792");
    }
    let frac_used: i128 = if point { frac as i128 } else { 0 };
    let signed_exponent: i128 = if negative { -(exponent as i128) } else { exponent as i128 };
    let mag: i128 = sig_len as i128 + signed_exponent - frac_used;
    let t_len = t.len() as i128;
    if mag > t_len {
        return true;
    }
    if mag < t_len {
        return false;
    }
    let width = if sig_len > t.len() { sig_len } else { t.len() };
    let ghost a = sig + zeros((width - sig_len) as nat);
    let ghost b = t@ + zeros((width - t@.len()) as nat);
    assert(decimal_overflows(mant, exponent_of(chars@, m as int, e as int)) == !digits_below(a, b));
    let mut j: usize = 0;
    while j < width
        invariant
            decimal_overflows(chars@.subrange(i as int, m as int), exponent_of(chars@, m as int, e as int))
                == !digits_below(a, b),
            j <= width,
            width == if sig_len > t@.len() { sig_len } else { t@.len() as usize },
            a == sig + zeros((width - sig_len) as nat),
            b == t@ + zeros((width - t@.len()) as nat),
            a.len() == width,
            b.len() == width,
            sig_len == sig.len(),
            sig == digits@.skip(z as int),
            z + sig_len == digits.len(),
            forall|x: int| 0 <= x < j ==> a[x] == b[x],
        decreases width - j,
    {
        let x = if j < sig_len { digits[z + j] } else { '0' };
        let y = if j < t.len() { t[j] } else { '0' };
        assert(a[j as int] == x);
        assert(b[j as int] == y);
        if x != y {
            proof {
                lemma_digits_below_skip(a, b, j as int);
                assert(a.skip(j as int)[0] == x);
                assert(b.skip(j as int)[0] == y);
                assert(digits_below(a.skip(j as int), b.skip(j as int)) == (x < y));
            }
            return !(x < y);
        }
        j = j + 1;
    }
    proof {
        lemma_digits_below_skip(a, b, width as int);
    }
    true
}

fn operator_token(chars: &[char], i: usize) -> (r: Result<(Token, usize), (ParseErrorCode, usize, usize)>)
    requires
        i < chars.len(),
    ensures
        match r {
            Ok((t, e)) => operator_scan(chars@, i as int) == Scan::Token(t@, e as int) && i < e
                <= chars@.len(),
            Err((code, s, e)) => operator_scan(chars@, i as int) == Scan::Error(
                code,
                s as int,
                e as int,
            ) && s <= e <= chars@.len(),
        },
{
    let c = chars[i];
    let (token, width): (Token, usize) = if c == '$' {
        (Token::Dollar, 1)
    } else if c == '(' {
        (Token::LParen, 1)
    } else if c == ')' {
        (Token::RParen, 1)
    } else if c == '{' {
        (Token::LBrace, 1)
    } else if c == '}' {
        (Token::RBrace, 1)
    } else if c == ',' {
        (Token::Comma, 1)
    } else if c == ';' {
        (Token::Semicolon, 1)
    } else if c == ':' {
        (Token::Colon, 1)
    } else if c == '!' {
        (Token::Bang, 1)
    } else if c == '@' {
        (Token::At, 1)
    } else if c == '&' {
        (Token::Amp, 1)
    } else if c == '+' {
        (Token::Plus, 1)
    } else if c == '-' {
        (Token::Minus, 1)
    } else if c == '*' {
        (Token::Star, 1)
    } else if c == '/' {
        (Token::Slash, 1)
    } else if c == '^' {
        (Token::Caret, 1)
    } else if c == '%' {
        (Token::Percent, 1)
    } else if c == '=' {
        (Token::Eq, 1)
    } else if c == '<' && char_at(chars, i + 1, '>') {
        (Token::Ne, 2)
    } else if c == '<' && char_at(chars, i + 1, '=') {
        (Token::Le, 2)
    } else if c == '<' {
        (Token::Lt, 1)
    } else if c == '>' && char_at(chars, i + 1, '=') {
        (Token::Ge, 2)
    } else if c == '>' {
        (Token::Gt, 1)
    } else {
        return Err((ParseErrorCode::UnexpectedCharacter, i, i + 1));
    };
    Ok((token, i + width))
}

proof fn lemma_first_error_literal(chars: Seq<char>, i: int, from: int)
    ensures
        first_error_literal(chars, i, from) matches Some(x) ==> literal_at(chars, i, error_literal(x))
            && 0 <= x < 10,
    decreases 10 - from,
{
    if 0 <= from < 10 && !literal_at(chars, i, error_literal(from)) {
        lemma_first_error_literal(chars, i, from + 1);
    }
}

proof fn lemma_error_literals_nonempty(x: int)
    ensures
        error_literal(x).len() > 0,
{
    reveal_strlit("#UNSUPPORTED!");
    reveal_strlit("#SPILL!");
    reveal_strlit("#DIV/0!");
    reveal_strlit("#VALUE!");
    reveal_strlit("#NAME?");
    reveal_strlit("#NULL!");
    reveal_strlit("#CALC!");
    reveal_strlit("#NUM!");
    reveal_strlit("#REF!");
    reveal_strlit("#N/A");
}

/// Reads the token that starts at the non-whitespace character `i`.
fn scan_token(chars: &[char], i: usize) -> (r: Result<(Token, usize), (ParseErrorCode, usize, usize)>)
    requires
        i < chars.len(),
    ensures
        match r {
            Ok((t, e)) => scan(chars@, i as int) == Scan::Token(t@, e as int) && i < e
                <= chars@.len(),
            Err((code, s, e)) => scan(chars@, i as int) == Scan::Error(code, s as int, e as int)
                && s <= e <= chars@.len(),
        },
{
    let c = chars[i];
    let n = chars.len();
    if c == '"' {
        match scan_quoted(chars, i, '"') {
            None => Err((ParseErrorCode::UnterminatedString, i, n)),
            Some((text, end)) => Ok((Token::Str(text), end)),
        }
    } else if c == '\'' {
        match scan_quoted(chars, i, '\'') {
            None => Err((ParseErrorCode::UnterminatedSheetName, i, n)),
            Some((text, end)) => Ok((Token::QuotedSheet(text), end)),
        }
    } else if c == '#' {
        match find_error_literal(chars, i) {
            Some(index) => {
                let lit = chars_of(error_literal_text(index));
                proof {
                    lemma_first_error_literal(chars@, i as int, 0);
                    lemma_error_literals_nonempty(index as int);
                }
                Ok((Token::ErrorLit(error_literal_kind_at(index)), i + lit.len()))
            },
            None => {
                if i + 1 < n && char_is_alphabetic(chars[i + 1]) {
                    Err((ParseErrorCode::UnknownErrorLiteral, i, i + 1))
                } else {
                    Ok((Token::Hash, i + 1))
                }
            },
        }
    } else if is_ascii_digit(c) || c == '.' {
        let (m, seen_digit) = scan_mantissa(chars, i);
        if !seen_digit {
            return Err((ParseErrorCode::UnexpectedCharacter, i, i + 1));
        }
        let e = scan_number_end(chars, m);
        if literal_overflows(chars, i, m, e) {
            Ok((Token::ErrorLit(ErrorKind::Num), e))
        } else {
            let text = string_from_range(chars, i, e);
            Ok((Token::Number(NumberLiteral { text }), e))
        }
    } else if c == '[' {
        match consume_balanced_brackets(chars, i) {
            None => Err((ParseErrorCode::UnterminatedStructuredReference, i, n)),
            Some(close) => {
                let raw = string_from_range(chars, i, close);
                if external_link_follows(chars, close) {
                    Ok((Token::ExternalWorkbook(raw), close))
                } else {
                    Ok((Token::StructuredRef(raw), close))
                }
            },
        }
    } else if is_ident_start(c) {
        let j = ident_run_end(chars, i + 1);
        if char_at(chars, j, '[') {
            match consume_balanced_brackets(chars, j) {
                None => Err((ParseErrorCode::UnterminatedStructuredReference, j, n)),
                Some(close) => Ok((Token::StructuredRef(string_from_range(chars, i, close)), close)),
            }
        } else {
            Ok((Token::Ident(string_from_range(chars, i, j)), j))
        }
    } else {
        operator_token(chars, i)
    }
}


/// One step of the intersection pass: the output after appending raw token `t`.
pub open spec fn intersection_step(out: Seq<SpannedTokenModel>, t: SpannedTokenModel) -> Seq<SpannedTokenModel> {
    let out2 = if intersects(out, t) {
        out.push(
            SpannedTokenModel {
                token: TokenModel::Intersection,
                span: SourceSpan { start: out.last().span.end, end: t.span.start },
            },
        )
    } else {
        out
    };
    out2.push(t)
}

proof fn lemma_with_intersections_push(
    raw: Seq<SpannedTokenModel>,
    t: SpannedTokenModel,
    k: int,
    out: Seq<SpannedTokenModel>,
)
    requires
        0 <= k <= raw.len(),
    ensures
        with_intersections(raw.push(t), k, out) == intersection_step(
            with_intersections(raw, k, out),
            t,
        ),
    decreases raw.len() - k,
{
    if k < raw.len() {
        assert(raw.push(t)[k] == raw[k]);
        let u = raw[k];
        let out2 = if intersects(out, u) {
            out.push(
                SpannedTokenModel {
                    token: TokenModel::Intersection,
                    span: SourceSpan { start: out.last().span.end, end: u.span.start },
                },
            )
        } else {
            out
        };
        lemma_with_intersections_push(raw, t, k + 1, out2.push(u));
    } else {
        assert(raw.push(t)[k] == t);
        assert(with_intersections(raw.push(t), k + 1, intersection_step(out, t)) == intersection_step(out, t));
    }
}

/// The tokens that come from the text itself: every token but the intersection operators.
pub open spec fn source_tokens(tokens: Seq<SpannedTokenModel>) -> Seq<SpannedTokenModel>
    decreases tokens.len(),
{
    if tokens.len() == 0 {
        Seq::empty()
    } else {
        let rest = source_tokens(tokens.drop_last());
        if tokens.last().token is Intersection { rest } else { rest.push(tokens.last()) }
    }
}

/// The spans of `tokens`.
pub open spec fn token_spans(tokens: Seq<SpannedTokenModel>) -> Seq<SourceSpan> {
    tokens.map_values(|t: SpannedTokenModel| t.span)
}

/// The total number of bytes `spans` cover, counted span by span.
pub open spec fn spans_length(spans: Seq<SourceSpan>) -> int
    decreases spans.len(),
{
    if spans.len() == 0 {
        0
    } else {
        spans_length(spans.drop_last()) + (spans.last().end - spans.last().start)
    }
}

/// Whether `spans` are non-empty, ascending without overlap, and end by `end`.
pub open spec fn ascending_spans(spans: Seq<SourceSpan>, end: int) -> bool {
    &&& forall|i: int| 0 <= i < spans.len() ==> (#[trigger] spans[i]).start < spans[i].end <= end
    &&& forall|i: int, j: int| #![trigger spans[i], spans[j]] 0 <= i < j < spans.len() ==> spans[i].end <= spans[j].start
}

/// Whether two lists of spans tile the bytes `0..end`: each list non-empty, ascending spans, no
/// span of one overlapping a span of the other, and their lengths adding up to `end`.
pub open spec fn spans_tile(a: Seq<SourceSpan>, b: Seq<SourceSpan>, end: int) -> bool {
    &&& ascending_spans(a, end)
    &&& ascending_spans(b, end)
    &&& forall|i: int, j: int| 0 <= i < a.len() && 0 <= j < b.len()
        ==> #[trigger] a[i].end <= #[trigger] b[j].start || b[j].end <= a[i].start
    &&& spans_length(a) + spans_length(b) == end
}

proof fn lemma_tile_push(a: Seq<SourceSpan>, b: Seq<SourceSpan>, s: usize, e: usize)
    requires
        spans_tile(a, b, s as int),
        s < e,
    ensures
        spans_tile(a.push(SourceSpan { start: s, end: e }), b, e as int),
        spans_tile(b, a.push(SourceSpan { start: s, end: e }), e as int),
{
    let a2 = a.push(SourceSpan { start: s, end: e });
    assert(a2.drop_last() =~= a);
    assert forall|i: int| 0 <= i < a2.len() implies (#[trigger] a2[i]).start < a2[i].end <= e by {
        if i < a.len() {
            assert(a2[i] == a[i]);
        }
    }
    assert forall|i: int, j: int| #![trigger a2[i], a2[j]] 0 <= i < j < a2.len() implies a2[i].end <= a2[j].start by {
        assert(a2[i] == a[i]);
        if j < a.len() {
            assert(a2[j] == a[j]);
        }
    }
    assert forall|i: int, j: int| 0 <= i < a2.len() && 0 <= j < b.len()
        implies #[trigger] a2[i].end <= #[trigger] b[j].start || b[j].end <= a2[i].start by {
        if i < a.len() {
            assert(a2[i] == a[i]);
        }
    }
}

proof fn lemma_tile_swap(a: Seq<SourceSpan>, b: Seq<SourceSpan>, end: int)
    requires
        spans_tile(a, b, end),
    ensures
        spans_tile(b, a, end),
{
    assert forall|j: int, i: int| 0 <= j < b.len() && 0 <= i < a.len()
        implies #[trigger] b[j].end <= #[trigger] a[i].start || a[i].end <= b[j].start by {
        assert(a[i].end <= b[j].start || b[j].end <= a[i].start);
    }
}

proof fn lemma_byte_offset_strict(chars: Seq<char>, i: int, j: int)
    requires
        0 <= i < j <= chars.len(),
    ensures
        byte_offset(chars, i) < byte_offset(chars, j),
{
    lemma_byte_offset_monotonic(chars, i, j - 1);
    assert(byte_offset(chars, j) == byte_offset(chars, j - 1) + utf8_width(chars[j - 1]));
}

proof fn lemma_source_tokens_step(out: Seq<SpannedTokenModel>, t: SpannedTokenModel)
    requires
        !(t.token is Intersection),
    ensures
        source_tokens(intersection_step(out, t)) == source_tokens(out).push(t),
{
    let out2 = if intersects(out, t) {
        out.push(
            SpannedTokenModel {
                token: TokenModel::Intersection,
                span: SourceSpan { start: out.last().span.end, end: t.span.start },
            },
        )
    } else {
        out
    };
    let stepped = intersection_step(out, t);
    assert(stepped == out2.push(t));
    assert(stepped.drop_last() =~= out2);
    assert(stepped.last() == t);
    if intersects(out, t) {
        assert(out2.drop_last() =~= out);
        assert(out2.last().token is Intersection);
    }
    assert(source_tokens(stepped) == source_tokens(stepped.drop_last()).push(t));
}

/// Tokenizes formula text into semantic tokens with UTF-8 byte spans.
///
/// Whitespace between two reference operands becomes an intersection token; other whitespace is
/// reported as trivia. Fails on an unterminated literal, an unknown error literal, an unexpected
/// character, or when more than `max_tokens` tokens are produced.
pub fn lex_spanned(input: &str, max_tokens: u64) -> (r: Result<LexedFormula, LexError>)
    ensures
        match r {
            Ok(lexed) => lex_spec(input@, max_tokens) == Ok::<LexedModel, LexError>(lexed@),
            Err(e) => lex_spec(input@, max_tokens) == Err::<LexedModel, LexError>(e),
        },
        r matches Ok(lexed) ==> spans_tile(
            token_spans(source_tokens(lexed@.tokens)),
            lexed@.trivia,
            byte_offset(input@, input@.len() as int) as int,
        ),
{
    let chars = chars_of(input);
    let input_len = input.as_bytes().len();
    proof {
        lemma_str_len_is_byte_offset(input);
    }
    let offsets = char_offsets(chars.as_slice());
    let mut semantic: Vec<SpannedToken> = Vec::new();
    let mut trivia_spans: Vec<SourceSpan> = Vec::new();
    let ghost mut raw: Seq<SpannedTokenModel> = Seq::empty();
    let mut raw_count: u64 = 0;
    let mut index: usize = 0;
    while index < chars.len()
        invariant
            chars@ == input@,
            input_len == byte_offset(chars@, chars@.len() as int),
            offsets@.len() == chars@.len() + 1,
            forall|x: int| 0 <= x <= chars@.len() ==> #[trigger] offsets@[x] == byte_offset(chars@, x),
            index <= chars@.len(),
            raw_count == raw.len(),
            raw_count <= max_tokens,
            raw.len() <= index,
            lex_from(chars@, 0, Seq::empty(), Seq::empty(), max_tokens) == lex_from(
                chars@,
                index as int,
                raw,
                trivia_spans@,
                max_tokens,
            ),
            semantic@.map_values(|t: SpannedToken| t@) == with_intersections(raw, 0, Seq::empty()),
            semantic@.len() <= 2 * raw.len(),
            source_tokens(semantic@.map_values(|t: SpannedToken| t@)) == raw,
            spans_tile(token_spans(raw), trivia_spans@, byte_offset(chars@, index as int) as int),
        decreases chars.len() - index,
    {
        proof {
            lemma_byte_offset_monotonic(chars@, index as int, chars@.len() as int);
        }
        let start = index;
        if char_is_whitespace(chars[index]) {
            let end = whitespace_run_end(chars.as_slice(), index + 1);
            proof {
                lemma_byte_offset_monotonic(chars@, end as int, chars@.len() as int);
            }
            proof {
                lemma_byte_offset_strict(chars@, start as int, end as int);
                lemma_tile_swap(token_spans(raw), trivia_spans@, byte_offset(chars@, start as int) as int);
                lemma_tile_push(trivia_spans@, token_spans(raw), offsets@[start as int], offsets@[end as int]);
            }
            trivia_spans.push(SourceSpan::new(offsets[start], offsets[end]));
            index = end;
        } else {
            match scan_token(chars.as_slice(), index) {
                Err((code, s, e)) => {
                    proof {
                        lemma_byte_offset_monotonic(chars@, s as int, chars@.len() as int);
                        lemma_byte_offset_monotonic(chars@, e as int, chars@.len() as int);
                    }
                    return Err(
                        LexError {
                            span: SourceSpan::new(offsets[s], offsets[e]),
                            code,
                            limit: None,
                        },
                    );
                },
                Ok((token, end)) => {
                    proof {
                        lemma_byte_offset_monotonic(chars@, end as int, chars@.len() as int);
                    }
                    let span = SourceSpan::new(offsets[start], offsets[end]);
                    let spanned = SpannedToken { token, span };
                    let ghost before = semantic@.map_values(|t: SpannedToken| t@);
                    proof {
                        lemma_with_intersections_push(raw, spanned@, 0, Seq::empty());
                    }
                    let n = semantic.len();
                    if n > 0 && semantic[n - 1].span.end < span.start && may_end_reference(
                        &semantic[n - 1].token,
                    ) && may_start_reference(&semantic, &spanned.token) {
                        let between = SourceSpan::new(semantic[n - 1].span.end, span.start);
                        semantic.push(SpannedToken { token: Token::Intersection, span: between });
                    }
                    semantic.push(spanned);
                    proof {
                        assert(!(spanned@.token is Intersection));
                        lemma_source_tokens_step(before, spanned@);
                        lemma_byte_offset_strict(chars@, start as int, end as int);
                        lemma_tile_push(token_spans(raw), trivia_spans@, offsets@[start as int], offsets@[end as int]);
                        assert(token_spans(raw.push(spanned@)) =~= token_spans(raw).push(spanned@.span));
                        raw = raw.push(spanned@);
                        assert(semantic@.map_values(|t: SpannedToken| t@) =~= intersection_step(before, spanned@));
                    }
                    raw_count = raw_count + 1;
                    index = end;
                    if raw_count > max_tokens {
                        return Err(
                            LexError {
                                span: SourceSpan::empty(offsets[index]),
                                code: ParseErrorCode::UnexpectedToken,
                                limit: Some(CalculationLimitKind::FormulaTokens),
                            },
                        );
                    }
                },
            }
        }
    }
    let semantic_count = semantic.len();
    if semantic_count as u64 > max_tokens {
        return Err(
            LexError {
                span: SourceSpan::empty(input_len),
                code: ParseErrorCode::UnexpectedToken,
                limit: Some(CalculationLimitKind::FormulaTokens),
            },
        );
    }
    Ok(LexedFormula { tokens: semantic, trivia_spans })
}


/// How an identifier splits into column letters and an optional row: `None` unless it starts
/// with ASCII letters followed by nothing or by ASCII digits naming a sheet row.
pub open spec fn split_cell_ident_spec(s: Seq<char>) -> Option<(Seq<char>, Option<u32>)> {
    let le = alpha_end(s, 0);
    let rest = s.skip(le);
    if le <= 0 {
        None
    } else if rest.len() == 0 {
        Some((s.take(le), None))
    } else if !all_ascii_digits(rest) {
        None
    } else if 0 < digits_value(rest) <= EXCEL_MAX_ROWS {
        Some((s.take(le), Some(digits_value(rest) as u32)))
    } else {
        None
    }
}

/// Splits an identifier such as `AB12` into its column letters and row, or `AB` into its letters
/// alone; `None` when it does not have that shape or the row is outside the sheet.
pub fn split_cell_ident(ident: &str) -> (r: Option<(String, Option<u32>)>)
    ensures
        match (r, split_cell_ident_spec(ident@)) {
            (Some((letters, row)), Some((expected, expected_row))) => letters@ == expected && row == expected_row,
            (None, None) => true,
            _ => false,
        },
{
    let chars = chars_of(ident);
    let le = alpha_run_end(chars.as_slice());
    if le == 0 {
        return None;
    }
    let letters = string_from_range(chars.as_slice(), 0, le);
    assert(chars@.subrange(0, le as int) =~= chars@.take(le as int));
    assert(chars@.subrange(le as int, chars@.len() as int) =~= chars@.skip(le as int));
    if le == chars.len() {
        return Some((letters, None));
    }
    match capped_row_number(chars.as_slice(), le, chars.len()) {
        None => None,
        Some(row) => {
            if row == 0 || row > EXCEL_MAX_ROWS {
                None
            } else {
                Some((letters, Some(row)))
            }
        },
    }
}

} // verus!
