use cellrune::lexer::{lex_spanned, split_cell_ident, ParseErrorCode, SourceSpan, Token};

#[test]
fn preserves_utf8_byte_spans_and_whitespace_trivia() {
    let lexed = lex_spanned("표[A]  B1", 100).expect("lexed");
    assert_eq!(lexed.tokens[0].span, SourceSpan::new(0, 6));
    assert_eq!(lexed.trivia_spans, [SourceSpan::new(6, 8)]);
    assert!(matches!(lexed.tokens[1].token, Token::Intersection));
}

#[test]
fn external_workbooks_are_typed_tokens() {
    for formula in ["[1]Sheet1!A1", "[Book.xlsx]Sheet1!A1", "[1]!Name"] {
        let lexed = lex_spanned(formula, 100).expect(formula);
        assert!(matches!(
            lexed.tokens.first().map(|token| &token.token),
            Some(Token::ExternalWorkbook(_))
        ));
    }
}

#[test]
fn bracket_sweep_never_panics() {
    const ALPHABET: [char; 7] = ['[', ']', '\'', '!', 'a', '#', '@'];
    let mut inputs = vec![String::new()];
    for _ in 0..6 {
        let mut next = Vec::new();
        for input in &inputs {
            for character in ALPHABET {
                let mut value = input.clone();
                value.push(character);
                next.push(value);
            }
        }
        for input in &next {
            if let Err(error) = lex_spanned(input, 64) {
                assert!(!error.code.as_str().is_empty());
            }
        }
        inputs = next;
    }
}

#[test]
fn unterminated_utf8_token_reports_byte_span() {
    let error = lex_spanned("\"표", 100).expect_err("unterminated");
    assert_eq!(error.code, ParseErrorCode::UnterminatedString);
    assert_eq!(error.span, SourceSpan::new(0, 4));
}

#[test]
fn token_limit_is_reported_at_the_first_excess_token() {
    let error = lex_spanned("1+2+3", 2).expect_err("too many tokens");
    assert!(error.limit.is_some());
}

#[test]
fn cell_identifiers_split_into_letters_and_rows() {
    assert_eq!(split_cell_ident("AB12"), Some(("AB".to_owned(), Some(12))));
    assert_eq!(split_cell_ident("xfd"), Some(("xfd".to_owned(), None)));
    assert_eq!(split_cell_ident("A0"), None);
    assert_eq!(split_cell_ident("A1048577"), None);
    assert_eq!(split_cell_ident("A00000000000000000001"), Some(("A".to_owned(), Some(1))));
    assert_eq!(split_cell_ident("A1B"), None);
    assert_eq!(split_cell_ident("1A"), None);
}

#[test]
fn source_token_and_trivia_spans_tile_the_input() {
    let input = "SUM( A1 ,  표1 )  B2";
    let lexed = lex_spanned(input, 100).expect("lexed");
    let mut spans: Vec<SourceSpan> = lexed
        .tokens
        .iter()
        .filter(|t| !matches!(t.token, Token::Intersection))
        .map(|t| t.span)
        .chain(lexed.trivia_spans.iter().copied())
        .collect();
    spans.sort_by_key(|s| s.start);
    let mut at = 0;
    for span in spans {
        assert_eq!(span.start, at);
        assert!(span.end > span.start);
        at = span.end;
    }
    assert_eq!(at, input.len());
}

#[test]
fn whitespace_classification_matches_std_for_every_char() {
    for code in 0..=0x10FFFF_u32 {
        if let Some(c) = char::from_u32(code) {
            assert_eq!(cellrune::text::char_is_whitespace(c), c.is_whitespace(), "U+{code:04X}");
        }
    }
}
