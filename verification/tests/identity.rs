use cellrune::cell::{CellAddress, CellRange};
use cellrune::identity::SemanticHash;
use cellrune::lexer::{lex_spanned, ParseError};
use sha2::{Digest, Sha256};

fn hex(bytes: &[u8]) -> String {
    bytes.iter().map(|b| format!("{b:02x}")).collect()
}

#[test]
fn empty_hash_is_the_sha256_of_nothing() {
    assert_eq!(
        hex(&SemanticHash::new().finish()),
        "e3b0c44298fc1c149afbf4c8996fb92427ae41e4649b934ca495991b7852b855"
    );
}

#[test]
fn fields_are_framed_before_hashing() {
    let mut hash = SemanticHash::new();
    hash.string("ab");
    hash.optional_u32(None);
    hash.u32(0x0102_0304);
    let mut expected = Vec::new();
    expected.extend_from_slice(&2u64.to_le_bytes());
    expected.extend_from_slice(b"ab");
    expected.push(0);
    expected.extend_from_slice(&[4, 3, 2, 1]);
    let digest: [u8; 32] = Sha256::digest(&expected).into();
    assert_eq!(hash.finish(), digest);
}

#[test]
fn framing_separates_field_boundaries() {
    let mut split = SemanticHash::new();
    split.string("a");
    split.string("bc");
    let mut joined = SemanticHash::new();
    joined.string("ab");
    joined.string("c");
    assert_ne!(split.finish(), joined.finish());
}

#[test]
fn ranges_feed_both_corners() {
    let start = CellAddress::from_indices(1, 2).expect("start");
    let end = CellAddress::from_indices(3, 4).expect("end");
    let mut by_range = SemanticHash::new();
    by_range.range(CellRange::new(start, end));
    let mut by_addresses = SemanticHash::new();
    by_addresses.address(start);
    by_addresses.address(end);
    assert_eq!(by_range.finish(), by_addresses.finish());
}

#[test]
fn cancelled_byte_feeds_stop() {
    let mut hash = SemanticHash::new();
    assert!(hash.bytes_cancellable(&[1, 2, 3], &|| true).is_err());
    let mut fed = SemanticHash::new();
    assert!(fed.bytes_cancellable(&[1, 2, 3], &|| false).is_ok());
    let mut direct = SemanticHash::new();
    direct.bytes(&[1, 2, 3]);
    assert_eq!(fed.finish(), direct.finish());
}

#[test]
fn lexer_errors_convert_to_parse_errors() {
    let error = lex_spanned("\"open", 100).expect_err("unterminated string");
    let parsed = ParseError::from(error.clone());
    assert_eq!(parsed.code, error.code);
    assert_eq!(parsed.span, error.span);
    assert_eq!(parsed.limit, error.limit);
}
