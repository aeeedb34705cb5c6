use cellrune::value::ErrorKind;
use cellrune::xmatch::{
    Comparison, XMatchMode, XSearchMode, xmatch_binary, xmatch_linear, xmatch_match_mode, xmatch_search_mode,
};

fn search(values: &[i64], lookup: i64, mode: XMatchMode, ascending: bool) -> Result<u32, ErrorKind> {
    let compare_at = |i: u32| -> Result<Comparison, ErrorKind> {
        let value = values[i as usize];
        Ok(if value < lookup {
            Comparison::Less
        } else if value > lookup {
            Comparison::Greater
        } else {
            Comparison::Equal
        })
    };
    xmatch_binary(values.len() as u32, &compare_at, &|| Ok(()), mode, ascending)
}

#[test]
fn binary_xmatch_finds_exact_entries_in_either_direction() {
    assert_eq!(search(&[10, 20, 30, 40], 30, XMatchMode::Exact, true), Ok(2));
    assert_eq!(search(&[40, 30, 20, 10], 30, XMatchMode::Exact, false), Ok(1));
    assert_eq!(search(&[10, 20, 30, 40], 25, XMatchMode::Exact, true), Err(ErrorKind::NA));
    assert_eq!(search(&[], 25, XMatchMode::Exact, true), Err(ErrorKind::NA));
}

#[test]
fn binary_xmatch_takes_the_next_smaller_or_larger_entry() {
    let ascending = [10, 20, 30, 40];
    assert_eq!(search(&ascending, 25, XMatchMode::NextSmaller, true), Ok(1));
    assert_eq!(search(&ascending, 25, XMatchMode::NextLarger, true), Ok(2));
    assert_eq!(search(&ascending, 5, XMatchMode::NextSmaller, true), Err(ErrorKind::NA));
    assert_eq!(search(&ascending, 45, XMatchMode::NextLarger, true), Err(ErrorKind::NA));
    let descending = [40, 30, 20, 10];
    assert_eq!(search(&descending, 25, XMatchMode::NextSmaller, false), Ok(2));
    assert_eq!(search(&descending, 25, XMatchMode::NextLarger, false), Ok(1));
    assert_eq!(search(&descending, 45, XMatchMode::NextLarger, false), Err(ErrorKind::NA));
}

#[test]
fn binary_xmatch_refuses_wildcards_and_passes_on_probe_errors() {
    assert_eq!(search(&[10, 20], 10, XMatchMode::Wildcard, true), Err(ErrorKind::Value));
    let failing = |_: u32| -> Result<Comparison, ErrorKind> { Err(ErrorKind::Div0) };
    assert_eq!(xmatch_binary(3, &failing, &|| Ok(()), XMatchMode::Exact, true), Err(ErrorKind::Div0));
    let exhausted = || -> Result<(), ErrorKind> { Err(ErrorKind::Calc) };
    let compare = |_: u32| -> Result<Comparison, ErrorKind> { Ok(Comparison::Equal) };
    assert_eq!(xmatch_binary(3, &compare, &exhausted, XMatchMode::Exact, true), Err(ErrorKind::Calc));
}

fn order(a: i64, b: i64) -> Comparison {
    if a < b {
        Comparison::Less
    } else if a > b {
        Comparison::Greater
    } else {
        Comparison::Equal
    }
}

fn scan(values: &[i64], lookup: i64, mode: XMatchMode, reverse: bool) -> Result<u32, ErrorKind> {
    let compare_at = |i: u32| -> Result<Comparison, ErrorKind> { Ok(order(values[i as usize], lookup)) };
    let compare_entries =
        |a: u32, b: u32| -> Result<Comparison, ErrorKind> { Ok(order(values[a as usize], values[b as usize])) };
    let no_wildcards = |_: u32| -> Result<bool, ErrorKind> { Ok(false) };
    xmatch_linear(values.len() as u32, &compare_at, &compare_entries, &no_wildcards, &|| Ok(()), mode, reverse)
}

#[test]
fn linear_xmatch_returns_the_first_equal_entry_in_search_order() {
    let values = [5, 7, 5, 9];
    assert_eq!(scan(&values, 5, XMatchMode::Exact, false), Ok(0));
    assert_eq!(scan(&values, 5, XMatchMode::Exact, true), Ok(2));
    assert_eq!(scan(&values, 6, XMatchMode::Exact, false), Err(ErrorKind::NA));
}

#[test]
fn linear_xmatch_keeps_the_closest_approximate_entry_of_an_unsorted_vector() {
    let values = [30, 10, 25, 40, 12];
    assert_eq!(scan(&values, 20, XMatchMode::NextSmaller, false), Ok(4));
    assert_eq!(scan(&values, 20, XMatchMode::NextLarger, false), Ok(2));
    assert_eq!(scan(&values, 5, XMatchMode::NextSmaller, false), Err(ErrorKind::NA));
    assert_eq!(scan(&values, 50, XMatchMode::NextLarger, true), Err(ErrorKind::NA));
}

#[test]
fn linear_xmatch_tests_wildcards_entry_by_entry() {
    let texts = ["apple", "banana", "blueberry"];
    let starts_with_b = |i: u32| -> Result<bool, ErrorKind> { Ok(texts[i as usize].starts_with('b')) };
    let unused = |_: u32| -> Result<Comparison, ErrorKind> { Err(ErrorKind::Value) };
    let unused_pair = |_: u32, _: u32| -> Result<Comparison, ErrorKind> { Err(ErrorKind::Value) };
    assert_eq!(xmatch_linear(3, &unused, &unused_pair, &starts_with_b, &|| Ok(()), XMatchMode::Wildcard, false), Ok(1));
    assert_eq!(xmatch_linear(3, &unused, &unused_pair, &starts_with_b, &|| Ok(()), XMatchMode::Wildcard, true), Ok(2));
    let error_entry = |_: u32| -> Result<bool, ErrorKind> { Err(ErrorKind::Div0) };
    assert_eq!(xmatch_linear(3, &unused, &unused_pair, &error_entry, &|| Ok(()), XMatchMode::Wildcard, false), Err(ErrorKind::Div0));
}

#[test]
fn xmatch_modes_default_and_reject_unknown_numbers() {
    assert_eq!(xmatch_match_mode(None), Ok(XMatchMode::Exact));
    assert_eq!(xmatch_match_mode(Some(-1)), Ok(XMatchMode::NextSmaller));
    assert_eq!(xmatch_match_mode(Some(2)), Ok(XMatchMode::Wildcard));
    assert_eq!(xmatch_match_mode(Some(3)), Err(ErrorKind::Value));
    assert_eq!(xmatch_search_mode(None), Ok(XSearchMode::Forward));
    assert_eq!(xmatch_search_mode(Some(-2)), Ok(XSearchMode::BinaryDescending));
    assert_eq!(xmatch_search_mode(Some(0)), Err(ErrorKind::Value));
}
