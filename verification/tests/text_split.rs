use std::cell::Cell;

use cellrune::calculation::CellValue;
use cellrune::text_split::{split, text_split_array, Delimiter};
use cellrune::value::ErrorKind;

fn delimiters(texts: &[&str]) -> Vec<Delimiter> {
    texts.iter().map(|t| Delimiter::new((*t).to_owned()).expect("non-empty")).collect()
}

#[test]
fn splits_at_every_delimiter_keeping_or_dropping_empty_pieces() {
    let ds = delimiters(&[",", ";"]);
    let ok = |_: u64| Ok(());
    let poll = || Ok(());
    assert_eq!(split("a,b;;c", &ds, false, false, &ok, &poll).expect("split"), vec!["a", "b", "", "c"]);
    assert_eq!(split("a,b;;c", &ds, true, false, &ok, &poll).expect("split"), vec!["a", "b", "c"]);
    assert_eq!(split("abc", &[], false, false, &ok, &poll).expect("whole"), vec!["abc"]);
    assert!(Delimiter::new(String::new()).is_none());
}

#[test]
fn the_longest_delimiter_wins_and_case_can_be_ignored() {
    let ds = delimiters(&["a", "ab"]);
    let ok = |_: u64| Ok(());
    let poll = || Ok(());
    assert_eq!(split("xaby", &ds, false, false, &ok, &poll).expect("split"), vec!["x", "y"]);
    assert_eq!(split("XaBy", &ds, false, true, &ok, &poll).expect("split"), vec!["X", "y"]);
    assert_eq!(split("XABy", &ds, false, false, &ok, &poll).expect("split"), vec!["XABy"]);
}

#[test]
fn charges_stop_the_split() {
    let ds = delimiters(&["--", "-"]);
    let charged = Cell::new(0u64);
    let budget = |work: u64| {
        charged.set(charged.get() + work);
        if charged.get() > 9 { Err(ErrorKind::Calc) } else { Ok(()) }
    };
    let poll = || Ok(());
    assert_eq!(split("abcdefgh", &ds, false, false, &budget, &poll), Err(ErrorKind::Calc));
    assert_eq!(charged.get(), 12);
}

fn text(s: &str) -> CellValue {
    CellValue::Text(s.to_owned())
}

#[test]
fn text_split_array_pads_short_rows_row_major() {
    let columns = delimiters(&[","]);
    let rows = delimiters(&[";"]);
    let ok = |_: u64| Ok(());
    let poll = || Ok(());
    let array = text_split_array("a,b;c", &columns, &rows, false, false, &CellValue::Error(ErrorKind::NA), &ok, &poll, &ok)
        .expect("array");
    assert_eq!(array.rows, 2);
    assert_eq!(array.cols, 2);
    assert_eq!(array.data, vec![text("a"), text("b"), text("c"), CellValue::Error(ErrorKind::NA)]);
}

#[test]
fn text_split_array_with_one_axis_keeps_the_other_whole() {
    let columns = delimiters(&["-"]);
    let ok = |_: u64| Ok(());
    let poll = || Ok(());
    let array = text_split_array("x-y-z", &columns, &[], false, false, &text("pad"), &ok, &poll, &ok).expect("array");
    assert_eq!((array.rows, array.cols), (1, 3));
    assert_eq!(array.data, vec![text("x"), text("y"), text("z")]);
    let rows = delimiters(&["-"]);
    let array = text_split_array("x-y", &[], &rows, false, false, &text("pad"), &ok, &poll, &ok).expect("array");
    assert_eq!((array.rows, array.cols), (2, 1));
    assert_eq!(array.data, vec![text("x"), text("y")]);
}

#[test]
fn text_split_array_refusals() {
    let columns = delimiters(&[","]);
    let ok = |_: u64| Ok(());
    let poll = || Ok(());
    let na = CellValue::Error(ErrorKind::NA);
    assert_eq!(text_split_array("a,b", &[], &[], false, false, &na, &ok, &poll, &ok), Err(ErrorKind::Value));
    assert_eq!(
        text_split_array("a,b", &columns, &[], false, false, &CellValue::Error(ErrorKind::Unsupported), &ok, &poll, &ok),
        Err(ErrorKind::Unsupported)
    );
    assert_eq!(text_split_array(",,", &columns, &[], true, false, &na, &ok, &poll, &ok), Err(ErrorKind::Calc));
    let limited = |cells: u64| if cells > 1 { Err(ErrorKind::Num) } else { Ok(()) };
    assert_eq!(text_split_array("a,b", &columns, &[], false, false, &na, &ok, &poll, &limited), Err(ErrorKind::Num));
    let cancelled = || Err(ErrorKind::Calc);
    assert_eq!(text_split_array("a,b", &columns, &[], false, false, &na, &ok, &cancelled, &ok), Err(ErrorKind::Calc));
}

#[test]
fn split_pieces_joined_with_their_delimiters_give_back_the_text() {
    let ds = delimiters(&[",", ";;"]);
    let ok = |_: u64| Ok(());
    let poll = || Ok(());
    let pieces = split("a,;;b,", &ds, false, false, &ok, &poll).expect("split");
    assert_eq!(pieces, vec!["a", "", "b", ""]);
    assert_eq!(format!("{},{};;{},{}", pieces[0], pieces[1], pieces[2], pieces[3]), "a,;;b,");
}

#[test]
fn text_split_options_default_and_validate_the_match_mode() {
    let defaults = cellrune::text_split::text_split_options(None, None, None).expect("defaults");
    assert!(!defaults.ignore_empty);
    assert!(!defaults.case_insensitive);
    assert_eq!(defaults.padding, cellrune::calculation::CellValue::Error(cellrune::value::ErrorKind::NA));
    let set = cellrune::text_split::text_split_options(
        Some(Ok(true)),
        Some(Ok(1)),
        Some(cellrune::calculation::CellValue::Text("-".to_owned())),
    )
    .expect("options");
    assert!(set.ignore_empty && set.case_insensitive);
    assert_eq!(set.padding, cellrune::calculation::CellValue::Text("-".to_owned()));
    assert_eq!(
        cellrune::text_split::text_split_options(None, Some(Ok(2)), None).map(|o| o.case_insensitive),
        Err(cellrune::value::ErrorKind::Value)
    );
    assert_eq!(
        cellrune::text_split::text_split_options(Some(Err(cellrune::value::ErrorKind::Div0)), Some(Ok(2)), None)
            .map(|o| o.case_insensitive),
        Err(cellrune::value::ErrorKind::Div0)
    );
    let engine_error = cellrune::calculation::CellValue::Error(cellrune::value::ErrorKind::Unsupported);
    assert_eq!(
        cellrune::text_split::text_split_options(None, None, Some(engine_error)).map(|o| o.case_insensitive),
        Err(cellrune::value::ErrorKind::Unsupported)
    );
    assert!(cellrune::text_split::text_split_arity_ok(2) && cellrune::text_split::text_split_arity_ok(6));
    assert!(!cellrune::text_split::text_split_arity_ok(1) && !cellrune::text_split::text_split_arity_ok(7));
}
