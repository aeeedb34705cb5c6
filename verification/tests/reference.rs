use cellrune::limits::CalculationLimitKind;
use cellrune::reference::{
    intersect_reference_values, intersection_reference_work, range_reference_rect, union_reference_values,
};
use cellrune::reference::{
    StructuredColumnIndices as Columns, StructuredItem as Item, resolve_structured_reference,
    validate_explicit_structured_reference_target,
};
use cellrune::reference::{CellRef, RefBody, SheetTarget, reference_bounds, resolve_reference_span};
use cellrune::runtime::{Rect, ReferenceArea, ReferenceValue};
use cellrune::value::ErrorKind;

fn rect(sheet: usize, row: u32, col: u32) -> Rect {
    Rect { sheet, row_start: row, col_start: col, row_end: row, col_end: col, whole_rows: false }
}

#[test]
fn unions_keep_every_area_in_order() {
    let left = ReferenceValue::from_rect(rect(0, 1, 1));
    let right = ReferenceValue::from_areas(vec![ReferenceArea::Rect(rect(0, 2, 2)), ReferenceArea::Rect(rect(1, 3, 3))]);
    let union = union_reference_values(&left, &right).expect("both non-empty");
    assert_eq!(union.areas(), &[ReferenceArea::Rect(rect(0, 1, 1)), ReferenceArea::Rect(rect(0, 2, 2)), ReferenceArea::Rect(rect(1, 3, 3))]);
    assert_eq!(union_reference_values(&left, &ReferenceValue::Empty), Err(ErrorKind::Ref));
}

#[test]
fn intersection_work_counts_area_pairs_on_one_sheet() {
    let two = ReferenceValue::from_areas(vec![ReferenceArea::Rect(rect(0, 1, 1)), ReferenceArea::Rect(rect(0, 2, 2))]);
    let three = ReferenceValue::from_areas(vec![
        ReferenceArea::Rect(rect(0, 1, 1)),
        ReferenceArea::Rect(rect(0, 5, 5)),
        ReferenceArea::Rect(rect(2, 5, 5)),
    ]);
    assert_eq!(intersection_reference_work(&two, &three), Ok(6));
    let elsewhere = ReferenceValue::from_rect(rect(1, 1, 1));
    assert_eq!(intersection_reference_work(&two, &elsewhere), Err(ErrorKind::Value));
    assert_eq!(intersection_reference_work(&ReferenceValue::Empty, &two), Err(ErrorKind::Ref));
}

#[test]
fn ranges_span_both_bounding_rectangles() {
    let start = ReferenceValue::from_rect(rect(0, 4, 1));
    let end = ReferenceValue::from_rect(Rect { sheet: 0, row_start: 2, col_start: 3, row_end: 6, col_end: 3, whole_rows: false });
    assert_eq!(
        range_reference_rect(&start, &end),
        Ok(Rect { sheet: 0, row_start: 2, col_start: 1, row_end: 6, col_end: 3, whole_rows: false })
    );
    let other_sheet = ReferenceValue::from_rect(rect(1, 1, 1));
    assert_eq!(range_reference_rect(&start, &other_sheet), Err(ErrorKind::Value));
    assert_eq!(range_reference_rect(&ReferenceValue::Empty, &start), Err(ErrorKind::Ref));
}

fn block(sheet: usize, row_start: u32, col_start: u32, row_end: u32, col_end: u32) -> Rect {
    Rect { sheet, row_start, col_start, row_end, col_end, whole_rows: false }
}

#[test]
fn intersections_keep_every_overlap_left_area_first() {
    let left = ReferenceValue::from_areas(vec![
        ReferenceArea::Rect(block(0, 1, 1, 3, 3)),
        ReferenceArea::Rect(block(0, 5, 5, 6, 6)),
    ]);
    let right = ReferenceValue::from_areas(vec![
        ReferenceArea::Rect(block(0, 2, 2, 6, 6)),
        ReferenceArea::Rect(block(0, 9, 9, 9, 9)),
    ]);
    let ok = || Ok(());
    let overlap = intersect_reference_values(&left, &right, 10, &ok).expect("overlaps");
    assert_eq!(
        overlap.areas(),
        &[ReferenceArea::Rect(block(0, 2, 2, 3, 3)), ReferenceArea::Rect(block(0, 5, 5, 6, 6))]
    );
    assert_eq!(
        intersect_reference_values(&left, &right, 1, &ok),
        Err(ErrorKind::ResourceLimit(CalculationLimitKind::ReferenceAreas))
    );
    let apart = ReferenceValue::from_rect(block(0, 20, 20, 21, 21));
    assert_eq!(intersect_reference_values(&left, &apart, 10, &ok), Err(ErrorKind::Null));
    let cancelled = || Err(ErrorKind::Calc);
    assert_eq!(intersect_reference_values(&left, &right, 10, &cancelled), Err(ErrorKind::Calc));
}

fn sales_table(totals_shown: bool) -> cellrune::reference::TableGeometry {
    cellrune::reference::TableGeometry {
        sheet_index: 0,
        row_start: 1,
        row_end: 5,
        col_start: 2,
        col_end: 4,
        header_row_count: 1,
        totals_row_count: 1,
        totals_row_shown: totals_shown,
    }
}

fn table_rect(row_start: u32, col_start: u32, row_end: u32, col_end: u32) -> ReferenceValue {
    ReferenceValue::from_rect(Rect { sheet: 0, row_start, col_start, row_end, col_end, whole_rows: false })
}

#[test]
fn structured_references_resolve_columns_and_row_bands() {
    let table = sales_table(true);
    assert_eq!(resolve_structured_reference(&table, 0, 9, true, Columns::AllColumns, &[]), Ok(table_rect(2, 2, 4, 4)));
    assert_eq!(resolve_structured_reference(&table, 0, 9, true, Columns::Single(Some(1)), &[]), Ok(table_rect(2, 3, 4, 3)));
    assert_eq!(
        resolve_structured_reference(&table, 0, 9, true, Columns::Range(Some(2), Some(0)), &[Item::Headers]),
        Ok(table_rect(1, 2, 1, 4))
    );
    assert_eq!(
        resolve_structured_reference(&table, 0, 9, true, Columns::AllColumns, &[Item::Headers, Item::Data]),
        Ok(table_rect(1, 2, 4, 4))
    );
    assert_eq!(resolve_structured_reference(&table, 0, 9, true, Columns::AllColumns, &[Item::Totals]), Ok(table_rect(5, 2, 5, 4)));
    assert_eq!(resolve_structured_reference(&table, 0, 9, true, Columns::AllColumns, &[Item::All]), Ok(table_rect(1, 2, 5, 4)));
    assert_eq!(
        resolve_structured_reference(&sales_table(false), 0, 9, true, Columns::AllColumns, &[Item::Totals]),
        Ok(ReferenceValue::Empty)
    );
}

#[test]
fn structured_this_row_needs_a_data_row_of_the_same_sheet() {
    let table = sales_table(true);
    assert_eq!(resolve_structured_reference(&table, 0, 3, false, Columns::Single(Some(0)), &[]), Ok(table_rect(3, 2, 3, 2)));
    assert_eq!(resolve_structured_reference(&table, 0, 1, false, Columns::AllColumns, &[]), Err(ErrorKind::Value));
    assert_eq!(resolve_structured_reference(&table, 1, 3, true, Columns::AllColumns, &[Item::ThisRow]), Err(ErrorKind::Value));
}

#[test]
fn structured_references_report_missing_columns_and_headers_as_ref_errors() {
    let table = sales_table(true);
    assert_eq!(resolve_structured_reference(&table, 0, 3, true, Columns::Single(None), &[]), Err(ErrorKind::Ref));
    assert_eq!(resolve_structured_reference(&table, 0, 3, true, Columns::Range(Some(0), None), &[]), Err(ErrorKind::Ref));
    let headless = cellrune::reference::TableGeometry { header_row_count: 0, ..table };
    assert_eq!(resolve_structured_reference(&headless, 0, 3, true, Columns::AllColumns, &[Item::Headers]), Err(ErrorKind::Ref));
    let unreachable_totals = cellrune::reference::TableGeometry { row_end: 0, totals_row_count: 1, ..table };
    assert_eq!(resolve_structured_reference(&unreachable_totals, 0, 3, true, Columns::AllColumns, &[]), Err(ErrorKind::Ref));
}

#[test]
fn explicit_structured_targets_need_a_named_table_its_columns_and_its_headers() {
    let table = sales_table(true);
    assert_eq!(validate_explicit_structured_reference_target(false, Some(table), Columns::AllColumns, &[]), Err(ErrorKind::Value));
    assert_eq!(validate_explicit_structured_reference_target(true, None, Columns::AllColumns, &[]), Err(ErrorKind::Name));
    assert_eq!(
        validate_explicit_structured_reference_target(true, Some(table), Columns::Range(Some(0), None), &[]),
        Err(ErrorKind::Ref)
    );
    assert_eq!(
        validate_explicit_structured_reference_target(true, Some(table), Columns::Single(Some(1)), &[Item::Headers]),
        Ok(())
    );
    let headless = cellrune::reference::TableGeometry { header_row_count: 0, ..table };
    assert_eq!(
        validate_explicit_structured_reference_target(true, Some(headless), Columns::AllColumns, &[Item::Data, Item::Headers]),
        Err(ErrorKind::Ref)
    );
    assert_eq!(validate_explicit_structured_reference_target(true, Some(headless), Columns::AllColumns, &[Item::Data]), Ok(()));
}

#[test]
fn reference_bounds_order_corners_and_cover_whole_columns_and_rows() {
    let a = CellRef { row: 9, column: 2 };
    let b = CellRef { row: 3, column: 5 };
    assert_eq!(reference_bounds(RefBody::Cell(a)), (9, 2, 9, 2, false));
    assert_eq!(reference_bounds(RefBody::Area(a, b)), (3, 2, 9, 5, false));
    assert_eq!(reference_bounds(RefBody::Columns(4, 2)), (1, 2, 1_048_576, 4, true));
    assert_eq!(reference_bounds(RefBody::Rows(7, 7)), (7, 1, 7, 16_384, false));
}

#[test]
fn reference_spans_resolve_their_sheets() {
    let body = RefBody::Cell(CellRef { row: 1, column: 1 });
    let here = resolve_reference_span(2, SheetTarget::Current, body).expect("current sheet");
    assert_eq!(here.sort_key(), (2, 2, false, 1, 1, 1, 1, false));
    let named = resolve_reference_span(2, SheetTarget::Named { start: Some(0), end: None }, body).expect("named sheet");
    assert_eq!(named.sort_key(), (0, 0, false, 1, 1, 1, 1, false));
    let range = resolve_reference_span(2, SheetTarget::Named { start: Some(3), end: Some(Some(1)) }, body).expect("range");
    assert_eq!(range.sort_key(), (1, 3, true, 1, 1, 1, 1, false));
    assert_eq!(range.rects().len(), 3);
    assert_eq!(resolve_reference_span(2, SheetTarget::External, body).map(|span| span.sort_key()), Err(ErrorKind::Unsupported));
    assert_eq!(
        resolve_reference_span(2, SheetTarget::Named { start: None, end: None }, body).map(|span| span.sort_key()),
        Err(ErrorKind::Ref)
    );
    assert_eq!(
        resolve_reference_span(2, SheetTarget::Named { start: Some(1), end: Some(None) }, body).map(|span| span.sort_key()),
        Err(ErrorKind::Ref)
    );
}
