use cellrune::runtime::{Rect, RectSpan, ReferenceArea, ReferenceValue, SheetSpan};
use cellrune::value::ErrorKind;

fn sample_rect() -> Rect {
    Rect { sheet: 99, row_start: 2, col_start: 3, row_end: 4, col_end: 5, whole_rows: false }
}

#[test]
fn rect_span_expands_in_workbook_order() {
    let span = RectSpan::new(SheetSpan::new(3, 1), sample_rect());
    let rects = span.rects();

    assert_eq!(rects.iter().map(|rect| rect.sheet).collect::<Vec<_>>(), vec![1, 2, 3]);
    assert!(rects.iter().all(|rect| {
        rect.row_start == 2 && rect.col_start == 3 && rect.row_end == 4 && rect.col_end == 5
    }));
}

#[test]
fn rect_span_narrows_only_when_it_has_one_sheet() {
    let rect = RectSpan::new(SheetSpan::single(4), sample_rect()).into_rect().expect("single-sheet span");
    assert_eq!(rect.sheet, 4);

    assert_eq!(RectSpan::new(SheetSpan::new(4, 5), sample_rect()).into_rect(), Err(ErrorKind::Ref));
}

#[test]
fn rect_span_preserves_explicit_same_sheet_range_syntax() {
    let span = RectSpan::new(SheetSpan::new(4, 4), sample_rect());

    assert!(span.is_sheet_range());
    assert_eq!(span.rects().len(), 1);
}

#[test]
fn reference_value_distinguishes_empty_and_preserves_area_identity() {
    let rect = sample_rect();
    let repeated = ReferenceValue::from_areas(vec![ReferenceArea::Rect(rect), ReferenceArea::Rect(rect)]);

    assert_eq!(ReferenceValue::from_areas(Vec::new()), ReferenceValue::Empty);
    assert_eq!(ReferenceValue::Empty.single_rect(), Err(ErrorKind::Ref));
    assert_eq!(repeated.area_count(), 2);
    assert_eq!(repeated.rects(), vec![rect, rect]);
    assert_eq!(repeated.single_rect(), Err(ErrorKind::Value));
}

#[test]
fn reference_value_narrows_only_one_plain_rectangle() {
    let rect = sample_rect();
    assert_eq!(ReferenceValue::from_rect(rect).single_rect(), Ok(rect));
    assert_eq!(
        ReferenceValue::from_span(RectSpan::new(SheetSpan::new(4, 4), rect)).single_rect(),
        Err(ErrorKind::Value)
    );
}

#[test]
fn reference_value_bounds_ordered_same_sheet_areas_without_merging_identity() {
    let first = sample_rect();
    let second = Rect { row_start: 1, col_start: 2, row_end: 6, col_end: 7, ..first };
    let reference = ReferenceValue::from_areas(vec![ReferenceArea::Rect(first), ReferenceArea::Rect(second)]);

    assert_eq!(reference.area_count(), 2);
    assert_eq!(
        reference.bounding_rect(),
        Ok(Rect { row_start: 1, col_start: 2, row_end: 6, col_end: 7, ..first })
    );
}

#[test]
fn bounding_rect_refuses_areas_on_different_sheets() {
    let first = sample_rect();
    let other = Rect { sheet: 7, ..first };
    let reference = ReferenceValue::from_areas(vec![ReferenceArea::Rect(first), ReferenceArea::Rect(other)]);
    assert_eq!(reference.bounding_rect(), Err(ErrorKind::Value));
    assert_eq!(ReferenceValue::Empty.bounding_rect(), Err(ErrorKind::Ref));
}

#[test]
fn intersection_keeps_spans_only_when_both_areas_span_sheets() {
    let left = ReferenceArea::SheetSpan(RectSpan::new(SheetSpan::new(1, 3), sample_rect()));
    let right = ReferenceArea::SheetSpan(RectSpan::new(
        SheetSpan::new(2, 5),
        Rect { row_start: 3, col_start: 1, row_end: 9, col_end: 4, ..sample_rect() },
    ));
    match left.intersection(&right) {
        Some(ReferenceArea::SheetSpan(span)) => {
            let rects = span.rects();
            assert_eq!(rects.iter().map(|rect| rect.sheet).collect::<Vec<_>>(), vec![2, 3]);
            assert_eq!((rects[0].row_start, rects[0].col_start, rects[0].row_end, rects[0].col_end), (3, 3, 4, 4));
        },
        other => panic!("unexpected intersection {other:?}"),
    }
    let plain = ReferenceArea::Rect(Rect { sheet: 9, ..sample_rect() });
    assert_eq!(plain.intersection(&left), None);
}

#[test]
fn resizing_from_the_anchor_stays_on_the_sheet() {
    let anchor = Rect { sheet: 0, row_start: 1, col_start: 1, row_end: 1, col_end: 1, whole_rows: false };
    let resized = anchor.resized_from_anchor(3, 2).expect("fits");
    assert_eq!((resized.row_end, resized.col_end), (3, 2));
    assert_eq!(anchor.resized_from_anchor(0, 2), None);
    assert_eq!(anchor.resized_from_anchor(1_048_577, 1), None);
    assert!(anchor.resized_from_anchor(1_048_576, 1).expect("whole column").whole_rows);
}
