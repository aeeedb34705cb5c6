//! Reference operators: union, intersection work and range of reference values.
use vstd::prelude::*;

use crate::limits::CalculationLimitKind;
use crate::runtime::{
    area_sheet_bounds, bound_pair, bound_prefix, min_usize, overlap_rect, value_areas, Rect, ReferenceArea, ReferenceValue,
};
use crate::value::ErrorKind;
use crate::runtime::{RectSpan, SheetSpan};
use crate::lexer::{EXCEL_MAX_COLUMNS, EXCEL_MAX_ROWS};

verus! {

/// Whether the reference is empty; a reference with areas has at least one.
fn is_empty_reference(v: &ReferenceValue) -> (r: bool)
    ensures
        r == (*v is Empty),
        !r ==> value_areas(*v).len() > 0,
{
    match v {
        ReferenceValue::Empty => true,
        ReferenceValue::Areas(list) => {
            list.check_non_empty();
            false
        },
    }
}

/// The union of two references: both lists of areas, left first; `#REF!` when either is empty.
pub fn union_reference_values(left: &ReferenceValue, right: &ReferenceValue) -> (r: Result<ReferenceValue, ErrorKind>)
    ensures
        match r {
            Ok(v) => !(*left is Empty) && !(*right is Empty) && value_areas(v) == value_areas(*left) + value_areas(*right),
            Err(e) => (*left is Empty || *right is Empty) && e == ErrorKind::Ref,
        },
{
    if is_empty_reference(left) || is_empty_reference(right) {
        return Err(ErrorKind::Ref);
    }
    let mut areas: Vec<ReferenceArea> = Vec::new();
    let first = left.areas();
    let second = right.areas();
    let mut i: usize = 0;
    while i < first.len()
        invariant
            i <= first@.len(),
            areas@ == first@.take(i as int),
        decreases first@.len() - i,
    {
        areas.push(first[i]);
        i = i + 1;
        assert(areas@ =~= first@.take(i as int));
    }
    let mut j: usize = 0;
    while j < second.len()
        invariant
            i == first@.len(),
            j <= second@.len(),
            areas@ == first@ + second@.take(j as int),
        decreases second@.len() - j,
    {
        areas.push(second[j]);
        j = j + 1;
        assert(areas@ =~= first@ + second@.take(j as int));
    }
    assert(first@.take(first@.len() as int) =~= first@);
    assert(second@.take(second@.len() as int) =~= second@);
    Ok(ReferenceValue::from_areas(areas))
}

/// Whether some area of the reference spans a sheet range.
pub open spec fn spans_sheets(v: ReferenceValue) -> bool {
    exists|i: int| 0 <= i < value_areas(v).len() && #[trigger] value_areas(v)[i] is SheetSpan
}

/// The sheet of the first area of a reference, when it has one.
pub open spec fn first_sheet(v: ReferenceValue) -> Option<usize> {
    if value_areas(v).len() == 0 {
        None
    } else {
        Some(area_sheet_bounds(value_areas(v)[0]).0)
    }
}

/// Whether `a` is the overlap of the areas `l` and `r`: a sheet-range span when both are spans,
/// otherwise the overlapping rectangle.
pub open spec fn is_overlap_area(a: ReferenceArea, l: ReferenceArea, r: ReferenceArea) -> bool {
    match overlap_rect(l, r) {
        None => false,
        Some(rect) => match a {
            ReferenceArea::SheetSpan(span) => {
                &&& l is SheetSpan && r is SheetSpan
                &&& span.rect_spec() == rect
                &&& span.sheets_spec().start_spec() == rect.sheet
                &&& span.sheets_spec().end_spec() == min_usize(area_sheet_bounds(l).1, area_sheet_bounds(r).1)
                &&& span.sheets_spec().explicit_spec()
            },
            ReferenceArea::Rect(found) => !(l is SheetSpan && r is SheetSpan) && found == rect,
        },
    }
}

/// The areas of `rs` that overlap `l`, each paired with `l`, in order.
pub open spec fn row_overlaps(l: ReferenceArea, rs: Seq<ReferenceArea>) -> Seq<(ReferenceArea, ReferenceArea)>
    decreases rs.len(),
{
    if rs.len() == 0 {
        Seq::empty()
    } else {
        let rest = row_overlaps(l, rs.drop_last());
        if overlap_rect(l, rs.last()) is Some { rest.push((l, rs.last())) } else { rest }
    }
}

/// The overlapping pairs of a left and a right area, left area by left area, each in right order.
pub open spec fn overlapping_pairs(ls: Seq<ReferenceArea>, rs: Seq<ReferenceArea>) -> Seq<(ReferenceArea, ReferenceArea)>
    decreases ls.len(),
{
    if ls.len() == 0 {
        Seq::empty()
    } else {
        overlapping_pairs(ls.drop_last(), rs) + row_overlaps(ls.last(), rs)
    }
}

proof fn lemma_row_overlaps_grow(l: ReferenceArea, rs: Seq<ReferenceArea>, j: int)
    requires
        0 <= j <= rs.len(),
    ensures
        row_overlaps(l, rs.take(j)).len() <= row_overlaps(l, rs).len(),
    decreases rs.len() - j,
{
    if j < rs.len() {
        lemma_row_overlaps_grow(l, rs, j + 1);
        assert(rs.take(j + 1).drop_last() =~= rs.take(j));
    } else {
        assert(rs.take(j) =~= rs);
    }
}

proof fn lemma_overlapping_pairs_grow(ls: Seq<ReferenceArea>, rs: Seq<ReferenceArea>, i: int)
    requires
        0 <= i <= ls.len(),
    ensures
        overlapping_pairs(ls.take(i), rs).len() <= overlapping_pairs(ls, rs).len(),
    decreases ls.len() - i,
{
    if i < ls.len() {
        lemma_overlapping_pairs_grow(ls, rs, i + 1);
        assert(ls.take(i + 1).drop_last() =~= ls.take(i));
    } else {
        assert(ls.take(i) =~= ls);
    }
}

/// The intersection of two references: the overlap of every left area with every right area,
/// left area by left area, polling `check_cancelled` before each pair. No overlap gives `#NULL!`;
/// more overlaps than `max_areas` give the reference-area limit error.
pub fn intersect_reference_values<P: Fn() -> Result<(), ErrorKind>>(
    left: &ReferenceValue,
    right: &ReferenceValue,
    max_areas: u64,
    check_cancelled: &P,
) -> (r: Result<ReferenceValue, ErrorKind>)
    requires
        call_requires(*check_cancelled, ()),
    ensures
        ({
            let pairs = overlapping_pairs(value_areas(*left), value_areas(*right));
            match r {
                Ok(v) => {
                    &&& 0 < pairs.len() <= max_areas
                    &&& value_areas(v).len() == pairs.len()
                    &&& forall|k: int| 0 <= k < pairs.len()
                        ==> #[trigger] is_overlap_area(value_areas(v)[k], pairs[k].0, pairs[k].1)
                },
                Err(e) => {
                    ||| pairs.len() == 0 && e == ErrorKind::Null
                    ||| pairs.len() > max_areas && e == ErrorKind::ResourceLimit(CalculationLimitKind::ReferenceAreas)
                    ||| call_ensures(*check_cancelled, (), Err::<(), ErrorKind>(e))
                },
            }
        }),
{
    let ls = left.areas();
    let rs = right.areas();
    let ghost lv = ls@;
    let ghost rv = rs@;
    let mut areas: Vec<ReferenceArea> = Vec::new();
    let mut i: usize = 0;
    while i < ls.len()
        invariant
            lv == ls@,
            rv == rs@,
            lv == value_areas(*left),
            rv == value_areas(*right),
            i <= lv.len(),
            call_requires(*check_cancelled, ()),
            areas@.len() == overlapping_pairs(lv.take(i as int), rv).len(),
            areas@.len() <= max_areas,
            forall|k: int| 0 <= k < areas@.len() ==> #[trigger] is_overlap_area(
                areas@[k],
                overlapping_pairs(lv.take(i as int), rv)[k].0,
                overlapping_pairs(lv.take(i as int), rv)[k].1,
            ),
        decreases lv.len() - i,
    {
        let l = &ls[i];
        let ghost prefix = overlapping_pairs(lv.take(i as int), rv);
        let mut j: usize = 0;
        while j < rs.len()
            invariant
                lv == ls@,
                rv == rs@,
                lv == value_areas(*left),
                rv == value_areas(*right),
                i < lv.len(),
                *l == lv[i as int],
                prefix == overlapping_pairs(lv.take(i as int), rv),
                j <= rv.len(),
                call_requires(*check_cancelled, ()),
                areas@.len() == prefix.len() + row_overlaps(*l, rv.take(j as int)).len(),
                areas@.len() <= max_areas,
                forall|k: int| 0 <= k < areas@.len() ==> #[trigger] is_overlap_area(
                    areas@[k],
                    (prefix + row_overlaps(*l, rv.take(j as int)))[k].0,
                    (prefix + row_overlaps(*l, rv.take(j as int)))[k].1,
                ),
            decreases rv.len() - j,
        {
            match check_cancelled() {
                Ok(()) => {},
                Err(e) => return Err(e),
            }
            let ghost before = prefix + row_overlaps(*l, rv.take(j as int));
            proof {
                assert(rv.take(j + 1).drop_last() =~= rv.take(j as int));
                assert(rv.take(j + 1).last() == rv[j as int]);
            }
            match l.intersection(&rs[j]) {
                Some(area) => {
                    let ghost old_areas = areas@;
                    areas.push(area);
                    proof {
                        let after = prefix + row_overlaps(*l, rv.take(j + 1));
                        assert(after =~= before.push((*l, rv[j as int])));
                        assert forall|k: int| 0 <= k < areas@.len() implies #[trigger] is_overlap_area(
                            areas@[k],
                            after[k].0,
                            after[k].1,
                        ) by {
                            if k < old_areas.len() {
                                assert(areas@[k] == old_areas[k]);
                                assert(after[k] == before[k]);
                            }
                        }
                    }
                    if areas.len() as u64 > max_areas {
                        proof {
                            lemma_row_overlaps_grow(*l, rv, j + 1);
                            lemma_overlapping_pairs_grow(lv, rv, i + 1);
                            assert(lv.take(i + 1).drop_last() =~= lv.take(i as int));
                            assert(lv.take(i + 1).last() == lv[i as int]);
                        }
                        return Err(ErrorKind::ResourceLimit(CalculationLimitKind::ReferenceAreas));
                    }
                },
                None => {
                    proof {
                        assert(prefix + row_overlaps(*l, rv.take(j + 1)) =~= before);
                    }
                },
            }
            j = j + 1;
        }
        proof {
            assert(rv.take(rv.len() as int) =~= rv);
            assert(lv.take(i + 1).drop_last() =~= lv.take(i as int));
            assert(lv.take(i + 1).last() == lv[i as int]);
            assert(overlapping_pairs(lv.take(i + 1), rv) == prefix + row_overlaps(*l, rv));
        }
        i = i + 1;
    }
    proof {
        assert(lv.take(lv.len() as int) =~= lv);
    }
    if areas.len() == 0 {
        return Err(ErrorKind::Null);
    }
    Ok(ReferenceValue::from_areas(areas))
}

/// The number of area pairs an intersection compares: `#REF!` when either reference is empty,
/// `#VALUE!` when either spans sheets or their first areas lie on different sheets, and a
/// function-iteration limit error when the count does not fit in `u64`.
pub fn intersection_reference_work(left: &ReferenceValue, right: &ReferenceValue) -> (r: Result<u64, ErrorKind>)
    ensures
        match r {
            Ok(work) => {
                &&& !(*left is Empty) && !(*right is Empty)
                &&& !spans_sheets(*left) && !spans_sheets(*right)
                &&& first_sheet(*left) == first_sheet(*right)
                &&& work == value_areas(*left).len() * value_areas(*right).len()
            },
            Err(e) => {
                ||| (*left is Empty || *right is Empty) && e == ErrorKind::Ref
                ||| {
                    &&& !(*left is Empty) && !(*right is Empty)
                    &&& (spans_sheets(*left) || spans_sheets(*right) || first_sheet(*left) != first_sheet(*right))
                    &&& e == ErrorKind::Value
                }
                ||| {
                    &&& !(*left is Empty) && !(*right is Empty)
                    &&& !spans_sheets(*left) && !spans_sheets(*right)
                    &&& first_sheet(*left) == first_sheet(*right)
                    &&& value_areas(*left).len() * value_areas(*right).len() > u64::MAX
                    &&& e == ErrorKind::ResourceLimit(CalculationLimitKind::FunctionIterations)
                }
            },
        },
{
    if is_empty_reference(left) || is_empty_reference(right) {
        return Err(ErrorKind::Ref);
    }
    if left.has_sheet_span() || right.has_sheet_span() {
        return Err(ErrorKind::Value);
    }
    let left_sheet = left.areas()[0].sheet_bounds().0;
    let right_sheet = right.areas()[0].sheet_bounds().0;
    if left_sheet != right_sheet {
        return Err(ErrorKind::Value);
    }
    let left_count = left.area_count() as u64;
    let right_count = right.area_count() as u64;
    match left_count.checked_mul(right_count) {
        Some(work) => Ok(work),
        None => Err(ErrorKind::ResourceLimit(CalculationLimitKind::FunctionIterations)),
    }
}

/// The bounding rectangle of a reference: `#REF!` when empty, `#VALUE!` when an area spans
/// sheets or the areas lie on different sheets.
pub open spec fn bounding_spec(v: ReferenceValue) -> Result<Rect, ErrorKind> {
    match v {
        ReferenceValue::Empty => Err(ErrorKind::Ref),
        ReferenceValue::Areas(_) => bound_prefix(value_areas(v), value_areas(v).len() as int),
    }
}

/// The rectangle a range operator spans between two references: the smallest rectangle
/// covering both bounding rectangles, which must lie on one sheet.
pub fn range_reference_rect(start: &ReferenceValue, end: &ReferenceValue) -> (r: Result<Rect, ErrorKind>)
    ensures
        r == (match (bounding_spec(*start), bounding_spec(*end)) {
            (Err(e), _) => Err(e),
            (Ok(_), Err(e)) => Err(e),
            (Ok(a), Ok(b)) => if a.sheet != b.sheet {
                Err(ErrorKind::Value)
            } else {
                Ok(bound_pair(a, b))
            },
        }),
{
    let a = match start.bounding_rect() {
        Ok(rect) => rect,
        Err(e) => return Err(e),
    };
    let b = match end.bounding_rect() {
        Ok(rect) => rect,
        Err(e) => return Err(e),
    };
    if a.sheet != b.sheet {
        return Err(ErrorKind::Value);
    }
    let row_start = if a.row_start <= b.row_start { a.row_start } else { b.row_start };
    let row_end = if a.row_end >= b.row_end { a.row_end } else { b.row_end };
    Ok(Rect {
        sheet: a.sheet,
        row_start,
        col_start: if a.col_start <= b.col_start { a.col_start } else { b.col_start },
        row_end,
        col_end: if a.col_end >= b.col_end { a.col_end } else { b.col_end },
        whole_rows: row_start == 1 && row_end == crate::lexer::EXCEL_MAX_ROWS && (a.whole_rows || b.whole_rows),
    })
}


/// The rows and columns of a located table, as a structured reference sees them.
#[derive(Debug, Clone, Copy, PartialEq, Eq, Structural)]
pub struct TableGeometry {
    pub sheet_index: usize,
    pub row_start: u32,
    pub row_end: u32,
    pub col_start: u32,
    pub col_end: u32,
    pub header_row_count: u32,
    pub totals_row_count: u32,
    pub totals_row_shown: bool,
}

/// A row band a structured reference names.
#[derive(Debug, Clone, Copy, PartialEq, Eq, Structural)]
pub enum StructuredItem {
    All,
    Data,
    Headers,
    Totals,
    ThisRow,
}

/// The table columns a structured reference names, each by its position in the table, or `None`
/// where the name matched no column of the table.
#[derive(Debug, Clone, Copy, PartialEq, Eq, Structural)]
pub enum StructuredColumnIndices {
    AllColumns,
    Single(Option<usize>),
    Range(Option<usize>, Option<usize>),
}

/// The sheet column of the table column at position `index`.
pub open spec fn structured_column_spec(t: TableGeometry, index: Option<usize>) -> Result<u32, ErrorKind> {
    match index {
        None => Err(ErrorKind::Ref),
        Some(i) => if i > u32::MAX || t.col_start + i > u32::MAX {
            Err(ErrorKind::Ref)
        } else {
            Ok((t.col_start + i) as u32)
        },
    }
}

/// The first and last sheet columns the reference names.
pub open spec fn structured_columns_spec(t: TableGeometry, columns: StructuredColumnIndices) -> Result<(u32, u32), ErrorKind> {
    match columns {
        StructuredColumnIndices::AllColumns => Ok((t.col_start, t.col_end)),
        StructuredColumnIndices::Single(i) => match structured_column_spec(t, i) {
            Err(e) => Err(e),
            Ok(c) => Ok((c, c)),
        },
        StructuredColumnIndices::Range(a, b) => match structured_column_spec(t, a) {
            Err(e) => Err(e),
            Ok(x) => match structured_column_spec(t, b) {
                Err(e) => Err(e),
                Ok(y) => if x <= y { Ok((x, y)) } else { Ok((y, x)) },
            },
        },
    }
}

/// The first data row of the table: the row after its headers.
pub open spec fn data_row_start_spec(t: TableGeometry) -> int {
    t.row_start + t.header_row_count
}

/// The last data row of the table: the row before its totals.
pub open spec fn data_row_end_spec(t: TableGeometry) -> int {
    t.row_end - t.totals_row_count
}

/// The rows that `item` names, `None` for a band the table does not have; at row `row` of sheet
/// `sheet` for the current row.
pub open spec fn structured_band_spec(t: TableGeometry, sheet: usize, row: u32, item: StructuredItem) -> Result<Option<(int, int)>, ErrorKind> {
    match item {
        StructuredItem::All => Ok(Some((t.row_start as int, t.row_end as int))),
        StructuredItem::Headers => if t.header_row_count == 0 {
            Err(ErrorKind::Ref)
        } else {
            Ok(Some((t.row_start as int, data_row_start_spec(t) - 1)))
        },
        StructuredItem::Data => if data_row_start_spec(t) > data_row_end_spec(t) {
            Ok(None)
        } else {
            Ok(Some((data_row_start_spec(t), data_row_end_spec(t))))
        },
        StructuredItem::Totals => if t.totals_row_count == 0 || !t.totals_row_shown {
            Ok(None)
        } else {
            Ok(Some((data_row_end_spec(t) + 1, t.row_end as int)))
        },
        StructuredItem::ThisRow => if sheet != t.sheet_index || row < data_row_start_spec(t) || row > data_row_end_spec(t) {
            Err(ErrorKind::Value)
        } else {
            Ok(Some((row as int, row as int)))
        },
    }
}

/// The union of the row bands of `items`, or the error of the first item that has one.
pub open spec fn structured_rows_spec(t: TableGeometry, sheet: usize, row: u32, items: Seq<StructuredItem>) -> Result<Option<(int, int)>, ErrorKind>
    decreases items.len(),
{
    if items.len() == 0 {
        Ok(None)
    } else {
        match structured_rows_spec(t, sheet, row, items.drop_last()) {
            Err(e) => Err(e),
            Ok(acc) => match structured_band_spec(t, sheet, row, items.last()) {
                Err(e) => Err(e),
                Ok(None) => Ok(acc),
                Ok(Some((s, e))) => match acc {
                    None => Ok(Some((s, e))),
                    Some((a, b)) => Ok(Some((if a <= s { a } else { s }, if b >= e { b } else { e }))),
                },
            },
        }
    }
}

/// The items a reference names: the ones written, or by default the data rows of a named table
/// and the current row of the containing one.
pub open spec fn effective_items(names_table: bool, items: Seq<StructuredItem>) -> Seq<StructuredItem> {
    if items.len() == 0 {
        seq![if names_table { StructuredItem::Data } else { StructuredItem::ThisRow }]
    } else {
        items
    }
}

/// The area a structured reference resolves to in table `t`, from a formula at row `row` of sheet
/// `sheet`: `None` when it names no row.
pub open spec fn structured_reference_spec(
    t: TableGeometry,
    sheet: usize,
    row: u32,
    names_table: bool,
    columns: StructuredColumnIndices,
    items: Seq<StructuredItem>,
) -> Result<Option<Rect>, ErrorKind> {
    if t.row_start + t.header_row_count > u32::MAX || t.row_start + t.header_row_count == 0 {
        Err(ErrorKind::Ref)
    } else if t.row_end < t.totals_row_count {
        Err(ErrorKind::Ref)
    } else {
        match structured_columns_spec(t, columns) {
            Err(e) => Err(e),
            Ok((c0, c1)) => match structured_rows_spec(t, sheet, row, effective_items(names_table, items)) {
                Err(e) => Err(e),
                Ok(None) => Ok(None),
                Ok(Some((r0, r1))) => Ok(Some(Rect {
                    sheet: t.sheet_index,
                    row_start: r0 as u32,
                    col_start: c0,
                    row_end: r1 as u32,
                    col_end: c1,
                    whole_rows: false,
                })),
            },
        }
    }
}

/// Once leading items fail, the whole list fails with the same error.
proof fn lemma_structured_rows_error(t: TableGeometry, sheet: usize, row: u32, items: Seq<StructuredItem>, k: int)
    requires
        0 <= k <= items.len(),
        structured_rows_spec(t, sheet, row, items.take(k)) is Err,
    ensures
        structured_rows_spec(t, sheet, row, items) == structured_rows_spec(t, sheet, row, items.take(k)),
    decreases items.len(),
{
    if k == items.len() {
        assert(items.take(k) =~= items);
    } else {
        assert(items.drop_last().take(k) =~= items.take(k));
        lemma_structured_rows_error(t, sheet, row, items.drop_last(), k);
    }
}

fn structured_column(t: &TableGeometry, index: Option<usize>) -> (r: Result<u32, ErrorKind>)
    ensures
        r == structured_column_spec(*t, index),
{
    match index {
        None => Err(ErrorKind::Ref),
        Some(i) => {
            if i > u32::MAX as usize {
                return Err(ErrorKind::Ref);
            }
            let offset = i as u32;
            match t.col_start.checked_add(offset) {
                None => Err(ErrorKind::Ref),
                Some(c) => Ok(c),
            }
        },
    }
}

/// Resolves a structured reference against the table it names (or, with `names_table` false,
/// the table that contains the formula), from a formula at row `row` of sheet `sheet`.
///
/// A table whose header or totals rows run off the sheet, a column name that matches no column,
/// or a header band of a table without headers gives `#REF!`; the current row outside the
/// table's data rows gives `#VALUE!`. Otherwise the result spans the named columns and the
/// union of the named row bands, and is empty when no band exists.
pub fn resolve_structured_reference(
    t: &TableGeometry,
    sheet: usize,
    row: u32,
    names_table: bool,
    columns: StructuredColumnIndices,
    items: &[StructuredItem],
) -> (r: Result<ReferenceValue, ErrorKind>)
    ensures
        match structured_reference_spec(*t, sheet, row, names_table, columns, items@) {
            Err(e) => r == Err::<ReferenceValue, ErrorKind>(e),
            Ok(None) => r matches Ok(v) && value_areas(v) == Seq::<ReferenceArea>::empty(),
            Ok(Some(rect)) => r matches Ok(v) && value_areas(v) == seq![ReferenceArea::Rect(rect)],
        },
{
    let table_row_start = t.row_start;
    let table_row_end = t.row_end;
    let header_end = match table_row_start.checked_add(t.header_row_count) {
        None => return Err(ErrorKind::Ref),
        Some(0) => return Err(ErrorKind::Ref),
        Some(n) => n - 1,
    };
    let data_row_start = table_row_start + t.header_row_count;
    let data_row_end = match table_row_end.checked_sub(t.totals_row_count) {
        None => return Err(ErrorKind::Ref),
        Some(n) => n,
    };
    let has_headers = t.header_row_count > 0;
    let has_totals = t.totals_row_count > 0 && t.totals_row_shown;
    let (col_start, col_end) = match columns {
        StructuredColumnIndices::AllColumns => (t.col_start, t.col_end),
        StructuredColumnIndices::Single(i) => {
            let c = structured_column(t, i)?;
            (c, c)
        },
        StructuredColumnIndices::Range(a, b) => {
            let x = structured_column(t, a)?;
            let y = structured_column(t, b)?;
            if x <= y { (x, y) } else { (y, x) }
        },
    };
    let default_item = if names_table { StructuredItem::Data } else { StructuredItem::ThisRow };
    let default_items = [default_item];
    let chosen: &[StructuredItem] = if items.len() == 0 { &default_items } else { items };
    let ghost wanted = effective_items(names_table, items@);
    assert(chosen@ =~= wanted);
    let mut row_start: Option<u32> = None;
    let mut row_end: Option<u32> = None;
    let mut i: usize = 0;
    assert(wanted.take(0) =~= Seq::<StructuredItem>::empty());
    while i < chosen.len()
        invariant
            i <= chosen@.len(),
            chosen@ == wanted,
            header_end as int == data_row_start_spec(*t) - 1,
            data_row_start as int == data_row_start_spec(*t),
            data_row_end as int == data_row_end_spec(*t),
            table_row_start == t.row_start,
            table_row_end == t.row_end,
            has_headers == (t.header_row_count > 0),
            has_totals == (t.totals_row_count > 0 && t.totals_row_shown),
            structured_rows_spec(*t, sheet, row, wanted.take(i as int)) == match (row_start, row_end) {
                (Some(a), Some(b)) => Ok::<Option<(int, int)>, ErrorKind>(Some((a as int, b as int))),
                _ => Ok::<Option<(int, int)>, ErrorKind>(None),
            },
            row_start is Some <==> row_end is Some,
            structured_columns_spec(*t, columns) == Ok::<(u32, u32), ErrorKind>((col_start, col_end)),
            t.row_start + t.header_row_count <= u32::MAX,
            t.row_start + t.header_row_count != 0,
            t.row_end >= t.totals_row_count,
            items@.len() == 0 ==> wanted == seq![if names_table { StructuredItem::Data } else { StructuredItem::ThisRow }],
            items@.len() != 0 ==> wanted == items@,
        decreases chosen.len() - i,
    {
        proof {
            assert(wanted.take(i as int + 1).drop_last() =~= wanted.take(i as int));
            assert(wanted.take(i as int + 1).last() == wanted[i as int]);
        }
        let band: Option<(u32, u32)> = match chosen[i] {
            StructuredItem::All => Some((table_row_start, table_row_end)),
            StructuredItem::Headers => {
                if !has_headers {
                    proof {
                        lemma_structured_rows_error(*t, sheet, row, wanted, i as int + 1);
                    }
                    return Err(ErrorKind::Ref);
                }
                Some((table_row_start, header_end))
            },
            StructuredItem::Data => {
                if data_row_start > data_row_end {
                    None
                } else {
                    Some((data_row_start, data_row_end))
                }
            },
            StructuredItem::Totals => {
                if !has_totals {
                    None
                } else {
                    Some((table_row_end - t.totals_row_count + 1, table_row_end))
                }
            },
            StructuredItem::ThisRow => {
                if sheet != t.sheet_index || row < data_row_start || row > data_row_end {
                    proof {
                        lemma_structured_rows_error(*t, sheet, row, wanted, i as int + 1);
                    }
                    return Err(ErrorKind::Value);
                }
                Some((row, row))
            },
        };
        if let Some((s, e)) = band {
            row_start = Some(match row_start {
                None => s,
                Some(current) => if current <= s { current } else { s },
            });
            row_end = Some(match row_end {
                None => e,
                Some(current) => if current >= e { current } else { e },
            });
        }
        i = i + 1;
    }
    assert(wanted.take(i as int) =~= wanted);
    match (row_start, row_end) {
        (Some(rs), Some(re)) => Ok(ReferenceValue::from_rect(Rect {
            sheet: t.sheet_index,
            row_start: rs,
            col_start,
            row_end: re,
            col_end,
            whole_rows: false,
        })),
        _ => {
            let empty = ReferenceValue::Empty;
            Ok(empty)
        },
    }
}


/// Whether a column name of the reference matched no column of its table.
pub open spec fn names_missing_column(columns: StructuredColumnIndices) -> bool {
    match columns {
        StructuredColumnIndices::AllColumns => false,
        StructuredColumnIndices::Single(i) => i is None,
        StructuredColumnIndices::Range(a, b) => a is None || b is None,
    }
}

/// Whether `items` names the header band.
pub open spec fn names_headers(items: Seq<StructuredItem>) -> bool {
    exists|i: int| 0 <= i < items.len() && items[i] == StructuredItem::Headers
}

/// Checks the target of a structured reference that names its table, before any formula cell
/// evaluates it. `names_table` is false for a reference without a table name, which gives
/// `#VALUE!`; `table` is the named table, `None` when no table has that name, which gives
/// `#NAME?`; a column name that matches no column of the table, or a header band of a table
/// without headers, gives `#REF!`.
pub fn validate_explicit_structured_reference_target(
    names_table: bool,
    table: Option<TableGeometry>,
    columns: StructuredColumnIndices,
    items: &[StructuredItem],
) -> (r: Result<(), ErrorKind>)
    ensures
        !names_table ==> r == Err::<(), ErrorKind>(ErrorKind::Value),
        names_table && table is None ==> r == Err::<(), ErrorKind>(ErrorKind::Name),
        table matches Some(t) ==> (names_table ==> r == if names_missing_column(columns)
            || (names_headers(items@) && t.header_row_count == 0) {
            Err::<(), ErrorKind>(ErrorKind::Ref)
        } else {
            Ok::<(), ErrorKind>(())
        }),
{
    if !names_table {
        return Err(ErrorKind::Value);
    }
    let t = match table {
        None => return Err(ErrorKind::Name),
        Some(t) => t,
    };
    match columns {
        StructuredColumnIndices::AllColumns => {},
        StructuredColumnIndices::Single(i) => {
            if i.is_none() {
                return Err(ErrorKind::Ref);
            }
        },
        StructuredColumnIndices::Range(a, b) => {
            if a.is_none() || b.is_none() {
                return Err(ErrorKind::Ref);
            }
        },
    }
    let mut i: usize = 0;
    while i < items.len()
        invariant
            i <= items@.len(),
            forall|k: int| 0 <= k < i ==> items@[k] != StructuredItem::Headers,
            names_table,
            table == Some(t),
            !names_missing_column(columns),
        decreases items.len() - i,
    {
        if items[i] == StructuredItem::Headers && t.header_row_count == 0 {
            return Err(ErrorKind::Ref);
        }
        if items[i] == StructuredItem::Headers {
            assert(names_headers(items@));
            return Ok(());
        }
        i = i + 1;
    }
    Ok(())
}


/// A cell of an A1 reference.
#[derive(Debug, Clone, Copy, PartialEq, Eq, Structural)]
pub struct CellRef {
    pub row: u32,
    pub column: u32,
}

/// The body of an A1 reference: one cell, a cell area, whole columns or whole rows.
#[derive(Debug, Clone, Copy, PartialEq, Eq, Structural)]
pub enum RefBody {
    Cell(CellRef),
    Area(CellRef, CellRef),
    Columns(u32, u32),
    Rows(u32, u32),
}

/// The sheets a reference names: the formula's own sheet when it has no prefix, a sheet of another
/// workbook, or sheets of this workbook found by name. `start` is `None` when the first name
/// matches no sheet; `end` is `None` without a range and `Some(None)` when the range's last name
/// matches no sheet.
#[derive(Debug, Clone, Copy, PartialEq, Eq, Structural)]
pub enum SheetTarget {
    Current,
    External,
    Named { start: Option<usize>, end: Option<Option<usize>> },
}

/// The first row, first column, last row, last column and whole-row flag of a reference body.
pub open spec fn reference_bounds_spec(body: RefBody) -> (u32, u32, u32, u32, bool) {
    match body {
        RefBody::Cell(c) => (c.row, c.column, c.row, c.column, false),
        RefBody::Area(a, b) => (
            if a.row <= b.row { a.row } else { b.row },
            if a.column <= b.column { a.column } else { b.column },
            if a.row <= b.row { b.row } else { a.row },
            if a.column <= b.column { b.column } else { a.column },
            false,
        ),
        RefBody::Columns(a, b) => (1, if a <= b { a } else { b }, EXCEL_MAX_ROWS, if a <= b { b } else { a }, true),
        RefBody::Rows(a, b) => (if a <= b { a } else { b }, 1, if a <= b { b } else { a }, EXCEL_MAX_COLUMNS, false),
    }
}

/// Returns the first row, first column, last row, last column and whole-row flag of a body.
pub fn reference_bounds(body: RefBody) -> (r: (u32, u32, u32, u32, bool))
    ensures
        r == reference_bounds_spec(body),
{
    match body {
        RefBody::Cell(c) => (c.row, c.column, c.row, c.column, false),
        RefBody::Area(a, b) => (
            if a.row <= b.row { a.row } else { b.row },
            if a.column <= b.column { a.column } else { b.column },
            if a.row <= b.row { b.row } else { a.row },
            if a.column <= b.column { b.column } else { a.column },
            false,
        ),
        RefBody::Columns(a, b) => (1, if a <= b { a } else { b }, EXCEL_MAX_ROWS, if a <= b { b } else { a }, true),
        RefBody::Rows(a, b) => (if a <= b { a } else { b }, 1, if a <= b { b } else { a }, EXCEL_MAX_COLUMNS, false),
    }
}

/// Resolves an A1 reference written in a formula on sheet `current_sheet` to the rectangle it
/// covers and the sheets it repeats on. A sheet of another workbook is refused as unsupported; a
/// sheet name that matches no sheet gives `#REF!`.
pub fn resolve_reference_span(current_sheet: usize, target: SheetTarget, body: RefBody) -> (r: Result<RectSpan, ErrorKind>)
    ensures
        target == SheetTarget::External ==> r == Err::<RectSpan, ErrorKind>(ErrorKind::Unsupported),
        target matches SheetTarget::Named { start, end } ==> (start is None || end == Some(None::<usize>))
            == (r == Err::<RectSpan, ErrorKind>(ErrorKind::Ref)),
        r matches Ok(span) ==> {
            let (first, last, explicit) = match target {
                SheetTarget::Named { start: Some(s), end: Some(Some(e)) } => (
                    if s <= e { s } else { e },
                    if s <= e { e } else { s },
                    true,
                ),
                SheetTarget::Named { start: Some(s), end: None } => (s, s, false),
                _ => (current_sheet, current_sheet, false),
            };
            let (row_start, col_start, row_end, col_end, whole_rows) = reference_bounds_spec(body);
            &&& target != SheetTarget::External
            &&& span.sheets_spec().start_spec() == first
            &&& span.sheets_spec().end_spec() == last
            &&& span.sheets_spec().explicit_spec() == explicit
            &&& span.rect_spec() == (Rect { sheet: first, row_start, col_start, row_end, col_end, whole_rows })
        },
        target == SheetTarget::Current ==> r is Ok,
{
    let sheets = match target {
        SheetTarget::External => return Err(ErrorKind::Unsupported),
        SheetTarget::Current => SheetSpan::single(current_sheet),
        SheetTarget::Named { start, end } => {
            let first = match start {
                None => return Err(ErrorKind::Ref),
                Some(s) => s,
            };
            match end {
                None => SheetSpan::single(first),
                Some(None) => return Err(ErrorKind::Ref),
                Some(Some(last)) => SheetSpan::new(first, last),
            }
        },
    };
    let (row_start, col_start, row_end, col_end, whole_rows) = reference_bounds(body);
    let anchor = sheets.start();
    Ok(RectSpan::new(sheets, Rect { sheet: anchor, row_start, col_start, row_end, col_end, whole_rows }))
}

} // verus!
