//! Rectangular references, sheet spans and multi-area reference values.
use vstd::prelude::*;

use crate::calculation::CellValue;
use crate::lexer::{EXCEL_MAX_COLUMNS, EXCEL_MAX_ROWS};
use crate::value::ErrorKind;

verus! {

/// How far down an array result reaches; never less than one row.
#[derive(Debug, Clone, Copy, PartialEq, Eq, Structural)]
pub struct ArrayExtent {
    row_end: u32,
}

impl ArrayExtent {
    pub closed spec fn row_end_spec(self) -> u32 {
        self.row_end
    }

    /// An extent ending at `row_end`, or at the first row when `row_end` is zero.
    pub fn new(row_end: u32) -> (r: Self)
        ensures
            r.row_end_spec() == if row_end == 0 { 1 } else { row_end },
    {
        ArrayExtent { row_end: if row_end == 0 { 1 } else { row_end } }
    }

    /// Returns the last row reached.
    pub fn row_end(self) -> (r: u32)
        ensures
            r == self.row_end_spec(),
    {
        self.row_end
    }

    /// The extent reaching as far as the longer of the two.
    pub fn merged(self, other: Self) -> (r: Self)
        ensures
            r.row_end_spec() == if self.row_end_spec() >= other.row_end_spec() {
                if self.row_end_spec() == 0 { 1 } else { self.row_end_spec() }
            } else {
                if other.row_end_spec() == 0 { 1 } else { other.row_end_spec() }
            },
    {
        ArrayExtent::new(if self.row_end >= other.row_end { self.row_end } else { other.row_end })
    }
}

/// A rectangle of cells on one sheet, with one-based inclusive bounds.
#[derive(Debug, Clone, Copy, PartialEq, Eq, Structural)]
pub struct Rect {
    pub sheet: usize,
    pub row_start: u32,
    pub col_start: u32,
    pub row_end: u32,
    pub col_end: u32,
    /// The rectangle covers whole rows of the sheet.
    pub whole_rows: bool,
}

impl Rect {
    /// Number of rows covered.
    pub fn height(&self) -> (r: u64)
        requires
            self.row_start <= self.row_end,
        ensures
            r == self.row_end - self.row_start + 1,
    {
        (self.row_end - self.row_start) as u64 + 1
    }

    /// Number of columns covered.
    pub fn width(&self) -> (r: u64)
        requires
            self.col_start <= self.col_end,
        ensures
            r == self.col_end - self.col_start + 1,
    {
        (self.col_end - self.col_start) as u64 + 1
    }

    /// Whether the rectangle is one cell.
    pub fn is_single_cell(&self) -> (r: bool)
        ensures
            r == (self.row_start == self.row_end && self.col_start == self.col_end),
    {
        self.row_start == self.row_end && self.col_start == self.col_end
    }

    /// The rectangle of `height` rows and `width` columns anchored at this one's top-left cell,
    /// when it is non-empty and fits on the sheet.
    pub fn resized_from_anchor(self, height: u64, width: u64) -> (r: Option<Self>)
        ensures
            ({
                let row_end = self.row_start + height - 1;
                let col_end = self.col_start + width - 1;
                let fits = height >= 1 && width >= 1 && height - 1 <= u32::MAX && width - 1 <= u32::MAX
                    && row_end <= u32::MAX && col_end <= u32::MAX
                    && row_end <= EXCEL_MAX_ROWS && col_end <= EXCEL_MAX_COLUMNS;
                match r {
                    Some(resized) => fits && resized == (Rect {
                        sheet: self.sheet,
                        row_start: self.row_start,
                        col_start: self.col_start,
                        row_end: row_end as u32,
                        col_end: col_end as u32,
                        whole_rows: self.row_start == 1 && row_end == EXCEL_MAX_ROWS,
                    }),
                    None => !fits,
                }
            }),
    {
        if height == 0 || width == 0 {
            return None;
        }
        if height - 1 > u32::MAX as u64 || width - 1 > u32::MAX as u64 {
            return None;
        }
        let row_offset = (height - 1) as u32;
        let col_offset = (width - 1) as u32;
        let row_end = match self.row_start.checked_add(row_offset) {
            Some(v) => v,
            None => return None,
        };
        let col_end = match self.col_start.checked_add(col_offset) {
            Some(v) => v,
            None => return None,
        };
        if row_end > EXCEL_MAX_ROWS || col_end > EXCEL_MAX_COLUMNS {
            return None;
        }
        Some(Rect {
            sheet: self.sheet,
            row_start: self.row_start,
            col_start: self.col_start,
            row_end,
            col_end,
            whole_rows: self.row_start == 1 && row_end == EXCEL_MAX_ROWS,
        })
    }
}

/// An inclusive range of sheet indices, remembering whether it was written as a range.
#[derive(Debug, Clone, Copy, PartialEq, Eq, Structural)]
pub struct SheetSpan {
    start: usize,
    end: usize,
    explicit_range: bool,
}

impl SheetSpan {
    #[verifier::type_invariant]
    spec fn ordered(self) -> bool {
        self.start <= self.end
    }

    pub closed spec fn start_spec(self) -> usize {
        self.start
    }

    pub closed spec fn end_spec(self) -> usize {
        self.end
    }

    pub closed spec fn explicit_spec(self) -> bool {
        self.explicit_range
    }

    /// The sheets between `start` and `end`, in either order, written as a range.
    pub fn new(start: usize, end: usize) -> (r: Self)
        ensures
            r.start_spec() == if start <= end { start } else { end },
            r.end_spec() == if start <= end { end } else { start },
            r.explicit_spec(),
    {
        if start <= end {
            SheetSpan { start, end, explicit_range: true }
        } else {
            SheetSpan { start: end, end: start, explicit_range: true }
        }
    }

    /// One sheet, written without a range.
    pub fn single(sheet: usize) -> (r: Self)
        ensures
            r.start_spec() == sheet,
            r.end_spec() == sheet,
            !r.explicit_spec(),
    {
        SheetSpan { start: sheet, end: sheet, explicit_range: false }
    }

    /// Every span has its first sheet no later than its last.
    pub fn check_ordered(&self)
        ensures
            self.start_spec() <= self.end_spec(),
    {
        proof {
            use_type_invariant(self);
        }
    }

    /// Whether the span covers one sheet.
    pub fn is_single_sheet(&self) -> (r: bool)
        ensures
            r == (self.start_spec() == self.end_spec()),
    {
        self.start == self.end
    }

    /// Whether the span was written as a sheet range.
    pub fn is_explicit_range(&self) -> (r: bool)
        ensures
            r == self.explicit_spec(),
    {
        self.explicit_range
    }

    /// The first sheet.
    pub fn start(&self) -> (r: usize)
        ensures
            r == self.start_spec(),
    {
        self.start
    }

    /// The last sheet.
    pub fn end(&self) -> (r: usize)
        ensures
            r == self.end_spec(),
    {
        self.end
    }
}

/// `rect` repeated on every sheet from `start` to `end`, in workbook order.
pub open spec fn span_rects(start: usize, end: usize, rect: Rect) -> Seq<Rect> {
    Seq::new((end - start + 1) as nat, |i: int| Rect { sheet: (start + i) as usize, ..rect })
}

/// One rectangle repeated across a span of sheets.
#[derive(Debug, Clone, Copy, PartialEq, Eq, Structural)]
pub struct RectSpan {
    sheets: SheetSpan,
    rect: Rect,
}

impl RectSpan {
    #[verifier::type_invariant]
    spec fn anchored(self) -> bool {
        self.rect.sheet == self.sheets.start_spec()
    }

    pub closed spec fn sheets_spec(self) -> SheetSpan {
        self.sheets
    }

    pub closed spec fn rect_spec(self) -> Rect {
        self.rect
    }

    /// The rectangle `rect` on every sheet of `sheets`; the rectangle is moved to the first sheet.
    pub fn new(sheets: SheetSpan, rect: Rect) -> (r: Self)
        ensures
            r.sheets_spec() == sheets,
            r.rect_spec() == (Rect { sheet: sheets.start_spec(), ..rect }),
    {
        RectSpan { sheets, rect: Rect { sheet: sheets.start(), ..rect } }
    }

    /// The rectangle on its own sheet.
    pub fn single(rect: Rect) -> (r: Self)
        ensures
            r.sheets_spec().start_spec() == rect.sheet,
            r.sheets_spec().end_spec() == rect.sheet,
            !r.sheets_spec().explicit_spec(),
            r.rect_spec() == rect,
    {
        RectSpan::new(SheetSpan::single(rect.sheet), rect)
    }

    /// The rectangle on each sheet of the span, in workbook order.
    pub fn rects(&self) -> (r: Vec<Rect>)
        ensures
            r@ == span_rects(self.sheets_spec().start_spec(), self.sheets_spec().end_spec(), self.rect_spec()),
    {
        self.sheets.check_ordered();
        let start = self.sheets.start();
        let end = self.sheets.end();
        let mut out: Vec<Rect> = Vec::new();
        let mut sheet = start;
        loop
            invariant_except_break
                start <= sheet <= end,
                out@ == span_rects(start, end, self.rect).take(sheet - start),
            ensures
                out@ == span_rects(start, end, self.rect),
            decreases end - sheet,
        {
            out.push(Rect { sheet, ..self.rect });
            proof {
                assert(out@ =~= span_rects(start, end, self.rect).take(sheet - start + 1));
            }
            if sheet == end {
                assert(out@ =~= span_rects(start, end, self.rect));
                break;
            }
            sheet = sheet + 1;
        }
        out
    }

    /// Whether the span was written as a sheet range.
    pub fn is_sheet_range(&self) -> (r: bool)
        ensures
            r == self.sheets_spec().explicit_spec(),
    {
        self.sheets.is_explicit_range()
    }

    /// Key that orders spans by sheets, range syntax, bounds and whole-row flag.
    pub fn sort_key(&self) -> (r: (usize, usize, bool, u32, u32, u32, u32, bool))
        ensures
            r == (
                self.sheets_spec().start_spec(),
                self.sheets_spec().end_spec(),
                self.sheets_spec().explicit_spec(),
                self.rect_spec().row_start,
                self.rect_spec().col_start,
                self.rect_spec().row_end,
                self.rect_spec().col_end,
                self.rect_spec().whole_rows,
            ),
    {
        (
            self.sheets.start(),
            self.sheets.end(),
            self.sheets.is_explicit_range(),
            self.rect.row_start,
            self.rect.col_start,
            self.rect.row_end,
            self.rect.col_end,
            self.rect.whole_rows,
        )
    }

    /// The single rectangle of a one-sheet span; `#REF!` for a span over several sheets.
    pub fn into_rect(self) -> (r: Result<Rect, ErrorKind>)
        ensures
            match r {
                Ok(rect) => self.sheets_spec().start_spec() == self.sheets_spec().end_spec()
                    && rect == (Rect { sheet: self.sheets_spec().start_spec(), ..self.rect_spec() }),
                Err(e) => self.sheets_spec().start_spec() != self.sheets_spec().end_spec() && e == ErrorKind::Ref,
            },
    {
        if !self.sheets.is_single_sheet() {
            return Err(ErrorKind::Ref);
        }
        Ok(Rect { sheet: self.sheets.start(), ..self.rect })
    }
}

/// One area of a reference: a rectangle on one sheet, or one repeated across a sheet range.
#[derive(Debug, Clone, Copy, PartialEq, Eq, Structural)]
pub enum ReferenceArea {
    Rect(Rect),
    SheetSpan(RectSpan),
}

/// The rectangles an area covers, in workbook order.
pub open spec fn area_rects(area: ReferenceArea) -> Seq<Rect> {
    match area {
        ReferenceArea::Rect(rect) => seq![rect],
        ReferenceArea::SheetSpan(span) => span_rects(
            span.sheets_spec().start_spec(),
            span.sheets_spec().end_spec(),
            span.rect_spec(),
        ),
    }
}

/// First and last sheet of an area.
pub open spec fn area_sheet_bounds(area: ReferenceArea) -> (usize, usize) {
    match area {
        ReferenceArea::Rect(rect) => (rect.sheet, rect.sheet),
        ReferenceArea::SheetSpan(span) => (span.sheets_spec().start_spec(), span.sheets_spec().end_spec()),
    }
}

/// The rectangle an area repeats.
pub open spec fn area_template(area: ReferenceArea) -> Rect {
    match area {
        ReferenceArea::Rect(rect) => rect,
        ReferenceArea::SheetSpan(span) => span.rect_spec(),
    }
}

pub open spec fn max_usize(a: usize, b: usize) -> usize {
    if a >= b { a } else { b }
}

pub open spec fn min_usize(a: usize, b: usize) -> usize {
    if a <= b { a } else { b }
}

pub open spec fn max_u32(a: u32, b: u32) -> u32 {
    if a >= b { a } else { b }
}

pub open spec fn min_u32(a: u32, b: u32) -> u32 {
    if a <= b { a } else { b }
}

/// Where two areas overlap, as the rectangle on the first shared sheet, or `None` when they share
/// no sheet or no cell.
pub open spec fn overlap_rect(a: ReferenceArea, b: ReferenceArea) -> Option<Rect> {
    let (a_start, a_end) = area_sheet_bounds(a);
    let (b_start, b_end) = area_sheet_bounds(b);
    let sheet_start = max_usize(a_start, b_start);
    let sheet_end = min_usize(a_end, b_end);
    let left = area_template(a);
    let right = area_template(b);
    let row_start = max_u32(left.row_start, right.row_start);
    let row_end = min_u32(left.row_end, right.row_end);
    let col_start = max_u32(left.col_start, right.col_start);
    let col_end = min_u32(left.col_end, right.col_end);
    if sheet_start > sheet_end || row_start > row_end || col_start > col_end {
        None
    } else {
        Some(Rect {
            sheet: sheet_start,
            row_start,
            col_start,
            row_end,
            col_end,
            whole_rows: row_start == 1 && row_end == EXCEL_MAX_ROWS && left.whole_rows && right.whole_rows,
        })
    }
}

/// Whether the cell at `(row, col)` of sheet `sheet` lies in an area.
pub open spec fn area_holds_cell(area: ReferenceArea, sheet: int, row: int, col: int) -> bool {
    let (first, last) = area_sheet_bounds(area);
    let template = area_template(area);
    &&& first <= sheet <= last
    &&& template.row_start <= row <= template.row_end
    &&& template.col_start <= col <= template.col_end
}

/// Two areas overlap exactly when some cell lies in both, and then the overlap is the set of cells
/// they share: a row and a column lie in the overlap's rectangle exactly when both areas' rectangles
/// hold them, and its sheet is the first sheet the two share.
pub proof fn lemma_overlap_is_shared_cells(a: ReferenceArea, b: ReferenceArea)
    ensures
        overlap_rect(a, b) is Some <==> exists|sheet: int, row: int, col: int|
            area_holds_cell(a, sheet, row, col) && area_holds_cell(b, sheet, row, col),
        overlap_rect(a, b) matches Some(rect) ==> {
            &&& forall|row: int, col: int|
                (rect.row_start <= row <= rect.row_end && rect.col_start <= col <= rect.col_end) <==> (
                area_holds_cell(a, rect.sheet as int, row, col) && area_holds_cell(b, rect.sheet as int, row, col))
            &&& forall|sheet: int, row: int, col: int|
                area_holds_cell(a, sheet, row, col) && area_holds_cell(b, sheet, row, col) ==> rect.sheet <= sheet
        },
{
    let (a_start, a_end) = area_sheet_bounds(a);
    let (b_start, b_end) = area_sheet_bounds(b);
    let left = area_template(a);
    let right = area_template(b);
    if exists|sheet: int, row: int, col: int| area_holds_cell(a, sheet, row, col) && area_holds_cell(b, sheet, row, col) {
        let (sheet, row, col) = choose|sheet: int, row: int, col: int|
            area_holds_cell(a, sheet, row, col) && area_holds_cell(b, sheet, row, col);
        assert(area_holds_cell(a, sheet, row, col) && area_holds_cell(b, sheet, row, col));
        assert(overlap_rect(a, b) is Some);
    }
    if let Some(rect) = overlap_rect(a, b) {
        let row = rect.row_start as int;
        let col = rect.col_start as int;
        assert(area_holds_cell(a, rect.sheet as int, row, col) && area_holds_cell(b, rect.sheet as int, row, col));
    }
}

impl ReferenceArea {
    /// The area a span denotes: a sheet range stays a span, anything else is its one rectangle.
    pub fn from_span(span: RectSpan) -> (r: Self)
        ensures
            span.sheets_spec().explicit_spec() ==> r == ReferenceArea::SheetSpan(span),
            !span.sheets_spec().explicit_spec() ==> r == ReferenceArea::Rect(span.rect_spec()),
    {
        proof {
            use_type_invariant(&span);
            use_type_invariant(&span.sheets);
        }
        if span.is_sheet_range() {
            ReferenceArea::SheetSpan(span)
        } else {
            ReferenceArea::Rect(span.rect)
        }
    }

    /// The rectangles the area covers, in workbook order.
    pub fn rects(&self) -> (r: Vec<Rect>)
        ensures
            r@ == area_rects(*self),
    {
        match self {
            ReferenceArea::Rect(rect) => {
                let mut v: Vec<Rect> = Vec::new();
                v.push(*rect);
                assert(v@ =~= seq![*rect]);
                v
            },
            ReferenceArea::SheetSpan(span) => span.rects(),
        }
    }

    /// The area as a span; a rectangle becomes a span of its own sheet.
    pub fn as_span(&self) -> (r: RectSpan)
        ensures
            match *self {
                ReferenceArea::Rect(rect) => r.rect_spec() == rect && r.sheets_spec().start_spec() == rect.sheet
                    && r.sheets_spec().end_spec() == rect.sheet && !r.sheets_spec().explicit_spec(),
                ReferenceArea::SheetSpan(span) => r == span,
            },
    {
        match self {
            ReferenceArea::Rect(rect) => RectSpan::single(*rect),
            ReferenceArea::SheetSpan(span) => *span,
        }
    }

    /// Whether the area spans a sheet range.
    pub fn is_sheet_span(&self) -> (r: bool)
        ensures
            r == (*self is SheetSpan),
    {
        match self {
            ReferenceArea::SheetSpan(_) => true,
            ReferenceArea::Rect(_) => false,
        }
    }

    /// First and last sheet of the area.
    pub fn sheet_bounds(&self) -> (r: (usize, usize))
        ensures
            r == area_sheet_bounds(*self),
    {
        match self {
            ReferenceArea::Rect(rect) => (rect.sheet, rect.sheet),
            ReferenceArea::SheetSpan(span) => (span.sheets.start(), span.sheets.end()),
        }
    }

    /// The rectangle the area repeats.
    pub fn template_rect(&self) -> (r: Rect)
        ensures
            r == area_template(*self),
    {
        match self {
            ReferenceArea::Rect(rect) => *rect,
            ReferenceArea::SheetSpan(span) => span.rect,
        }
    }

    /// The overlap of two areas: a sheet-range span when both are spans, otherwise one rectangle.
    pub fn intersection(&self, other: &Self) -> (r: Option<Self>)
        ensures
            match overlap_rect(*self, *other) {
                None => r is None,
                Some(rect) => match r {
                    Some(ReferenceArea::SheetSpan(span)) => {
                        &&& *self is SheetSpan && *other is SheetSpan
                        &&& span.rect_spec() == rect
                        &&& span.sheets_spec().start_spec() == rect.sheet
                        &&& span.sheets_spec().end_spec() == min_usize(area_sheet_bounds(*self).1, area_sheet_bounds(*other).1)
                        &&& span.sheets_spec().explicit_spec()
                    },
                    Some(ReferenceArea::Rect(found)) => !(*self is SheetSpan && *other is SheetSpan) && found == rect,
                    None => false,
                },
            },
            r is Some <==> exists|sheet: int, row: int, col: int|
                area_holds_cell(*self, sheet, row, col) && area_holds_cell(*other, sheet, row, col),
    {
        proof {
            lemma_overlap_is_shared_cells(*self, *other);
        }
        let (left_sheet_start, left_sheet_end) = self.sheet_bounds();
        let (right_sheet_start, right_sheet_end) = other.sheet_bounds();
        let sheet_start = if left_sheet_start >= right_sheet_start { left_sheet_start } else { right_sheet_start };
        let sheet_end = if left_sheet_end <= right_sheet_end { left_sheet_end } else { right_sheet_end };
        if sheet_start > sheet_end {
            return None;
        }
        let left = self.template_rect();
        let right = other.template_rect();
        let row_start = if left.row_start >= right.row_start { left.row_start } else { right.row_start };
        let row_end = if left.row_end <= right.row_end { left.row_end } else { right.row_end };
        let col_start = if left.col_start >= right.col_start { left.col_start } else { right.col_start };
        let col_end = if left.col_end <= right.col_end { left.col_end } else { right.col_end };
        if row_start > row_end || col_start > col_end {
            return None;
        }
        let rect = Rect {
            sheet: sheet_start,
            row_start,
            col_start,
            row_end,
            col_end,
            whole_rows: row_start == 1 && row_end == EXCEL_MAX_ROWS && left.whole_rows && right.whole_rows,
        };
        if self.is_sheet_span() && other.is_sheet_span() {
            Some(ReferenceArea::SheetSpan(RectSpan::new(SheetSpan::new(sheet_start, sheet_end), rect)))
        } else {
            Some(ReferenceArea::Rect(rect))
        }
    }
}

/// A non-empty list of reference areas.
#[derive(Debug, PartialEq, Eq)]
pub struct NonEmptyReferenceAreas {
    areas: Vec<ReferenceArea>,
}

impl Clone for NonEmptyReferenceAreas {
    fn clone(&self) -> (r: Self)
        ensures
            r@ == self@,
    {
        proof {
            use_type_invariant(self);
        }
        let areas = self.areas.clone();
        assert(areas@ =~= self.areas@);
        NonEmptyReferenceAreas { areas }
    }
}

impl View for NonEmptyReferenceAreas {
    type V = Seq<ReferenceArea>;

    closed spec fn view(&self) -> Seq<ReferenceArea> {
        self.areas@
    }
}

impl NonEmptyReferenceAreas {
    #[verifier::type_invariant]
    spec fn non_empty(self) -> bool {
        self.areas@.len() > 0
    }

    /// The list, when it is not empty.
    pub fn new(areas: Vec<ReferenceArea>) -> (r: Option<Self>)
        ensures
            match r {
                Some(list) => areas@.len() > 0 && list@ == areas@,
                None => areas@.len() == 0,
            },
    {
        if areas.len() == 0 {
            None
        } else {
            Some(NonEmptyReferenceAreas { areas })
        }
    }

    /// Every list has at least one area.
    pub fn check_non_empty(&self)
        ensures
            self@.len() > 0,
    {
        proof {
            use_type_invariant(self);
        }
    }

    /// Returns the areas in order.
    pub fn as_slice(&self) -> (r: &[ReferenceArea])
        ensures
            r@ == self@,
    {
        self.areas.as_slice()
    }
}

/// A reference result: no area at all, or one or more areas in order.
#[derive(Debug, Clone, PartialEq, Eq)]
pub enum ReferenceValue {
    Empty,
    Areas(NonEmptyReferenceAreas),
}

/// The areas of a reference value.
pub open spec fn value_areas(value: ReferenceValue) -> Seq<ReferenceArea> {
    match value {
        ReferenceValue::Empty => Seq::empty(),
        ReferenceValue::Areas(list) => list@,
    }
}

/// The rectangles of `areas`, area after area.
pub open spec fn areas_rects(areas: Seq<ReferenceArea>) -> Seq<Rect>
    decreases areas.len(),
{
    if areas.len() == 0 {
        Seq::empty()
    } else {
        areas_rects(areas.drop_last()) + area_rects(areas.last())
    }
}

/// Rectangle covering `a` and `b`, which lie on one sheet.
pub open spec fn bound_pair(a: Rect, b: Rect) -> Rect {
    let row_start = min_u32(a.row_start, b.row_start);
    let row_end = max_u32(a.row_end, b.row_end);
    Rect {
        sheet: a.sheet,
        row_start,
        col_start: min_u32(a.col_start, b.col_start),
        row_end,
        col_end: max_u32(a.col_end, b.col_end),
        whole_rows: row_start == 1 && row_end == EXCEL_MAX_ROWS && (a.whole_rows || b.whole_rows),
    }
}

/// Bounding rectangle of the first `k` areas: `#VALUE!` once an area spans sheets or lies on
/// another sheet than the first.
pub open spec fn bound_prefix(areas: Seq<ReferenceArea>, k: int) -> Result<Rect, ErrorKind>
    decreases k,
{
    if k <= 1 {
        match areas[0] {
            ReferenceArea::Rect(rect) => Ok(rect),
            ReferenceArea::SheetSpan(_) => Err(ErrorKind::Value),
        }
    } else {
        match bound_prefix(areas, k - 1) {
            Err(e) => Err(e),
            Ok(bound) => match areas[k - 1] {
                ReferenceArea::Rect(rect) => if rect.sheet != bound.sheet {
                    Err(ErrorKind::Value)
                } else {
                    Ok(bound_pair(bound, rect))
                },
                ReferenceArea::SheetSpan(_) => Err(ErrorKind::Value),
            },
        }
    }
}

impl ReferenceValue {
    /// A reference to one rectangle.
    pub fn from_rect(rect: Rect) -> (r: Self)
        ensures
            value_areas(r) == seq![ReferenceArea::Rect(rect)],
    {
        ReferenceValue::from_area(ReferenceArea::Rect(rect))
    }

    /// A reference to the area a span denotes.
    pub fn from_span(span: RectSpan) -> (r: Self)
        ensures
            span.sheets_spec().explicit_spec() ==> value_areas(r) == seq![ReferenceArea::SheetSpan(span)],
            !span.sheets_spec().explicit_spec() ==> value_areas(r) == seq![ReferenceArea::Rect(span.rect_spec())],
    {
        ReferenceValue::from_area(ReferenceArea::from_span(span))
    }

    /// A reference to one area.
    pub fn from_area(area: ReferenceArea) -> (r: Self)
        ensures
            value_areas(r) == seq![area],
            r is Areas,
    {
        let mut v: Vec<ReferenceArea> = Vec::new();
        v.push(area);
        assert(v@ =~= seq![area]);
        match NonEmptyReferenceAreas::new(v) {
            Some(list) => ReferenceValue::Areas(list),
            None => ReferenceValue::Empty,
        }
    }

    /// A reference to the given areas in order; no area at all is the empty reference.
    pub fn from_areas(areas: Vec<ReferenceArea>) -> (r: Self)
        ensures
            value_areas(r) == areas@,
            r is Empty <==> areas@.len() == 0,
    {
        match NonEmptyReferenceAreas::new(areas) {
            Some(list) => ReferenceValue::Areas(list),
            None => ReferenceValue::Empty,
        }
    }

    /// Returns the areas in order.
    pub fn areas(&self) -> (r: &[ReferenceArea])
        ensures
            r@ == value_areas(*self),
    {
        match self {
            ReferenceValue::Empty => {
                let empty: &[ReferenceArea] = &[];
                assert(empty@ =~= Seq::<ReferenceArea>::empty());
                empty
            },
            ReferenceValue::Areas(list) => list.as_slice(),
        }
    }

    /// Returns the number of areas.
    pub fn area_count(&self) -> (r: usize)
        ensures
            r == value_areas(*self).len(),
    {
        self.areas().len()
    }

    /// Whether some area spans a sheet range.
    pub fn has_sheet_span(&self) -> (r: bool)
        ensures
            r == exists|i: int| 0 <= i < value_areas(*self).len() && #[trigger] value_areas(*self)[i] is SheetSpan,
    {
        let areas = self.areas();
        let mut i: usize = 0;
        while i < areas.len()
            invariant
                areas@ == value_areas(*self),
                i <= areas@.len(),
                forall|j: int| 0 <= j < i ==> !(#[trigger] areas@[j] is SheetSpan),
            decreases areas@.len() - i,
        {
            if areas[i].is_sheet_span() {
                return true;
            }
            i = i + 1;
        }
        false
    }

    /// The rectangles of every area, area after area.
    pub fn rects(&self) -> (r: Vec<Rect>)
        ensures
            r@ == areas_rects(value_areas(*self)),
    {
        let areas = self.areas();
        let mut out: Vec<Rect> = Vec::new();
        let mut i: usize = 0;
        while i < areas.len()
            invariant
                areas@ == value_areas(*self),
                i <= areas@.len(),
                out@ == areas_rects(areas@.take(i as int)),
            decreases areas@.len() - i,
        {
            let mut more = areas[i].rects();
            out.append(&mut more);
            proof {
                assert(areas@.take(i + 1).drop_last() =~= areas@.take(i as int));
            }
            i = i + 1;
        }
        assert(areas@.take(areas@.len() as int) =~= areas@);
        out
    }

    /// The single plain rectangle of the reference: `#REF!` when empty, `#VALUE!` for several
    /// areas or a sheet range.
    pub fn single_rect(&self) -> (r: Result<Rect, ErrorKind>)
        ensures
            r == (match *self {
                ReferenceValue::Empty => Err(ErrorKind::Ref),
                ReferenceValue::Areas(_) => if value_areas(*self).len() == 1 && value_areas(*self)[0] is Rect {
                    Ok(area_template(value_areas(*self)[0]))
                } else {
                    Err(ErrorKind::Value)
                },
            }),
    {
        match self {
            ReferenceValue::Empty => Err(ErrorKind::Ref),
            ReferenceValue::Areas(list) => {
                let areas = list.as_slice();
                if areas.len() == 1 {
                    match areas[0] {
                        ReferenceArea::Rect(rect) => Ok(rect),
                        ReferenceArea::SheetSpan(_) => Err(ErrorKind::Value),
                    }
                } else {
                    Err(ErrorKind::Value)
                }
            },
        }
    }

    /// Consumes the reference, giving what `single_rect` gives.
    pub fn into_single_rect(self) -> (r: Result<Rect, ErrorKind>)
        ensures
            r == (match self {
                ReferenceValue::Empty => Err(ErrorKind::Ref),
                ReferenceValue::Areas(_) => if value_areas(self).len() == 1 && value_areas(self)[0] is Rect {
                    Ok(area_template(value_areas(self)[0]))
                } else {
                    Err(ErrorKind::Value)
                },
            }),
    {
        self.single_rect()
    }

    /// The single area of the reference as a span: `#REF!` when empty, `#VALUE!` for several areas.
    pub fn single_area_span(&self) -> (r: Result<RectSpan, ErrorKind>)
        ensures
            match *self {
                ReferenceValue::Empty => r == Err::<RectSpan, ErrorKind>(ErrorKind::Ref),
                ReferenceValue::Areas(_) => if value_areas(*self).len() == 1 {
                    r matches Ok(span) && match value_areas(*self)[0] {
                        ReferenceArea::Rect(rect) => span.rect_spec() == rect && span.sheets_spec().start_spec() == rect.sheet
                            && span.sheets_spec().end_spec() == rect.sheet && !span.sheets_spec().explicit_spec(),
                        ReferenceArea::SheetSpan(s) => span == s,
                    }
                } else {
                    r == Err::<RectSpan, ErrorKind>(ErrorKind::Value)
                },
            },
    {
        match self {
            ReferenceValue::Empty => Err(ErrorKind::Ref),
            ReferenceValue::Areas(list) => {
                let areas = list.as_slice();
                if areas.len() == 1 {
                    Ok(areas[0].as_span())
                } else {
                    Err(ErrorKind::Value)
                }
            },
        }
    }

    /// The area at a one-based index as a span: `#VALUE!` for index zero, `#REF!` past the end.
    pub fn area_span(&self, one_based_index: usize) -> (r: Result<RectSpan, ErrorKind>)
        ensures
            one_based_index == 0 ==> r == Err::<RectSpan, ErrorKind>(ErrorKind::Value),
            one_based_index > value_areas(*self).len() ==> r == Err::<RectSpan, ErrorKind>(ErrorKind::Ref),
            1 <= one_based_index <= value_areas(*self).len() ==> (r matches Ok(span) && match value_areas(*self)[one_based_index - 1] {
                ReferenceArea::Rect(rect) => span.rect_spec() == rect && span.sheets_spec().start_spec() == rect.sheet
                    && span.sheets_spec().end_spec() == rect.sheet && !span.sheets_spec().explicit_spec(),
                ReferenceArea::SheetSpan(s) => span == s,
            }),
    {
        if one_based_index == 0 {
            return Err(ErrorKind::Value);
        }
        let areas = self.areas();
        if one_based_index - 1 < areas.len() {
            Ok(areas[one_based_index - 1].as_span())
        } else {
            Err(ErrorKind::Ref)
        }
    }

    /// The smallest rectangle covering every area: `#REF!` when empty, `#VALUE!` when an area
    /// spans sheets or the areas lie on different sheets.
    pub fn bounding_rect(&self) -> (r: Result<Rect, ErrorKind>)
        ensures
            r == (match *self {
                ReferenceValue::Empty => Err(ErrorKind::Ref),
                ReferenceValue::Areas(_) => bound_prefix(value_areas(*self), value_areas(*self).len() as int),
            }),
    {
        let list = match self {
            ReferenceValue::Empty => return Err(ErrorKind::Ref),
            ReferenceValue::Areas(list) => list,
        };
        list.check_non_empty();
        let areas = list.as_slice();
        let mut result = match areas[0] {
            ReferenceArea::Rect(rect) => rect,
            ReferenceArea::SheetSpan(_) => {
                proof {
                    lemma_bound_error_persists(areas@, 1);
                }
                return Err(ErrorKind::Value);
            },
        };
        let mut i: usize = 1;
        while i < areas.len()
            invariant
                areas@ == value_areas(*self),
                1 <= i <= areas@.len(),
                bound_prefix(areas@, i as int) == Ok::<Rect, ErrorKind>(result),
            decreases areas@.len() - i,
        {
            let rect = match areas[i] {
                ReferenceArea::Rect(rect) => rect,
                ReferenceArea::SheetSpan(_) => {
                    assert(bound_prefix(areas@, i + 1) == Err::<Rect, ErrorKind>(ErrorKind::Value));
                    assert(forall|k: int| i + 1 <= k <= areas@.len() ==> bound_prefix(areas@, k) == Err::<Rect, ErrorKind>(ErrorKind::Value)) by {
                        lemma_bound_error_persists(areas@, i + 1);
                    }
                    return Err(ErrorKind::Value);
                },
            };
            if rect.sheet != result.sheet {
                proof {
                    lemma_bound_error_persists(areas@, i + 1);
                }
                return Err(ErrorKind::Value);
            }
            result.row_start = if result.row_start <= rect.row_start { result.row_start } else { rect.row_start };
            result.col_start = if result.col_start <= rect.col_start { result.col_start } else { rect.col_start };
            result.row_end = if result.row_end >= rect.row_end { result.row_end } else { rect.row_end };
            result.col_end = if result.col_end >= rect.col_end { result.col_end } else { rect.col_end };
            result.whole_rows = result.row_start == 1 && result.row_end == EXCEL_MAX_ROWS
                && (result.whole_rows || rect.whole_rows);
            i = i + 1;
        }
        Ok(result)
    }
}

/// Once the bound of a prefix fails, every longer prefix fails with the same error.
proof fn lemma_bound_error_persists(areas: Seq<ReferenceArea>, k: int)
    requires
        1 <= k,
        bound_prefix(areas, k) is Err,
    ensures
        forall|m: int| k <= m ==> #[trigger] bound_prefix(areas, m) == bound_prefix(areas, k),
{
    assert forall|m: int| k <= m implies #[trigger] bound_prefix(areas, m) == bound_prefix(areas, k) by {
        lemma_bound_error_persists_to(areas, k, m);
    }
}

proof fn lemma_bound_error_persists_to(areas: Seq<ReferenceArea>, k: int, m: int)
    requires
        1 <= k <= m,
        bound_prefix(areas, k) is Err,
    ensures
        bound_prefix(areas, m) == bound_prefix(areas, k),
    decreases m - k,
{
    if m > k {
        lemma_bound_error_persists_to(areas, k, m - 1);
    }
}

/// A row-major array of values.
#[derive(Debug, Clone, PartialEq)]
pub struct Array {
    pub rows: u32,
    pub cols: u32,
    pub data: Vec<CellValue>,
}

impl Array {
    /// A one-by-one array holding `value`.
    pub fn scalar(value: CellValue) -> (r: Self)
        ensures
            r.rows == 1,
            r.cols == 1,
            r.data@ == seq![value],
    {
        let mut data: Vec<CellValue> = Vec::new();
        data.push(value);
        assert(data@ =~= seq![value]);
        Array { rows: 1, cols: 1, data }
    }

    /// The value at `row`, `col`.
    pub fn at(&self, row: u32, col: u32) -> (r: &CellValue)
        requires
            row * self.cols + col < self.data@.len(),
        ensures
            *r == self.data@[row * self.cols + col],
    {
        let len = self.data.len();
        assert(row * self.cols + col < len);
        let index = row as usize * self.cols as usize + col as usize;
        &self.data[index]
    }

    /// Whether the array is one by one.
    pub fn is_scalar(&self) -> (r: bool)
        ensures
            r == (self.rows == 1 && self.cols == 1),
    {
        self.rows == 1 && self.cols == 1
    }
}

} // verus!
