//! A plain-value model of a workbook and its semantic fingerprint: a SHA-256 digest over a framed
//! byte layout in which each sheet's cells are folded through per-chunk digests, so an edited
//! workbook can reuse the digest of every unchanged chunk.
use vstd::prelude::*;
use vstd::string::StringSliceAdditionalSpecFns;
use vstd::utf8::encode_utf8;

use crate::calculation::FiniteNumber;
use crate::cell::{CellAddress, CellRange};
use crate::identity::{address_bytes, framed, le_bytes, optional_field, sha256_spec, SemanticHash};

verus! {

/// The framed UTF-8 bytes of a text.
pub open spec fn text_bytes(s: Seq<char>) -> Seq<u8> {
    framed(encode_utf8(s))
}

/// An optional text: absent, or present with its framed bytes.
pub open spec fn optional_text_bytes(s: Option<String>) -> Seq<u8> {
    optional_field(
        match s {
            Some(t) => Some(text_bytes(t@)),
            None => None,
        },
    )
}

/// A boolean as one byte.
pub open spec fn bool_bytes(b: bool) -> Seq<u8> {
    seq![if b { 1u8 } else { 0u8 }]
}

/// Four little-endian bytes.
pub open spec fn u32_bytes(v: u32) -> Seq<u8> {
    le_bytes(v as nat, 4)
}

/// A count as eight little-endian bytes.
pub open spec fn count_bytes(n: nat) -> Seq<u8> {
    le_bytes(n, 8)
}

/// An optional four-byte value.
pub open spec fn optional_u32_bytes(v: Option<u32>) -> Seq<u8> {
    optional_field(
        match v {
            Some(x) => Some(u32_bytes(x)),
            None => None,
        },
    )
}

/// An optional two-byte value, widened to four bytes.
pub open spec fn optional_u16_bytes(v: Option<u16>) -> Seq<u8> {
    optional_field(
        match v {
            Some(x) => Some(le_bytes(x as nat, 4)),
            None => None,
        },
    )
}

/// An optional boolean.
pub open spec fn optional_bool_bytes(v: Option<bool>) -> Seq<u8> {
    optional_field(
        match v {
            Some(x) => Some(bool_bytes(x)),
            None => None,
        },
    )
}

/// A range: its start address, then its end address.
pub open spec fn range_bytes(r: CellRange) -> Seq<u8> {
    address_bytes(r.start_spec()@.row, r.start_spec()@.column) + address_bytes(r.end_spec()@.row, r.end_spec()@.column)
}

/// An optional range.
pub open spec fn optional_range_bytes(r: Option<CellRange>) -> Seq<u8> {
    optional_field(
        match r {
            Some(x) => Some(range_bytes(x)),
            None => None,
        },
    )
}

/// An optional address.
pub open spec fn optional_address_bytes(a: Option<CellAddress>) -> Seq<u8> {
    optional_field(
        match a {
            Some(x) => Some(address_bytes(x@.row, x@.column)),
            None => None,
        },
    )
}

/// Feeds a text.
fn feed_text<F: Fn() -> bool>(hash: &mut SemanticHash, s: &String, cancelled: &F) -> (r: Result<(), ()>)
    requires
        call_requires(*cancelled, ()),
    ensures
        r is Ok ==> final(hash)@ == old(hash)@ + text_bytes(s@),
        r is Err ==> call_ensures(*cancelled, (), true),
{
    hash.string_cancellable(s.as_str(), cancelled)
}

/// Feeds an optional text.
fn feed_optional_text<F: Fn() -> bool>(hash: &mut SemanticHash, s: &Option<String>, cancelled: &F) -> (r: Result<(), ()>)
    requires
        call_requires(*cancelled, ()),
    ensures
        r is Ok ==> final(hash)@ == old(hash)@ + optional_text_bytes(*s),
        r is Err ==> call_ensures(*cancelled, (), true),
{
    let value = match s {
        Some(t) => Some(t.as_str()),
        None => None,
    };
    hash.optional_string_cancellable(value, cancelled)
}

/// Feeds a range.
fn feed_range(hash: &mut SemanticHash, r: CellRange)
    ensures
        final(hash)@ == old(hash)@ + range_bytes(r),
{
    hash.range(r);
    assert(final(hash)@ =~= old(hash)@ + range_bytes(r));
}

/// How a cell's number format presents numbers.
#[derive(Debug, Clone, Copy, PartialEq, Eq, Structural)]
pub enum NumberFormatKind {
    General,
    Number,
    Date,
    Time,
    DateTime,
    Duration,
}

/// The code byte of a number format kind.
pub open spec fn number_format_kind_code(k: NumberFormatKind) -> u8 {
    match k {
        NumberFormatKind::General => 0,
        NumberFormatKind::Number => 1,
        NumberFormatKind::Date => 2,
        NumberFormatKind::Time => 3,
        NumberFormatKind::DateTime => 4,
        NumberFormatKind::Duration => 5,
    }
}

/// A cell's number format: its identifier, optional format code and kind.
#[derive(Debug, Clone, PartialEq)]
pub struct NumberFormat {
    pub id: u32,
    pub code: Option<String>,
    pub kind: NumberFormatKind,
}

/// The bytes of a number format.
pub open spec fn number_format_bytes(f: NumberFormat) -> Seq<u8> {
    u32_bytes(f.id) + optional_text_bytes(f.code) + seq![number_format_kind_code(f.kind)]
}

/// A literal cell value; an error is held as the text of its error value.
#[derive(Debug, Clone, PartialEq)]
pub enum LiteralValue {
    Blank,
    Number(FiniteNumber),
    Text(String),
    Logical(bool),
    Error(String),
}

/// The bytes of a literal value: a tag byte, then its payload.
pub open spec fn literal_bytes(v: LiteralValue) -> Seq<u8> {
    match v {
        LiteralValue::Blank => seq![0u8],
        LiteralValue::Number(n) => seq![1u8] + le_bytes(n@ as nat, 8),
        LiteralValue::Text(t) => seq![2u8] + text_bytes(t@),
        LiteralValue::Logical(b) => seq![3u8] + bool_bytes(b),
        LiteralValue::Error(e) => seq![4u8] + text_bytes(e@),
    }
}

/// How a formula cell takes part in a shared, array, dynamic-array or data-table formula.
#[derive(Debug, Clone, PartialEq)]
pub enum FormulaMetadata {
    Normal,
    /// `anchor` is the anchor of a follower, `None` for the anchor itself.
    Shared { group_index: u32, anchor: Option<CellAddress>, range: Option<CellRange> },
    Array { range: CellRange, always_calculate: bool },
    DynamicArray { range: Option<CellRange>, always_calculate: bool },
    DataTable {
        range: CellRange,
        input_cell_1: Option<CellAddress>,
        input_cell_2: Option<CellAddress>,
        two_dimensional: bool,
        row_oriented: bool,
        input_cell_1_deleted: bool,
        input_cell_2_deleted: bool,
    },
}

/// The bytes of formula metadata: a tag byte, then its fields.
pub open spec fn metadata_bytes(m: FormulaMetadata) -> Seq<u8> {
    match m {
        FormulaMetadata::Normal => seq![0u8],
        FormulaMetadata::Shared { group_index, anchor, range } => seq![1u8] + u32_bytes(group_index)
            + optional_address_bytes(anchor) + optional_range_bytes(range),
        FormulaMetadata::Array { range, always_calculate } => seq![2u8] + range_bytes(range) + bool_bytes(
            always_calculate,
        ),
        FormulaMetadata::DynamicArray { range, always_calculate } => seq![3u8] + optional_range_bytes(range)
            + bool_bytes(always_calculate),
        FormulaMetadata::DataTable {
            range,
            input_cell_1,
            input_cell_2,
            two_dimensional,
            row_oriented,
            input_cell_1_deleted,
            input_cell_2_deleted,
        } => seq![4u8] + data_table_bytes(
            range,
            input_cell_1,
            input_cell_2,
            two_dimensional,
            row_oriented,
            input_cell_1_deleted,
            input_cell_2_deleted,
        ),
    }
}

/// The fields of a data-table formula.
pub open spec fn data_table_bytes(
    range: CellRange,
    input_cell_1: Option<CellAddress>,
    input_cell_2: Option<CellAddress>,
    two_dimensional: bool,
    row_oriented: bool,
    input_cell_1_deleted: bool,
    input_cell_2_deleted: bool,
) -> Seq<u8> {
    range_bytes(range) + optional_address_bytes(input_cell_1) + optional_address_bytes(input_cell_2)
        + bool_bytes(two_dimensional) + bool_bytes(row_oriented) + bool_bytes(input_cell_1_deleted)
        + bool_bytes(input_cell_2_deleted)
}

#[verifier::rlimit(100)]
fn feed_data_table(
    hash: &mut SemanticHash,
    range: CellRange,
    input_cell_1: Option<CellAddress>,
    input_cell_2: Option<CellAddress>,
    two_dimensional: bool,
    row_oriented: bool,
    input_cell_1_deleted: bool,
    input_cell_2_deleted: bool,
)
    ensures
        final(hash)@ == old(hash)@ + data_table_bytes(
            range,
            input_cell_1,
            input_cell_2,
            two_dimensional,
            row_oriented,
            input_cell_1_deleted,
            input_cell_2_deleted,
        ),
{
    let ghost start = hash@;
    feed_range(hash, range);
    let ghost s1 = hash@;
    hash.optional_address(input_cell_1);
    assert(hash@ =~= s1 + optional_address_bytes(input_cell_1));
    let ghost s2 = hash@;
    hash.optional_address(input_cell_2);
    assert(hash@ =~= s2 + optional_address_bytes(input_cell_2));
    let ghost s3 = hash@;
    hash.boolean(two_dimensional);
    hash.boolean(row_oriented);
    hash.boolean(input_cell_1_deleted);
    hash.boolean(input_cell_2_deleted);
    assert(hash@ =~= s3 + bool_bytes(two_dimensional) + bool_bytes(row_oriented) + bool_bytes(input_cell_1_deleted)
        + bool_bytes(input_cell_2_deleted));
    assert(hash@ =~= start + data_table_bytes(
        range,
        input_cell_1,
        input_cell_2,
        two_dimensional,
        row_oriented,
        input_cell_1_deleted,
        input_cell_2_deleted,
    ));
}

/// What a cell holds: a literal value, or a formula with its optional text and metadata.
#[derive(Debug, Clone, PartialEq)]
pub enum CellContent {
    Literal(LiteralValue),
    Formula { text: Option<String>, metadata: FormulaMetadata, recalculate_always: bool },
}

/// The bytes of a cell's content.
pub open spec fn content_bytes(c: CellContent) -> Seq<u8> {
    match c {
        CellContent::Literal(v) => seq![0u8] + literal_bytes(v),
        CellContent::Formula { text, metadata, recalculate_always } => seq![1u8] + optional_text_bytes(text)
            + metadata_bytes(metadata) + bool_bytes(recalculate_always),
    }
}

/// One populated cell of a sheet.
#[derive(Debug, Clone, PartialEq)]
pub struct WorkbookCell {
    pub address: CellAddress,
    pub number_format: NumberFormat,
    pub content: CellContent,
}

/// The bytes of a cell: its address, number format and content.
pub open spec fn cell_bytes(c: WorkbookCell) -> Seq<u8> {
    address_bytes(c.address@.row, c.address@.column) + number_format_bytes(c.number_format) + content_bytes(
        c.content,
    )
}

/// The bytes of each cell in turn.
pub open spec fn cells_bytes(cells: Seq<WorkbookCell>) -> Seq<u8>
    decreases cells.len(),
{
    if cells.len() == 0 {
        Seq::empty()
    } else {
        cells_bytes(cells.drop_last()) + cell_bytes(cells.last())
    }
}

proof fn lemma_cells_step(cells: Seq<WorkbookCell>, i: int)
    requires
        0 <= i < cells.len(),
    ensures
        cells_bytes(cells.take(i + 1)) == cells_bytes(cells.take(i)) + cell_bytes(cells[i]),
{
    assert(cells.take(i + 1).drop_last() =~= cells.take(i));
}

/// The bytes a chunk of `len` cells is digested from: a schema byte, the count, then each cell.
pub open spec fn chunk_bytes(cells: Seq<WorkbookCell>, len: usize) -> Seq<u8> {
    seq![1u8] + count_bytes(len as nat) + cells_bytes(cells)
}

fn feed_literal<F: Fn() -> bool>(hash: &mut SemanticHash, v: &LiteralValue, cancelled: &F) -> (r: Result<(), ()>)
    requires
        call_requires(*cancelled, ()),
    ensures
        r is Ok ==> final(hash)@ == old(hash)@ + literal_bytes(*v),
        r is Err ==> call_ensures(*cancelled, (), true),
{
    let ghost start = hash@;
    match v {
        LiteralValue::Blank => {
            hash.u8(0);
        },
        LiteralValue::Number(n) => {
            hash.u8(1);
            hash.u64(n.to_bits());
        },
        LiteralValue::Text(t) => {
            hash.u8(2);
            match feed_text(hash, t, cancelled) {
                Ok(()) => {},
                Err(()) => return Err(()),
            }
        },
        LiteralValue::Logical(b) => {
            hash.u8(3);
            hash.boolean(*b);
        },
        LiteralValue::Error(e) => {
            hash.u8(4);
            match feed_text(hash, e, cancelled) {
                Ok(()) => {},
                Err(()) => return Err(()),
            }
        },
    }
    assert(hash@ =~= start + literal_bytes(*v));
    Ok(())
}

fn feed_metadata(hash: &mut SemanticHash, m: &FormulaMetadata)
    ensures
        final(hash)@ == old(hash)@ + metadata_bytes(*m),
{
    let ghost start = hash@;
    match m {
        FormulaMetadata::Normal => {
            hash.u8(0);
            assert(hash@ =~= start + metadata_bytes(*m));
        },
        FormulaMetadata::Shared { group_index, anchor, range } => {
            hash.u8(1);
            hash.u32(*group_index);
            hash.optional_address(*anchor);
            hash.optional_range(*range);
            assert(hash@ =~= start + metadata_bytes(*m));
        },
        FormulaMetadata::Array { range, always_calculate } => {
            hash.u8(2);
            feed_range(hash, *range);
            hash.boolean(*always_calculate);
            assert(hash@ =~= start + metadata_bytes(*m));
        },
        FormulaMetadata::DynamicArray { range, always_calculate } => {
            hash.u8(3);
            hash.optional_range(*range);
            hash.boolean(*always_calculate);
            assert(hash@ =~= start + metadata_bytes(*m));
        },
        FormulaMetadata::DataTable {
            range,
            input_cell_1,
            input_cell_2,
            two_dimensional,
            row_oriented,
            input_cell_1_deleted,
            input_cell_2_deleted,
        } => {
            hash.u8(4);
            feed_data_table(
                hash,
                *range,
                *input_cell_1,
                *input_cell_2,
                *two_dimensional,
                *row_oriented,
                *input_cell_1_deleted,
                *input_cell_2_deleted,
            );
            assert(hash@ =~= start + metadata_bytes(*m));
        },
    }
}

fn feed_cell<F: Fn() -> bool>(hash: &mut SemanticHash, c: &WorkbookCell, cancelled: &F) -> (r: Result<(), ()>)
    requires
        call_requires(*cancelled, ()),
    ensures
        r is Ok ==> final(hash)@ == old(hash)@ + cell_bytes(*c),
        r is Err ==> call_ensures(*cancelled, (), true),
{
    let ghost start = hash@;
    hash.address(c.address);
    hash.u32(c.number_format.id);
    match feed_optional_text(hash, &c.number_format.code, cancelled) {
        Ok(()) => {},
        Err(()) => return Err(()),
    }
    let kind: u8 = match c.number_format.kind {
        NumberFormatKind::General => 0,
        NumberFormatKind::Number => 1,
        NumberFormatKind::Date => 2,
        NumberFormatKind::Time => 3,
        NumberFormatKind::DateTime => 4,
        NumberFormatKind::Duration => 5,
    };
    hash.u8(kind);
    let ghost mid = hash@;
    assert(mid =~= start + address_bytes(c.address@.row, c.address@.column) + number_format_bytes(c.number_format));
    match &c.content {
        CellContent::Literal(v) => {
            hash.u8(0);
            match feed_literal(hash, v, cancelled) {
                Ok(()) => {},
                Err(()) => return Err(()),
            }
        },
        CellContent::Formula { text, metadata, recalculate_always } => {
            hash.u8(1);
            match feed_optional_text(hash, text, cancelled) {
                Ok(()) => {},
                Err(()) => return Err(()),
            }
            feed_metadata(hash, metadata);
            hash.boolean(*recalculate_always);
        },
    }
    assert(hash@ =~= mid + content_bytes(c.content));
    assert(hash@ =~= start + cell_bytes(*c));
    Ok(())
}

/// Digests a chunk of `len` cells, polling `cancelled` before each cell.
pub fn cell_chunk_fingerprint_cancellable<F: Fn() -> bool>(
    cells: &[WorkbookCell],
    len: usize,
    cancelled: &F,
) -> (r: Result<[u8; 32], ()>)
    requires
        call_requires(*cancelled, ()),
    ensures
        r matches Ok(d) ==> d@ == sha256_spec(chunk_bytes(cells@, len)),
        r is Err ==> call_ensures(*cancelled, (), true),
{
    let mut hash = SemanticHash::new();
    hash.u8(1);
    hash.usize(len);
    let ghost start = hash@;
    let mut i: usize = 0;
    while i < cells.len()
        invariant
            i <= cells@.len(),
            call_requires(*cancelled, ()),
            start == seq![1u8] + count_bytes(len as nat),
            hash@ == start + cells_bytes(cells@.take(i as int)),
        decreases cells@.len() - i,
    {
        if cancelled() {
            return Err(());
        }
        let ghost before = hash@;
        match feed_cell(&mut hash, &cells[i], cancelled) {
            Ok(()) => {},
            Err(()) => return Err(()),
        }
        proof {
            lemma_cells_step(cells@, i as int);
            assert(hash@ =~= start + cells_bytes(cells@.take(i + 1)));
        }
        i = i + 1;
    }
    proof {
        assert(cells@.take(cells@.len() as int) =~= cells@);
        assert(hash@ =~= chunk_bytes(cells@, len));
    }
    Ok(hash.finish())
}


/// Appending to a sequence built as `s + x`.
proof fn lemma_extend(s: Seq<u8>, x: Seq<u8>, y: Seq<u8>)
    ensures
        (s + x) + y == s + (x + y),
{
    vstd::seq_lib::lemma_concat_associative(s, x, y);
}

/// One value of a table's value filter: a value, or a date group with its grouping level's name.
#[derive(Debug, Clone, PartialEq)]
pub enum FilterItem {
    Value(Option<String>),
    DateGroup {
        year: u16,
        month: Option<u16>,
        day: Option<u16>,
        hour: Option<u16>,
        minute: Option<u16>,
        second: Option<u16>,
        grouping: String,
    },
}

/// The bytes of a filter value.
pub open spec fn filter_item_bytes(item: FilterItem) -> Seq<u8> {
    match item {
        FilterItem::Value(v) => seq![0u8] + optional_text_bytes(v),
        FilterItem::DateGroup { year, month, day, hour, minute, second, grouping } => seq![1u8] + le_bytes(
            year as nat,
            4,
        ) + optional_u16_bytes(month) + optional_u16_bytes(day) + optional_u16_bytes(hour) + optional_u16_bytes(
            minute,
        ) + optional_u16_bytes(second) + text_bytes(grouping@),
    }
}

/// One condition of a custom filter: its optional operator name and optional value.
#[derive(Debug, Clone, PartialEq)]
pub struct CustomFilter {
    pub operator: Option<String>,
    pub value: Option<String>,
}

/// The bytes of a custom filter condition.
pub open spec fn custom_filter_bytes(f: CustomFilter) -> Seq<u8> {
    optional_text_bytes(f.operator) + optional_text_bytes(f.value)
}

/// The criteria of one filtered table column; names of kinds, icon sets and calendar types are held
/// as their text.
#[derive(Debug, Clone, PartialEq)]
pub enum FilterCriteria {
    Values { blank: bool, calendar_type: Option<String>, items: Vec<FilterItem> },
    Custom { and: bool, filters: Vec<CustomFilter> },
    Dynamic {
        kind: String,
        value: Option<String>,
        iso_value: Option<String>,
        max_value: Option<String>,
        max_iso_value: Option<String>,
    },
    Color { differential_format_id: Option<u32>, cell_color: bool },
    Icon { icon_set: String, icon_id: Option<u32> },
    Top { top: bool, percent: bool, value: String, filter_value: Option<String> },
}

/// The bytes of filter criteria: a tag byte, then its fields.
pub open spec fn criteria_bytes(c: FilterCriteria) -> Seq<u8> {
    match c {
        FilterCriteria::Values { blank, calendar_type, items } => seq![0u8] + bool_bytes(blank)
            + optional_text_bytes(calendar_type) + count_bytes(items@.len()) + items_bytes(items@),
        FilterCriteria::Custom { and, filters } => seq![1u8] + bool_bytes(and) + count_bytes(filters@.len())
            + custom_filters_bytes(filters@),
        FilterCriteria::Dynamic { kind, value, iso_value, max_value, max_iso_value } => seq![2u8] + text_bytes(kind@)
            + optional_text_bytes(value) + optional_text_bytes(iso_value) + optional_text_bytes(max_value)
            + optional_text_bytes(max_iso_value),
        FilterCriteria::Color { differential_format_id, cell_color } => seq![3u8] + optional_u32_bytes(
            differential_format_id,
        ) + bool_bytes(cell_color),
        FilterCriteria::Icon { icon_set, icon_id } => seq![4u8] + text_bytes(icon_set@) + optional_u32_bytes(icon_id),
        FilterCriteria::Top { top, percent, value, filter_value } => seq![5u8] + bool_bytes(top) + bool_bytes(percent)
            + text_bytes(value@) + optional_text_bytes(filter_value),
    }
}

/// Optional filter criteria.
pub open spec fn optional_criteria_bytes(c: Option<FilterCriteria>) -> Seq<u8> {
    optional_field(
        match c {
            Some(x) => Some(criteria_bytes(x)),
            None => None,
        },
    )
}

/// One sort condition; the sort-by and icon-set names are held as their text.
#[derive(Debug, Clone, PartialEq)]
pub struct SortCondition {
    pub range: CellRange,
    pub descending: bool,
    pub sort_by: Option<String>,
    pub custom_list: Option<String>,
    pub differential_format_id: Option<u32>,
    pub icon_set: Option<String>,
    pub icon_id: Option<u32>,
}

/// The bytes of a sort condition.
pub open spec fn sort_condition_bytes(c: SortCondition) -> Seq<u8> {
    range_bytes(c.range) + bool_bytes(c.descending) + optional_text_bytes(c.sort_by) + optional_text_bytes(
        c.custom_list,
    ) + optional_u32_bytes(c.differential_format_id) + optional_text_bytes(c.icon_set) + optional_u32_bytes(c.icon_id)
}

/// A sort state; the sort method's name is held as its text.
#[derive(Debug, Clone, PartialEq)]
pub struct SortState {
    pub range: CellRange,
    pub case_sensitive: bool,
    pub column_sort: bool,
    pub sort_method: Option<String>,
    pub conditions: Vec<SortCondition>,
}

/// The bytes of a sort state.
pub open spec fn sort_state_bytes(s: SortState) -> Seq<u8> {
    range_bytes(s.range) + bool_bytes(s.case_sensitive) + bool_bytes(s.column_sort) + optional_text_bytes(
        s.sort_method,
    ) + count_bytes(s.conditions@.len()) + sort_conditions_bytes(s.conditions@)
}

/// An optional sort state.
pub open spec fn optional_sort_state_bytes(s: Option<SortState>) -> Seq<u8> {
    optional_field(
        match s {
            Some(x) => Some(sort_state_bytes(x)),
            None => None,
        },
    )
}

/// One column of an auto filter.
#[derive(Debug, Clone, PartialEq)]
pub struct FilterColumn {
    pub column_id: u32,
    pub hidden_button: bool,
    pub show_button: bool,
    pub criteria: Option<FilterCriteria>,
}

/// The bytes of an auto-filter column.
pub open spec fn filter_column_bytes(c: FilterColumn) -> Seq<u8> {
    u32_bytes(c.column_id) + bool_bytes(c.hidden_button) + bool_bytes(c.show_button) + optional_criteria_bytes(
        c.criteria,
    )
}

/// A table's auto filter.
#[derive(Debug, Clone, PartialEq)]
pub struct AutoFilter {
    pub range: CellRange,
    pub has_declared_range: bool,
    pub filter_columns: Vec<FilterColumn>,
    pub sort_state: Option<SortState>,
}

/// The bytes of an auto filter.
pub open spec fn auto_filter_bytes(a: AutoFilter) -> Seq<u8> {
    range_bytes(a.range) + bool_bytes(a.has_declared_range) + count_bytes(a.filter_columns@.len())
        + filter_columns_bytes(a.filter_columns@) + optional_sort_state_bytes(a.sort_state)
}

/// An optional auto filter.
pub open spec fn optional_auto_filter_bytes(a: Option<AutoFilter>) -> Seq<u8> {
    optional_field(
        match a {
            Some(x) => Some(auto_filter_bytes(x)),
            None => None,
        },
    )
}

/// A formula of a table column.
#[derive(Debug, Clone, PartialEq)]
pub struct TableFormula {
    pub text: String,
    pub is_array: bool,
}

/// An optional table formula.
pub open spec fn optional_table_formula_bytes(f: Option<TableFormula>) -> Seq<u8> {
    optional_field(
        match f {
            Some(x) => Some(text_bytes(x.text@) + bool_bytes(x.is_array)),
            None => None,
        },
    )
}

/// One table column; the totals-row function's name is held as its text.
#[derive(Debug, Clone, PartialEq)]
pub struct TableColumn {
    pub id: u32,
    pub name: String,
    pub totals_row_function: Option<String>,
    pub totals_row_label: Option<String>,
    pub calculated_column_formula: Option<TableFormula>,
    pub totals_row_formula: Option<TableFormula>,
}

/// The bytes of a table column.
pub open spec fn table_column_bytes(c: TableColumn) -> Seq<u8> {
    u32_bytes(c.id) + text_bytes(c.name@) + optional_text_bytes(c.totals_row_function) + optional_text_bytes(
        c.totals_row_label,
    ) + optional_table_formula_bytes(c.calculated_column_formula) + optional_table_formula_bytes(
        c.totals_row_formula,
    )
}

/// A table's style flags.
#[derive(Debug, Clone, PartialEq)]
pub struct TableStyle {
    pub name: Option<String>,
    pub show_first_column: bool,
    pub show_last_column: bool,
    pub show_row_stripes: bool,
    pub show_column_stripes: bool,
}

/// An optional table style.
pub open spec fn optional_style_bytes(s: Option<TableStyle>) -> Seq<u8> {
    optional_field(
        match s {
            Some(x) => Some(optional_text_bytes(x.name) + bool_bytes(x.show_first_column) + bool_bytes(
                x.show_last_column,
            ) + bool_bytes(x.show_row_stripes) + bool_bytes(x.show_column_stripes)),
            None => None,
        },
    )
}

/// A worksheet table; the table type's name is held as its text.
#[derive(Debug, Clone, PartialEq)]
pub struct Table {
    pub id: u32,
    pub name: String,
    pub display_name: String,
    pub range: CellRange,
    pub table_type: String,
    pub header_row_count: u32,
    pub totals_row_count: u32,
    pub totals_row_shown: bool,
    pub columns: Vec<TableColumn>,
    pub auto_filter: Option<AutoFilter>,
    pub sort_state: Option<SortState>,
    pub style: Option<TableStyle>,
    pub opaque_source_xml: Option<Vec<u8>>,
}

/// The identity and layout fields of a table, before its columns.
pub open spec fn table_head_bytes(t: Table) -> Seq<u8> {
    u32_bytes(t.id) + text_bytes(t.name@) + text_bytes(t.display_name@) + range_bytes(t.range) + text_bytes(
        t.table_type@,
    ) + u32_bytes(t.header_row_count) + u32_bytes(t.totals_row_count) + bool_bytes(t.totals_row_shown)
}

/// The bytes of a table: every field of it.
pub open spec fn table_bytes(t: Table) -> Seq<u8> {
    table_head_bytes(t) + count_bytes(t.columns@.len()) + table_columns_bytes(t.columns@) + optional_auto_filter_bytes(
        t.auto_filter,
    ) + optional_sort_state_bytes(t.sort_state) + optional_style_bytes(t.style) + opaque_bytes(t.opaque_source_xml)
}

/// Optional opaque bytes, framed.
pub open spec fn opaque_bytes(b: Option<Vec<u8>>) -> Seq<u8> {
    optional_field(
        match b {
            Some(x) => Some(framed(x@)),
            None => None,
        },
    )
}

/// The bytes of each item in turn.
pub open spec fn items_bytes(items: Seq<FilterItem>) -> Seq<u8>
    decreases items.len(),
{
    if items.len() == 0 {
        Seq::empty()
    } else {
        items_bytes(items.drop_last()) + filter_item_bytes(items.last())
    }
}

proof fn lemma_items_step(items: Seq<FilterItem>, i: int)
    requires
        0 <= i < items.len(),
    ensures
        items_bytes(items.take(i + 1)) == items_bytes(items.take(i)) + filter_item_bytes(items[i]),
        items_bytes(items.take(items.len() as int)) == items_bytes(items),
{
    assert(items.take(i + 1).drop_last() =~= items.take(i));
    assert(items.take(items.len() as int) =~= items);
}

/// The bytes of each item in turn.
pub open spec fn custom_filters_bytes(items: Seq<CustomFilter>) -> Seq<u8>
    decreases items.len(),
{
    if items.len() == 0 {
        Seq::empty()
    } else {
        custom_filters_bytes(items.drop_last()) + custom_filter_bytes(items.last())
    }
}

proof fn lemma_custom_filters_step(items: Seq<CustomFilter>, i: int)
    requires
        0 <= i < items.len(),
    ensures
        custom_filters_bytes(items.take(i + 1)) == custom_filters_bytes(items.take(i)) + custom_filter_bytes(items[i]),
        custom_filters_bytes(items.take(items.len() as int)) == custom_filters_bytes(items),
{
    assert(items.take(i + 1).drop_last() =~= items.take(i));
    assert(items.take(items.len() as int) =~= items);
}

/// The bytes of each item in turn.
pub open spec fn sort_conditions_bytes(items: Seq<SortCondition>) -> Seq<u8>
    decreases items.len(),
{
    if items.len() == 0 {
        Seq::empty()
    } else {
        sort_conditions_bytes(items.drop_last()) + sort_condition_bytes(items.last())
    }
}

proof fn lemma_sort_conditions_step(items: Seq<SortCondition>, i: int)
    requires
        0 <= i < items.len(),
    ensures
        sort_conditions_bytes(items.take(i + 1)) == sort_conditions_bytes(items.take(i)) + sort_condition_bytes(items[i]),
        sort_conditions_bytes(items.take(items.len() as int)) == sort_conditions_bytes(items),
{
    assert(items.take(i + 1).drop_last() =~= items.take(i));
    assert(items.take(items.len() as int) =~= items);
}

/// The bytes of each item in turn.
pub open spec fn filter_columns_bytes(items: Seq<FilterColumn>) -> Seq<u8>
    decreases items.len(),
{
    if items.len() == 0 {
        Seq::empty()
    } else {
        filter_columns_bytes(items.drop_last()) + filter_column_bytes(items.last())
    }
}

proof fn lemma_filter_columns_step(items: Seq<FilterColumn>, i: int)
    requires
        0 <= i < items.len(),
    ensures
        filter_columns_bytes(items.take(i + 1)) == filter_columns_bytes(items.take(i)) + filter_column_bytes(items[i]),
        filter_columns_bytes(items.take(items.len() as int)) == filter_columns_bytes(items),
{
    assert(items.take(i + 1).drop_last() =~= items.take(i));
    assert(items.take(items.len() as int) =~= items);
}

/// The bytes of each item in turn.
pub open spec fn table_columns_bytes(items: Seq<TableColumn>) -> Seq<u8>
    decreases items.len(),
{
    if items.len() == 0 {
        Seq::empty()
    } else {
        table_columns_bytes(items.drop_last()) + table_column_bytes(items.last())
    }
}

proof fn lemma_table_columns_step(items: Seq<TableColumn>, i: int)
    requires
        0 <= i < items.len(),
    ensures
        table_columns_bytes(items.take(i + 1)) == table_columns_bytes(items.take(i)) + table_column_bytes(items[i]),
        table_columns_bytes(items.take(items.len() as int)) == table_columns_bytes(items),
{
    assert(items.take(i + 1).drop_last() =~= items.take(i));
    assert(items.take(items.len() as int) =~= items);
}

/// The bytes of each item in turn.
pub open spec fn tables_bytes(items: Seq<Table>) -> Seq<u8>
    decreases items.len(),
{
    if items.len() == 0 {
        Seq::empty()
    } else {
        tables_bytes(items.drop_last()) + table_bytes(items.last())
    }
}

proof fn lemma_tables_step(items: Seq<Table>, i: int)
    requires
        0 <= i < items.len(),
    ensures
        tables_bytes(items.take(i + 1)) == tables_bytes(items.take(i)) + table_bytes(items[i]),
        tables_bytes(items.take(items.len() as int)) == tables_bytes(items),
{
    assert(items.take(i + 1).drop_last() =~= items.take(i));
    assert(items.take(items.len() as int) =~= items);
}

/// The bytes of each item in turn.
pub open spec fn ranges_bytes(items: Seq<CellRange>) -> Seq<u8>
    decreases items.len(),
{
    if items.len() == 0 {
        Seq::empty()
    } else {
        ranges_bytes(items.drop_last()) + range_bytes(items.last())
    }
}

proof fn lemma_ranges_step(items: Seq<CellRange>, i: int)
    requires
        0 <= i < items.len(),
    ensures
        ranges_bytes(items.take(i + 1)) == ranges_bytes(items.take(i)) + range_bytes(items[i]),
        ranges_bytes(items.take(items.len() as int)) == ranges_bytes(items),
{
    assert(items.take(i + 1).drop_last() =~= items.take(i));
    assert(items.take(items.len() as int) =~= items);
}

fn feed_filter_item<F: Fn() -> bool>(hash: &mut SemanticHash, item: &FilterItem, cancelled: &F) -> (r: Result<(), ()>)
    requires
        call_requires(*cancelled, ()),
    ensures
        r is Ok ==> final(hash)@ == old(hash)@ + filter_item_bytes(*item),
        r is Err ==> call_ensures(*cancelled, (), true),
{
    let ghost whole = *item;
    match item {
        FilterItem::Value(v) => {
            let ghost start = hash@;
            hash.u8(0);
            match feed_optional_text(hash, v, cancelled) {
                Ok(()) => {},
                Err(()) => return Err(()),
            }
            proof { lemma_extend(start, seq![0u8], optional_text_bytes(*v)); }
            assert(seq![0u8] + optional_text_bytes(*v) == filter_item_bytes(whole));
        },
        FilterItem::DateGroup { year, month, day, hour, minute, second, grouping } => {
            let ghost start = hash@;
            hash.u8(1);
            hash.u32(*year as u32);
            proof { lemma_extend(start, seq![1u8], le_bytes(*year as nat, 4)); }
            hash.optional_u16(*month);
            proof { lemma_extend(start, seq![1u8] + le_bytes(*year as nat, 4), optional_u16_bytes(*month)); }
            hash.optional_u16(*day);
            proof { lemma_extend(start, seq![1u8] + le_bytes(*year as nat, 4) + optional_u16_bytes(*month), optional_u16_bytes(*day)); }
            hash.optional_u16(*hour);
            proof { lemma_extend(start, seq![1u8] + le_bytes(*year as nat, 4) + optional_u16_bytes(*month) + optional_u16_bytes(*day), optional_u16_bytes(*hour)); }
            hash.optional_u16(*minute);
            proof { lemma_extend(start, seq![1u8] + le_bytes(*year as nat, 4) + optional_u16_bytes(*month) + optional_u16_bytes(*day) + optional_u16_bytes(*hour), optional_u16_bytes(*minute)); }
            hash.optional_u16(*second);
            proof { lemma_extend(start, seq![1u8] + le_bytes(*year as nat, 4) + optional_u16_bytes(*month) + optional_u16_bytes(*day) + optional_u16_bytes(*hour) + optional_u16_bytes(*minute), optional_u16_bytes(*second)); }
            match feed_text(hash, grouping, cancelled) {
                Ok(()) => {},
                Err(()) => return Err(()),
            }
            proof { lemma_extend(start, seq![1u8] + le_bytes(*year as nat, 4) + optional_u16_bytes(*month) + optional_u16_bytes(*day) + optional_u16_bytes(*hour) + optional_u16_bytes(*minute) + optional_u16_bytes(*second), text_bytes(grouping@)); }
            assert(seq![1u8] + le_bytes(*year as nat, 4) + optional_u16_bytes(*month) + optional_u16_bytes(*day) + optional_u16_bytes(*hour) + optional_u16_bytes(*minute) + optional_u16_bytes(*second) + text_bytes(grouping@) == filter_item_bytes(whole));
        },
    }
    Ok(())
}

fn feed_custom_filter<F: Fn() -> bool>(hash: &mut SemanticHash, f: &CustomFilter, cancelled: &F) -> (r: Result<(), ()>)
    requires
        call_requires(*cancelled, ()),
    ensures
        r is Ok ==> final(hash)@ == old(hash)@ + custom_filter_bytes(*f),
        r is Err ==> call_ensures(*cancelled, (), true),
{
    let ghost start = hash@;
    match feed_optional_text(hash, &f.operator, cancelled) {
        Ok(()) => {},
        Err(()) => return Err(()),
    }
    match feed_optional_text(hash, &f.value, cancelled) {
        Ok(()) => {},
        Err(()) => return Err(()),
    }
    assert(hash@ =~= start + custom_filter_bytes(*f));
    Ok(())
}

fn feed_filter_items<F: Fn() -> bool>(hash: &mut SemanticHash, items: &Vec<FilterItem>, cancelled: &F) -> (r: Result<(), ()>)
    requires
        call_requires(*cancelled, ()),
    ensures
        r is Ok ==> final(hash)@ == old(hash)@ + count_bytes(items@.len()) + items_bytes(items@),
        r is Err ==> call_ensures(*cancelled, (), true),
{
    hash.usize(items.len());
    let ghost base = hash@;
    let mut i: usize = 0;
    while i < items.len()
        invariant
            i <= items@.len(),
            call_requires(*cancelled, ()),
            hash@ == base + items_bytes(items@.take(i as int)),
        decreases items@.len() - i,
    {
        if cancelled() {
            return Err(());
        }
        match feed_filter_item(hash, &items[i], cancelled) {
            Ok(()) => {},
            Err(()) => return Err(()),
        }
        proof {
            lemma_items_step(items@, i as int);
            lemma_extend(base, items_bytes(items@.take(i as int)), filter_item_bytes(items@[i as int]));
        }
        i = i + 1;
    }
    assert(items@.take(items@.len() as int) =~= items@);
    Ok(())
}

fn feed_custom_filters<F: Fn() -> bool>(hash: &mut SemanticHash, filters: &Vec<CustomFilter>, cancelled: &F) -> (r: Result<(), ()>)
    requires
        call_requires(*cancelled, ()),
    ensures
        r is Ok ==> final(hash)@ == old(hash)@ + count_bytes(filters@.len()) + custom_filters_bytes(filters@),
        r is Err ==> call_ensures(*cancelled, (), true),
{
    hash.usize(filters.len());
    let ghost base = hash@;
    let mut i: usize = 0;
    while i < filters.len()
        invariant
            i <= filters@.len(),
            call_requires(*cancelled, ()),
            hash@ == base + custom_filters_bytes(filters@.take(i as int)),
        decreases filters@.len() - i,
    {
        if cancelled() {
            return Err(());
        }
        match feed_custom_filter(hash, &filters[i], cancelled) {
            Ok(()) => {},
            Err(()) => return Err(()),
        }
        proof {
            lemma_custom_filters_step(filters@, i as int);
            lemma_extend(base, custom_filters_bytes(filters@.take(i as int)), custom_filter_bytes(filters@[i as int]));
        }
        i = i + 1;
    }
    assert(filters@.take(filters@.len() as int) =~= filters@);
    Ok(())
}

fn feed_criteria<F: Fn() -> bool>(hash: &mut SemanticHash, c: &FilterCriteria, cancelled: &F) -> (r: Result<(), ()>)
    requires
        call_requires(*cancelled, ()),
    ensures
        r is Ok ==> final(hash)@ == old(hash)@ + criteria_bytes(*c),
        r is Err ==> call_ensures(*cancelled, (), true),
{
    let ghost whole = *c;
    match c {
        FilterCriteria::Values { blank, calendar_type, items } => {
            let ghost start = hash@;
            hash.u8(0);
            hash.boolean(*blank);
            proof { lemma_extend(start, seq![0u8], bool_bytes(*blank)); }
            match feed_optional_text(hash, calendar_type, cancelled) {
                Ok(()) => {},
                Err(()) => return Err(()),
            }
            proof { lemma_extend(start, seq![0u8] + bool_bytes(*blank), optional_text_bytes(*calendar_type)); }
            match feed_filter_items(hash, items, cancelled) {
                Ok(()) => {},
                Err(()) => return Err(()),
            }
            proof { lemma_extend(start, seq![0u8] + bool_bytes(*blank) + optional_text_bytes(*calendar_type), count_bytes(items@.len())); }
            proof { lemma_extend(start, seq![0u8] + bool_bytes(*blank) + optional_text_bytes(*calendar_type) + count_bytes(items@.len()), items_bytes(items@)); }
            assert(seq![0u8] + bool_bytes(*blank) + optional_text_bytes(*calendar_type) + count_bytes(items@.len()) + items_bytes(items@) == criteria_bytes(whole));
        },
        FilterCriteria::Custom { and, filters } => {
            let ghost start = hash@;
            hash.u8(1);
            hash.boolean(*and);
            proof { lemma_extend(start, seq![1u8], bool_bytes(*and)); }
            match feed_custom_filters(hash, filters, cancelled) {
                Ok(()) => {},
                Err(()) => return Err(()),
            }
            proof { lemma_extend(start, seq![1u8] + bool_bytes(*and), count_bytes(filters@.len())); }
            proof { lemma_extend(start, seq![1u8] + bool_bytes(*and) + count_bytes(filters@.len()), custom_filters_bytes(filters@)); }
            assert(seq![1u8] + bool_bytes(*and) + count_bytes(filters@.len()) + custom_filters_bytes(filters@) == criteria_bytes(whole));
        },
        FilterCriteria::Dynamic { kind, value, iso_value, max_value, max_iso_value } => {
            let ghost start = hash@;
            hash.u8(2);
            match feed_text(hash, kind, cancelled) {
                Ok(()) => {},
                Err(()) => return Err(()),
            }
            proof { lemma_extend(start, seq![2u8], text_bytes(kind@)); }
            match feed_optional_text(hash, value, cancelled) {
                Ok(()) => {},
                Err(()) => return Err(()),
            }
            proof { lemma_extend(start, seq![2u8] + text_bytes(kind@), optional_text_bytes(*value)); }
            match feed_optional_text(hash, iso_value, cancelled) {
                Ok(()) => {},
                Err(()) => return Err(()),
            }
            proof { lemma_extend(start, seq![2u8] + text_bytes(kind@) + optional_text_bytes(*value), optional_text_bytes(*iso_value)); }
            match feed_optional_text(hash, max_value, cancelled) {
                Ok(()) => {},
                Err(()) => return Err(()),
            }
            proof { lemma_extend(start, seq![2u8] + text_bytes(kind@) + optional_text_bytes(*value) + optional_text_bytes(*iso_value), optional_text_bytes(*max_value)); }
            match feed_optional_text(hash, max_iso_value, cancelled) {
                Ok(()) => {},
                Err(()) => return Err(()),
            }
            proof { lemma_extend(start, seq![2u8] + text_bytes(kind@) + optional_text_bytes(*value) + optional_text_bytes(*iso_value) + optional_text_bytes(*max_value), optional_text_bytes(*max_iso_value)); }
            assert(seq![2u8] + text_bytes(kind@) + optional_text_bytes(*value) + optional_text_bytes(*iso_value) + optional_text_bytes(*max_value) + optional_text_bytes(*max_iso_value) == criteria_bytes(whole));
        },
        FilterCriteria::Color { differential_format_id, cell_color } => {
            let ghost start = hash@;
            hash.u8(3);
            hash.optional_u32(*differential_format_id);
            proof { lemma_extend(start, seq![3u8], optional_u32_bytes(*differential_format_id)); }
            hash.boolean(*cell_color);
            proof { lemma_extend(start, seq![3u8] + optional_u32_bytes(*differential_format_id), bool_bytes(*cell_color)); }
            assert(seq![3u8] + optional_u32_bytes(*differential_format_id) + bool_bytes(*cell_color) == criteria_bytes(whole));
        },
        FilterCriteria::Icon { icon_set, icon_id } => {
            let ghost start = hash@;
            hash.u8(4);
            match feed_text(hash, icon_set, cancelled) {
                Ok(()) => {},
                Err(()) => return Err(()),
            }
            proof { lemma_extend(start, seq![4u8], text_bytes(icon_set@)); }
            hash.optional_u32(*icon_id);
            proof { lemma_extend(start, seq![4u8] + text_bytes(icon_set@), optional_u32_bytes(*icon_id)); }
            assert(seq![4u8] + text_bytes(icon_set@) + optional_u32_bytes(*icon_id) == criteria_bytes(whole));
        },
        FilterCriteria::Top { top, percent, value, filter_value } => {
            let ghost start = hash@;
            hash.u8(5);
            hash.boolean(*top);
            proof { lemma_extend(start, seq![5u8], bool_bytes(*top)); }
            hash.boolean(*percent);
            proof { lemma_extend(start, seq![5u8] + bool_bytes(*top), bool_bytes(*percent)); }
            match feed_text(hash, value, cancelled) {
                Ok(()) => {},
                Err(()) => return Err(()),
            }
            proof { lemma_extend(start, seq![5u8] + bool_bytes(*top) + bool_bytes(*percent), text_bytes(value@)); }
            match feed_optional_text(hash, filter_value, cancelled) {
                Ok(()) => {},
                Err(()) => return Err(()),
            }
            proof { lemma_extend(start, seq![5u8] + bool_bytes(*top) + bool_bytes(*percent) + text_bytes(value@), optional_text_bytes(*filter_value)); }
            assert(seq![5u8] + bool_bytes(*top) + bool_bytes(*percent) + text_bytes(value@) + optional_text_bytes(*filter_value) == criteria_bytes(whole));
        },
    }
    Ok(())
}

fn feed_optional_criteria<F: Fn() -> bool>(hash: &mut SemanticHash, c: &Option<FilterCriteria>, cancelled: &F) -> (r: Result<(), ()>)
    requires
        call_requires(*cancelled, ()),
    ensures
        r is Ok ==> final(hash)@ == old(hash)@ + optional_criteria_bytes(*c),
        r is Err ==> call_ensures(*cancelled, (), true),
{
    let ghost start = hash@;
    match c {
        Some(x) => {
            hash.u8(1);
            match feed_criteria(hash, x, cancelled) {
                Ok(()) => {},
                Err(()) => return Err(()),
            }
            assert(hash@ =~= start + optional_criteria_bytes(*c));
        },
        None => {
            hash.u8(0);
            assert(hash@ =~= start + optional_criteria_bytes(*c));
        },
    }
    Ok(())
}

fn feed_sort_condition<F: Fn() -> bool>(hash: &mut SemanticHash, c: &SortCondition, cancelled: &F) -> (r: Result<(), ()>)
    requires
        call_requires(*cancelled, ()),
    ensures
        r is Ok ==> final(hash)@ == old(hash)@ + sort_condition_bytes(*c),
        r is Err ==> call_ensures(*cancelled, (), true),
{
    let ghost start = hash@;
    feed_range(hash, c.range);
    hash.boolean(c.descending);
    proof { lemma_extend(start, range_bytes(c.range), bool_bytes(c.descending)); }
    match feed_optional_text(hash, &c.sort_by, cancelled) {
        Ok(()) => {},
        Err(()) => return Err(()),
    }
    proof { lemma_extend(start, range_bytes(c.range) + bool_bytes(c.descending), optional_text_bytes(c.sort_by)); }
    match feed_optional_text(hash, &c.custom_list, cancelled) {
        Ok(()) => {},
        Err(()) => return Err(()),
    }
    proof { lemma_extend(start, range_bytes(c.range) + bool_bytes(c.descending) + optional_text_bytes(c.sort_by), optional_text_bytes(c.custom_list)); }
    hash.optional_u32(c.differential_format_id);
    proof { lemma_extend(start, range_bytes(c.range) + bool_bytes(c.descending) + optional_text_bytes(c.sort_by) + optional_text_bytes(c.custom_list), optional_u32_bytes(c.differential_format_id)); }
    match feed_optional_text(hash, &c.icon_set, cancelled) {
        Ok(()) => {},
        Err(()) => return Err(()),
    }
    proof { lemma_extend(start, range_bytes(c.range) + bool_bytes(c.descending) + optional_text_bytes(c.sort_by) + optional_text_bytes(c.custom_list) + optional_u32_bytes(c.differential_format_id), optional_text_bytes(c.icon_set)); }
    hash.optional_u32(c.icon_id);
    proof { lemma_extend(start, range_bytes(c.range) + bool_bytes(c.descending) + optional_text_bytes(c.sort_by) + optional_text_bytes(c.custom_list) + optional_u32_bytes(c.differential_format_id) + optional_text_bytes(c.icon_set), optional_u32_bytes(c.icon_id)); }
    assert(range_bytes(c.range) + bool_bytes(c.descending) + optional_text_bytes(c.sort_by) + optional_text_bytes(c.custom_list) + optional_u32_bytes(c.differential_format_id) + optional_text_bytes(c.icon_set) + optional_u32_bytes(c.icon_id) == sort_condition_bytes(*c));
    Ok(())
}

fn feed_sort_conditions<F: Fn() -> bool>(hash: &mut SemanticHash, conditions: &Vec<SortCondition>, cancelled: &F) -> (r: Result<(), ()>)
    requires
        call_requires(*cancelled, ()),
    ensures
        r is Ok ==> final(hash)@ == old(hash)@ + count_bytes(conditions@.len()) + sort_conditions_bytes(conditions@),
        r is Err ==> call_ensures(*cancelled, (), true),
{
    hash.usize(conditions.len());
    let ghost base = hash@;
    let mut i: usize = 0;
    while i < conditions.len()
        invariant
            i <= conditions@.len(),
            call_requires(*cancelled, ()),
            hash@ == base + sort_conditions_bytes(conditions@.take(i as int)),
        decreases conditions@.len() - i,
    {
        if cancelled() {
            return Err(());
        }
        match feed_sort_condition(hash, &conditions[i], cancelled) {
            Ok(()) => {},
            Err(()) => return Err(()),
        }
        proof {
            lemma_sort_conditions_step(conditions@, i as int);
            lemma_extend(base, sort_conditions_bytes(conditions@.take(i as int)), sort_condition_bytes(conditions@[i as int]));
        }
        i = i + 1;
    }
    assert(conditions@.take(conditions@.len() as int) =~= conditions@);
    Ok(())
}

fn feed_optional_sort_state<F: Fn() -> bool>(hash: &mut SemanticHash, s: &Option<SortState>, cancelled: &F) -> (r: Result<(), ()>)
    requires
        call_requires(*cancelled, ()),
    ensures
        r is Ok ==> final(hash)@ == old(hash)@ + optional_sort_state_bytes(*s),
        r is Err ==> call_ensures(*cancelled, (), true),
{
    let ghost start = hash@;
    match s {
        Some(x) => {
            hash.u8(1);
            feed_range(hash, x.range);
            hash.boolean(x.case_sensitive);
            hash.boolean(x.column_sort);
            match feed_optional_text(hash, &x.sort_method, cancelled) {
                Ok(()) => {},
                Err(()) => return Err(()),
            }
            let ghost s1 = hash@;
            match feed_sort_conditions(hash, &x.conditions, cancelled) {
                Ok(()) => {},
                Err(()) => return Err(()),
            }
            assert(s1 =~= start + (seq![1u8] + (range_bytes(x.range) + bool_bytes(x.case_sensitive) + bool_bytes(
                x.column_sort,
            ) + optional_text_bytes(x.sort_method))));
            assert(hash@ =~= start + optional_sort_state_bytes(*s));
        },
        None => {
            hash.u8(0);
            assert(hash@ =~= start + optional_sort_state_bytes(*s));
        },
    }
    Ok(())
}

fn feed_filter_column<F: Fn() -> bool>(hash: &mut SemanticHash, c: &FilterColumn, cancelled: &F) -> (r: Result<(), ()>)
    requires
        call_requires(*cancelled, ()),
    ensures
        r is Ok ==> final(hash)@ == old(hash)@ + filter_column_bytes(*c),
        r is Err ==> call_ensures(*cancelled, (), true),
{
    let ghost start = hash@;
    hash.u32(c.column_id);
    hash.boolean(c.hidden_button);
    hash.boolean(c.show_button);
    match feed_optional_criteria(hash, &c.criteria, cancelled) {
        Ok(()) => {},
        Err(()) => return Err(()),
    }
    assert(hash@ =~= start + filter_column_bytes(*c));
    Ok(())
}

fn feed_filter_columns<F: Fn() -> bool>(hash: &mut SemanticHash, columns: &Vec<FilterColumn>, cancelled: &F) -> (r: Result<(), ()>)
    requires
        call_requires(*cancelled, ()),
    ensures
        r is Ok ==> final(hash)@ == old(hash)@ + count_bytes(columns@.len()) + filter_columns_bytes(columns@),
        r is Err ==> call_ensures(*cancelled, (), true),
{
    hash.usize(columns.len());
    let ghost base = hash@;
    let mut i: usize = 0;
    while i < columns.len()
        invariant
            i <= columns@.len(),
            call_requires(*cancelled, ()),
            hash@ == base + filter_columns_bytes(columns@.take(i as int)),
        decreases columns@.len() - i,
    {
        if cancelled() {
            return Err(());
        }
        match feed_filter_column(hash, &columns[i], cancelled) {
            Ok(()) => {},
            Err(()) => return Err(()),
        }
        proof {
            lemma_filter_columns_step(columns@, i as int);
            lemma_extend(base, filter_columns_bytes(columns@.take(i as int)), filter_column_bytes(columns@[i as int]));
        }
        i = i + 1;
    }
    assert(columns@.take(columns@.len() as int) =~= columns@);
    Ok(())
}

fn feed_optional_auto_filter<F: Fn() -> bool>(hash: &mut SemanticHash, a: &Option<AutoFilter>, cancelled: &F) -> (r: Result<(), ()>)
    requires
        call_requires(*cancelled, ()),
    ensures
        r is Ok ==> final(hash)@ == old(hash)@ + optional_auto_filter_bytes(*a),
        r is Err ==> call_ensures(*cancelled, (), true),
{
    let ghost start = hash@;
    match a {
        Some(x) => {
            hash.u8(1);
            feed_range(hash, x.range);
            hash.boolean(x.has_declared_range);
            let ghost s1 = hash@;
            match feed_filter_columns(hash, &x.filter_columns, cancelled) {
                Ok(()) => {},
                Err(()) => return Err(()),
            }
            let ghost s2 = hash@;
            match feed_optional_sort_state(hash, &x.sort_state, cancelled) {
                Ok(()) => {},
                Err(()) => return Err(()),
            }
            assert(s1 =~= start + (seq![1u8] + (range_bytes(x.range) + bool_bytes(x.has_declared_range))));
            assert(hash@ =~= start + optional_auto_filter_bytes(*a));
        },
        None => {
            hash.u8(0);
            assert(hash@ =~= start + optional_auto_filter_bytes(*a));
        },
    }
    Ok(())
}

fn feed_optional_table_formula<F: Fn() -> bool>(hash: &mut SemanticHash, f: &Option<TableFormula>, cancelled: &F) -> (r: Result<(), ()>)
    requires
        call_requires(*cancelled, ()),
    ensures
        r is Ok ==> final(hash)@ == old(hash)@ + optional_table_formula_bytes(*f),
        r is Err ==> call_ensures(*cancelled, (), true),
{
    let ghost start = hash@;
    match f {
        Some(x) => {
            hash.u8(1);
            match feed_text(hash, &x.text, cancelled) {
                Ok(()) => {},
                Err(()) => return Err(()),
            }
            hash.boolean(x.is_array);
            assert(hash@ =~= start + optional_table_formula_bytes(*f));
        },
        None => {
            hash.u8(0);
            assert(hash@ =~= start + optional_table_formula_bytes(*f));
        },
    }
    Ok(())
}

fn feed_table_column<F: Fn() -> bool>(hash: &mut SemanticHash, c: &TableColumn, cancelled: &F) -> (r: Result<(), ()>)
    requires
        call_requires(*cancelled, ()),
    ensures
        r is Ok ==> final(hash)@ == old(hash)@ + table_column_bytes(*c),
        r is Err ==> call_ensures(*cancelled, (), true),
{
    let ghost start = hash@;
    hash.u32(c.id);
    match feed_text(hash, &c.name, cancelled) {
        Ok(()) => {},
        Err(()) => return Err(()),
    }
    match feed_optional_text(hash, &c.totals_row_function, cancelled) {
        Ok(()) => {},
        Err(()) => return Err(()),
    }
    let ghost s1 = hash@;
    assert(s1 =~= start + (u32_bytes(c.id) + text_bytes(c.name@) + optional_text_bytes(c.totals_row_function)));
    match feed_optional_text(hash, &c.totals_row_label, cancelled) {
        Ok(()) => {},
        Err(()) => return Err(()),
    }
    match feed_optional_table_formula(hash, &c.calculated_column_formula, cancelled) {
        Ok(()) => {},
        Err(()) => return Err(()),
    }
    match feed_optional_table_formula(hash, &c.totals_row_formula, cancelled) {
        Ok(()) => {},
        Err(()) => return Err(()),
    }
    assert(hash@ =~= s1 + (optional_text_bytes(c.totals_row_label) + optional_table_formula_bytes(
        c.calculated_column_formula,
    ) + optional_table_formula_bytes(c.totals_row_formula)));
    assert(hash@ =~= start + table_column_bytes(*c));
    Ok(())
}

fn feed_table_columns<F: Fn() -> bool>(hash: &mut SemanticHash, columns: &Vec<TableColumn>, cancelled: &F) -> (r: Result<(), ()>)
    requires
        call_requires(*cancelled, ()),
    ensures
        r is Ok ==> final(hash)@ == old(hash)@ + count_bytes(columns@.len()) + table_columns_bytes(columns@),
        r is Err ==> call_ensures(*cancelled, (), true),
{
    hash.usize(columns.len());
    let ghost base = hash@;
    let mut i: usize = 0;
    while i < columns.len()
        invariant
            i <= columns@.len(),
            call_requires(*cancelled, ()),
            hash@ == base + table_columns_bytes(columns@.take(i as int)),
        decreases columns@.len() - i,
    {
        if cancelled() {
            return Err(());
        }
        match feed_table_column(hash, &columns[i], cancelled) {
            Ok(()) => {},
            Err(()) => return Err(()),
        }
        proof {
            lemma_table_columns_step(columns@, i as int);
            lemma_extend(base, table_columns_bytes(columns@.take(i as int)), table_column_bytes(columns@[i as int]));
        }
        i = i + 1;
    }
    assert(columns@.take(columns@.len() as int) =~= columns@);
    Ok(())
}

fn feed_optional_style<F: Fn() -> bool>(hash: &mut SemanticHash, s: &Option<TableStyle>, cancelled: &F) -> (r: Result<(), ()>)
    requires
        call_requires(*cancelled, ()),
    ensures
        r is Ok ==> final(hash)@ == old(hash)@ + optional_style_bytes(*s),
        r is Err ==> call_ensures(*cancelled, (), true),
{
    let ghost start = hash@;
    match s {
        Some(x) => {
            hash.u8(1);
            match feed_optional_text(hash, &x.name, cancelled) {
                Ok(()) => {},
                Err(()) => return Err(()),
            }
            hash.boolean(x.show_first_column);
            hash.boolean(x.show_last_column);
            hash.boolean(x.show_row_stripes);
            hash.boolean(x.show_column_stripes);
            assert(hash@ =~= start + optional_style_bytes(*s));
        },
        None => {
            hash.u8(0);
            assert(hash@ =~= start + optional_style_bytes(*s));
        },
    }
    Ok(())
}

fn feed_table<F: Fn() -> bool>(hash: &mut SemanticHash, t: &Table, cancelled: &F) -> (r: Result<(), ()>)
    requires
        call_requires(*cancelled, ()),
    ensures
        r is Ok ==> final(hash)@ == old(hash)@ + table_bytes(*t),
        r is Err ==> call_ensures(*cancelled, (), true),
{
    let ghost start = hash@;
    hash.u32(t.id);
    match feed_text(hash, &t.name, cancelled) {
        Ok(()) => {},
        Err(()) => return Err(()),
    }
    proof { lemma_extend(start, u32_bytes(t.id), text_bytes(t.name@)); }
    match feed_text(hash, &t.display_name, cancelled) {
        Ok(()) => {},
        Err(()) => return Err(()),
    }
    proof { lemma_extend(start, u32_bytes(t.id) + text_bytes(t.name@), text_bytes(t.display_name@)); }
    feed_range(hash, t.range);
    proof { lemma_extend(start, u32_bytes(t.id) + text_bytes(t.name@) + text_bytes(t.display_name@), range_bytes(t.range)); }
    match feed_text(hash, &t.table_type, cancelled) {
        Ok(()) => {},
        Err(()) => return Err(()),
    }
    proof { lemma_extend(start, u32_bytes(t.id) + text_bytes(t.name@) + text_bytes(t.display_name@) + range_bytes(t.range), text_bytes(t.table_type@)); }
    hash.u32(t.header_row_count);
    proof { lemma_extend(start, u32_bytes(t.id) + text_bytes(t.name@) + text_bytes(t.display_name@) + range_bytes(t.range) + text_bytes(t.table_type@), u32_bytes(t.header_row_count)); }
    hash.u32(t.totals_row_count);
    proof { lemma_extend(start, u32_bytes(t.id) + text_bytes(t.name@) + text_bytes(t.display_name@) + range_bytes(t.range) + text_bytes(t.table_type@) + u32_bytes(t.header_row_count), u32_bytes(t.totals_row_count)); }
    hash.boolean(t.totals_row_shown);
    proof { lemma_extend(start, u32_bytes(t.id) + text_bytes(t.name@) + text_bytes(t.display_name@) + range_bytes(t.range) + text_bytes(t.table_type@) + u32_bytes(t.header_row_count) + u32_bytes(t.totals_row_count), bool_bytes(t.totals_row_shown)); }
    assert(u32_bytes(t.id) + text_bytes(t.name@) + text_bytes(t.display_name@) + range_bytes(t.range) + text_bytes(t.table_type@) + u32_bytes(t.header_row_count) + u32_bytes(t.totals_row_count) + bool_bytes(t.totals_row_shown) == table_head_bytes(*t));
    match feed_table_columns(hash, &t.columns, cancelled) {
        Ok(()) => {},
        Err(()) => return Err(()),
    }
    proof { lemma_extend(start, table_head_bytes(*t), count_bytes(t.columns@.len())); }
    proof { lemma_extend(start, table_head_bytes(*t) + count_bytes(t.columns@.len()), table_columns_bytes(t.columns@)); }
    match feed_optional_auto_filter(hash, &t.auto_filter, cancelled) {
        Ok(()) => {},
        Err(()) => return Err(()),
    }
    proof { lemma_extend(start, table_head_bytes(*t) + count_bytes(t.columns@.len()) + table_columns_bytes(t.columns@), optional_auto_filter_bytes(t.auto_filter)); }
    match feed_optional_sort_state(hash, &t.sort_state, cancelled) {
        Ok(()) => {},
        Err(()) => return Err(()),
    }
    proof { lemma_extend(start, table_head_bytes(*t) + count_bytes(t.columns@.len()) + table_columns_bytes(t.columns@) + optional_auto_filter_bytes(t.auto_filter), optional_sort_state_bytes(t.sort_state)); }
    match feed_optional_style(hash, &t.style, cancelled) {
        Ok(()) => {},
        Err(()) => return Err(()),
    }
    proof { lemma_extend(start, table_head_bytes(*t) + count_bytes(t.columns@.len()) + table_columns_bytes(t.columns@) + optional_auto_filter_bytes(t.auto_filter) + optional_sort_state_bytes(t.sort_state), optional_style_bytes(t.style)); }
    let opaque = match &t.opaque_source_xml { Some(b) => Some(b.as_slice()), None => None };
    match hash.optional_bytes_cancellable(opaque, cancelled) {
        Ok(()) => {},
        Err(()) => return Err(()),
    }
    proof { lemma_extend(start, table_head_bytes(*t) + count_bytes(t.columns@.len()) + table_columns_bytes(t.columns@) + optional_auto_filter_bytes(t.auto_filter) + optional_sort_state_bytes(t.sort_state) + optional_style_bytes(t.style), opaque_bytes(t.opaque_source_xml)); }
    assert(table_head_bytes(*t) + count_bytes(t.columns@.len()) + table_columns_bytes(t.columns@) + optional_auto_filter_bytes(t.auto_filter) + optional_sort_state_bytes(t.sort_state) + optional_style_bytes(t.style) + opaque_bytes(t.opaque_source_xml) == table_bytes(*t));
    Ok(())
}

/// A run of a sheet's cells that is digested on its own.
#[derive(Debug, Clone, PartialEq)]
pub struct CellChunk {
    pub cells: Vec<WorkbookCell>,
}

/// A chunk's digest, framed: the digest of its cells, with the cell count as its length.
pub open spec fn chunk_digest_bytes(c: CellChunk) -> Seq<u8> {
    framed(sha256_spec(chunk_bytes(c.cells@, c.cells@.len() as usize)))
}

/// How a sheet is shown.
#[derive(Debug, Clone, Copy, PartialEq, Eq, Structural)]
pub enum SheetVisibility {
    Visible,
    Hidden,
    VeryHidden,
}

/// The code byte of a sheet visibility.
pub open spec fn visibility_code(v: SheetVisibility) -> u8 {
    match v {
        SheetVisibility::Visible => 0,
        SheetVisibility::Hidden => 1,
        SheetVisibility::VeryHidden => 2,
    }
}

/// One worksheet: identity, name, visibility, its populated-cell count with the cells in
/// chunks, merged ranges and tables.
#[derive(Debug, Clone, PartialEq)]
pub struct Sheet {
    pub id: u32,
    pub name: String,
    pub visibility: SheetVisibility,
    pub cell_count: usize,
    pub cell_chunks: Vec<CellChunk>,
    pub merged_ranges: Vec<CellRange>,
    pub tables: Vec<Table>,
}

/// The bytes of a sheet: its identity fields, its chunk digests, merged ranges and tables.
pub open spec fn sheet_bytes(s: Sheet) -> Seq<u8> {
    u32_bytes(s.id) + text_bytes(s.name@) + seq![visibility_code(s.visibility)] + count_bytes(s.cell_count as nat)
        + count_bytes(s.cell_chunks@.len()) + chunk_digests_bytes(s.cell_chunks@) + count_bytes(
        s.merged_ranges@.len(),
    ) + ranges_bytes(s.merged_ranges@) + count_bytes(s.tables@.len()) + tables_bytes(s.tables@)
}

/// A defined name: its name, the sheet it is scoped to (none for the workbook), formula and
/// visibility.
#[derive(Debug, Clone, PartialEq)]
pub struct DefinedName {
    pub name: String,
    pub sheet_scope: Option<u32>,
    pub formula: String,
    pub hidden: bool,
}

/// The bytes of a defined name.
pub open spec fn defined_name_bytes(n: DefinedName) -> Seq<u8> {
    text_bytes(n.name@) + optional_u32_bytes(n.sheet_scope) + text_bytes(n.formula@) + bool_bytes(n.hidden)
}

/// The date system of serial dates.
#[derive(Debug, Clone, Copy, PartialEq, Eq, Structural)]
pub enum DateSystem {
    Excel1900,
    Excel1904,
}

/// The calculation mode a workbook declares.
#[derive(Debug, Clone, Copy, PartialEq, Eq, Structural)]
pub enum CalculationMode {
    Automatic,
    AutomaticExceptDataTables,
    Manual,
}

/// The calculation hints a workbook carries.
#[derive(Debug, Clone, Copy, PartialEq, Eq, Structural)]
pub struct CalculationHints {
    pub mode: Option<CalculationMode>,
    pub calculation_id: Option<u32>,
    pub full_calculation_on_load: Option<bool>,
    pub force_full_calculation: Option<bool>,
    pub iterative_calculation: Option<bool>,
}

/// The code byte of an optional calculation mode.
pub open spec fn mode_code(m: Option<CalculationMode>) -> u8 {
    match m {
        None => 0,
        Some(CalculationMode::Automatic) => 1,
        Some(CalculationMode::AutomaticExceptDataTables) => 2,
        Some(CalculationMode::Manual) => 3,
    }
}

/// The bytes of calculation hints.
pub open spec fn hints_bytes(h: CalculationHints) -> Seq<u8> {
    seq![mode_code(h.mode)] + optional_u32_bytes(h.calculation_id) + optional_bool_bytes(h.full_calculation_on_load)
        + optional_bool_bytes(h.force_full_calculation) + optional_bool_bytes(h.iterative_calculation)
}

/// The part of a workbook its semantic fingerprint covers.
#[derive(Debug, Clone, PartialEq)]
pub struct WorkbookModel {
    pub date_system: DateSystem,
    pub calculation_hints: CalculationHints,
    pub sheets: Vec<Sheet>,
    pub defined_names: Vec<DefinedName>,
}

/// The bytes a workbook fingerprint digests: schema byte 4, the date system, calculation hints,
/// every sheet and every defined name.
pub open spec fn workbook_fingerprint_bytes(w: WorkbookModel) -> Seq<u8> {
    seq![4u8] + seq![if w.date_system == DateSystem::Excel1900 { 0u8 } else { 1u8 }] + hints_bytes(
        w.calculation_hints,
    ) + count_bytes(w.sheets@.len()) + sheets_bytes(w.sheets@) + count_bytes(w.defined_names@.len())
        + defined_names_bytes(w.defined_names@)
}

/// The bytes of each item in turn.
pub open spec fn chunk_digests_bytes(items: Seq<CellChunk>) -> Seq<u8>
    decreases items.len(),
{
    if items.len() == 0 {
        Seq::empty()
    } else {
        chunk_digests_bytes(items.drop_last()) + chunk_digest_bytes(items.last())
    }
}

proof fn lemma_chunk_digests_step(items: Seq<CellChunk>, i: int)
    requires
        0 <= i < items.len(),
    ensures
        chunk_digests_bytes(items.take(i + 1)) == chunk_digests_bytes(items.take(i)) + chunk_digest_bytes(items[i]),
        chunk_digests_bytes(items.take(items.len() as int)) == chunk_digests_bytes(items),
{
    assert(items.take(i + 1).drop_last() =~= items.take(i));
    assert(items.take(items.len() as int) =~= items);
}

/// The bytes of each item in turn.
pub open spec fn sheets_bytes(items: Seq<Sheet>) -> Seq<u8>
    decreases items.len(),
{
    if items.len() == 0 {
        Seq::empty()
    } else {
        sheets_bytes(items.drop_last()) + sheet_bytes(items.last())
    }
}

proof fn lemma_sheets_step(items: Seq<Sheet>, i: int)
    requires
        0 <= i < items.len(),
    ensures
        sheets_bytes(items.take(i + 1)) == sheets_bytes(items.take(i)) + sheet_bytes(items[i]),
        sheets_bytes(items.take(items.len() as int)) == sheets_bytes(items),
{
    assert(items.take(i + 1).drop_last() =~= items.take(i));
    assert(items.take(items.len() as int) =~= items);
}

/// The bytes of each item in turn.
pub open spec fn defined_names_bytes(items: Seq<DefinedName>) -> Seq<u8>
    decreases items.len(),
{
    if items.len() == 0 {
        Seq::empty()
    } else {
        defined_names_bytes(items.drop_last()) + defined_name_bytes(items.last())
    }
}

proof fn lemma_defined_names_step(items: Seq<DefinedName>, i: int)
    requires
        0 <= i < items.len(),
    ensures
        defined_names_bytes(items.take(i + 1)) == defined_names_bytes(items.take(i)) + defined_name_bytes(items[i]),
        defined_names_bytes(items.take(items.len() as int)) == defined_names_bytes(items),
{
    assert(items.take(i + 1).drop_last() =~= items.take(i));
    assert(items.take(items.len() as int) =~= items);
}

fn feed_chunk_digests<F: Fn() -> bool>(hash: &mut SemanticHash, chunks: &Vec<CellChunk>, cancelled: &F) -> (r: Result<(), ()>)
    requires
        call_requires(*cancelled, ()),
    ensures
        r is Ok ==> final(hash)@ == old(hash)@ + count_bytes(chunks@.len()) + chunk_digests_bytes(chunks@),
        r is Err ==> call_ensures(*cancelled, (), true),
{
    hash.usize(chunks.len());
    let ghost base = hash@;
    let mut i: usize = 0;
    while i < chunks.len()
        invariant
            i <= chunks@.len(),
            call_requires(*cancelled, ()),
            hash@ == base + chunk_digests_bytes(chunks@.take(i as int)),
        decreases chunks@.len() - i,
    {
        if cancelled() {
            return Err(());
        }
        let cells = &chunks[i].cells;
        let digest = match cell_chunk_fingerprint_cancellable(cells.as_slice(), cells.len(), cancelled) {
            Ok(d) => d,
            Err(()) => return Err(()),
        };
        hash.bytes(digest.as_slice());
        proof {
            lemma_chunk_digests_step(chunks@, i as int);
            lemma_extend(base, chunk_digests_bytes(chunks@.take(i as int)), chunk_digest_bytes(chunks@[i as int]));
        }
        i = i + 1;
    }
    assert(chunks@.take(chunks@.len() as int) =~= chunks@);
    Ok(())
}

fn feed_merged_ranges<F: Fn() -> bool>(hash: &mut SemanticHash, ranges: &Vec<CellRange>, cancelled: &F) -> (r: Result<(), ()>)
    requires
        call_requires(*cancelled, ()),
    ensures
        r is Ok ==> final(hash)@ == old(hash)@ + count_bytes(ranges@.len()) + ranges_bytes(ranges@),
        r is Err ==> call_ensures(*cancelled, (), true),
{
    hash.usize(ranges.len());
    let ghost base = hash@;
    let mut i: usize = 0;
    while i < ranges.len()
        invariant
            i <= ranges@.len(),
            call_requires(*cancelled, ()),
            hash@ == base + ranges_bytes(ranges@.take(i as int)),
        decreases ranges@.len() - i,
    {
        if cancelled() {
            return Err(());
        }
        feed_range(hash, ranges[i]);
        proof {
            lemma_ranges_step(ranges@, i as int);
            lemma_extend(base, ranges_bytes(ranges@.take(i as int)), range_bytes(ranges@[i as int]));
        }
        i = i + 1;
    }
    assert(ranges@.take(ranges@.len() as int) =~= ranges@);
    Ok(())
}

fn feed_tables<F: Fn() -> bool>(hash: &mut SemanticHash, tables: &Vec<Table>, cancelled: &F) -> (r: Result<(), ()>)
    requires
        call_requires(*cancelled, ()),
    ensures
        r is Ok ==> final(hash)@ == old(hash)@ + count_bytes(tables@.len()) + tables_bytes(tables@),
        r is Err ==> call_ensures(*cancelled, (), true),
{
    hash.usize(tables.len());
    let ghost base = hash@;
    let mut i: usize = 0;
    while i < tables.len()
        invariant
            i <= tables@.len(),
            call_requires(*cancelled, ()),
            hash@ == base + tables_bytes(tables@.take(i as int)),
        decreases tables@.len() - i,
    {
        if cancelled() {
            return Err(());
        }
        match feed_table(hash, &tables[i], cancelled) {
            Ok(()) => {},
            Err(()) => return Err(()),
        }
        proof {
            lemma_tables_step(tables@, i as int);
            lemma_extend(base, tables_bytes(tables@.take(i as int)), table_bytes(tables@[i as int]));
        }
        i = i + 1;
    }
    assert(tables@.take(tables@.len() as int) =~= tables@);
    Ok(())
}

fn feed_sheet<F: Fn() -> bool>(hash: &mut SemanticHash, sheet: &Sheet, cancelled: &F) -> (r: Result<(), ()>)
    requires
        call_requires(*cancelled, ()),
    ensures
        r is Ok ==> final(hash)@ == old(hash)@ + sheet_bytes(*sheet),
        r is Err ==> call_ensures(*cancelled, (), true),
{
    let ghost start = hash@;
    hash.u32(sheet.id);
    match feed_text(hash, &sheet.name, cancelled) {
        Ok(()) => {},
        Err(()) => return Err(()),
    }
    proof { lemma_extend(start, u32_bytes(sheet.id), text_bytes(sheet.name@)); }
    let code: u8 = match sheet.visibility { SheetVisibility::Visible => 0, SheetVisibility::Hidden => 1, SheetVisibility::VeryHidden => 2 };
    hash.u8(code);
    proof { lemma_extend(start, u32_bytes(sheet.id) + text_bytes(sheet.name@), seq![visibility_code(sheet.visibility)]); }
    hash.usize(sheet.cell_count);
    proof { lemma_extend(start, u32_bytes(sheet.id) + text_bytes(sheet.name@) + seq![visibility_code(sheet.visibility)], count_bytes(sheet.cell_count as nat)); }
    match feed_chunk_digests(hash, &sheet.cell_chunks, cancelled) {
        Ok(()) => {},
        Err(()) => return Err(()),
    }
    proof { lemma_extend(start, u32_bytes(sheet.id) + text_bytes(sheet.name@) + seq![visibility_code(sheet.visibility)] + count_bytes(sheet.cell_count as nat), count_bytes(sheet.cell_chunks@.len())); }
    proof { lemma_extend(start, u32_bytes(sheet.id) + text_bytes(sheet.name@) + seq![visibility_code(sheet.visibility)] + count_bytes(sheet.cell_count as nat) + count_bytes(sheet.cell_chunks@.len()), chunk_digests_bytes(sheet.cell_chunks@)); }
    match feed_merged_ranges(hash, &sheet.merged_ranges, cancelled) {
        Ok(()) => {},
        Err(()) => return Err(()),
    }
    proof { lemma_extend(start, u32_bytes(sheet.id) + text_bytes(sheet.name@) + seq![visibility_code(sheet.visibility)] + count_bytes(sheet.cell_count as nat) + count_bytes(sheet.cell_chunks@.len()) + chunk_digests_bytes(sheet.cell_chunks@), count_bytes(sheet.merged_ranges@.len())); }
    proof { lemma_extend(start, u32_bytes(sheet.id) + text_bytes(sheet.name@) + seq![visibility_code(sheet.visibility)] + count_bytes(sheet.cell_count as nat) + count_bytes(sheet.cell_chunks@.len()) + chunk_digests_bytes(sheet.cell_chunks@) + count_bytes(sheet.merged_ranges@.len()), ranges_bytes(sheet.merged_ranges@)); }
    match feed_tables(hash, &sheet.tables, cancelled) {
        Ok(()) => {},
        Err(()) => return Err(()),
    }
    proof { lemma_extend(start, u32_bytes(sheet.id) + text_bytes(sheet.name@) + seq![visibility_code(sheet.visibility)] + count_bytes(sheet.cell_count as nat) + count_bytes(sheet.cell_chunks@.len()) + chunk_digests_bytes(sheet.cell_chunks@) + count_bytes(sheet.merged_ranges@.len()) + ranges_bytes(sheet.merged_ranges@), count_bytes(sheet.tables@.len())); }
    proof { lemma_extend(start, u32_bytes(sheet.id) + text_bytes(sheet.name@) + seq![visibility_code(sheet.visibility)] + count_bytes(sheet.cell_count as nat) + count_bytes(sheet.cell_chunks@.len()) + chunk_digests_bytes(sheet.cell_chunks@) + count_bytes(sheet.merged_ranges@.len()) + ranges_bytes(sheet.merged_ranges@) + count_bytes(sheet.tables@.len()), tables_bytes(sheet.tables@)); }
    assert(u32_bytes(sheet.id) + text_bytes(sheet.name@) + seq![visibility_code(sheet.visibility)] + count_bytes(sheet.cell_count as nat) + count_bytes(sheet.cell_chunks@.len()) + chunk_digests_bytes(sheet.cell_chunks@) + count_bytes(sheet.merged_ranges@.len()) + ranges_bytes(sheet.merged_ranges@) + count_bytes(sheet.tables@.len()) + tables_bytes(sheet.tables@) == sheet_bytes(*sheet));
    Ok(())
}

fn feed_defined_name<F: Fn() -> bool>(hash: &mut SemanticHash, n: &DefinedName, cancelled: &F) -> (r: Result<(), ()>)
    requires
        call_requires(*cancelled, ()),
    ensures
        r is Ok ==> final(hash)@ == old(hash)@ + defined_name_bytes(*n),
        r is Err ==> call_ensures(*cancelled, (), true),
{
    let ghost start = hash@;
    match feed_text(hash, &n.name, cancelled) {
        Ok(()) => {},
        Err(()) => return Err(()),
    }
    hash.optional_u32(n.sheet_scope);
    proof { lemma_extend(start, text_bytes(n.name@), optional_u32_bytes(n.sheet_scope)); }
    match feed_text(hash, &n.formula, cancelled) {
        Ok(()) => {},
        Err(()) => return Err(()),
    }
    proof { lemma_extend(start, text_bytes(n.name@) + optional_u32_bytes(n.sheet_scope), text_bytes(n.formula@)); }
    hash.boolean(n.hidden);
    proof { lemma_extend(start, text_bytes(n.name@) + optional_u32_bytes(n.sheet_scope) + text_bytes(n.formula@), bool_bytes(n.hidden)); }
    assert(text_bytes(n.name@) + optional_u32_bytes(n.sheet_scope) + text_bytes(n.formula@) + bool_bytes(n.hidden) == defined_name_bytes(*n));
    Ok(())
}

fn feed_hints(hash: &mut SemanticHash, h: CalculationHints)
    ensures
        final(hash)@ == old(hash)@ + hints_bytes(h),
{
    let ghost start = hash@;
    let code: u8 = match h.mode { None => 0, Some(CalculationMode::Automatic) => 1, Some(CalculationMode::AutomaticExceptDataTables) => 2, Some(CalculationMode::Manual) => 3 };
    hash.u8(code);
    hash.optional_u32(h.calculation_id);
    proof { lemma_extend(start, seq![mode_code(h.mode)], optional_u32_bytes(h.calculation_id)); }
    hash.optional_bool(h.full_calculation_on_load);
    proof { lemma_extend(start, seq![mode_code(h.mode)] + optional_u32_bytes(h.calculation_id), optional_bool_bytes(h.full_calculation_on_load)); }
    hash.optional_bool(h.force_full_calculation);
    proof { lemma_extend(start, seq![mode_code(h.mode)] + optional_u32_bytes(h.calculation_id) + optional_bool_bytes(h.full_calculation_on_load), optional_bool_bytes(h.force_full_calculation)); }
    hash.optional_bool(h.iterative_calculation);
    proof { lemma_extend(start, seq![mode_code(h.mode)] + optional_u32_bytes(h.calculation_id) + optional_bool_bytes(h.full_calculation_on_load) + optional_bool_bytes(h.force_full_calculation), optional_bool_bytes(h.iterative_calculation)); }
    assert(seq![mode_code(h.mode)] + optional_u32_bytes(h.calculation_id) + optional_bool_bytes(h.full_calculation_on_load) + optional_bool_bytes(h.force_full_calculation) + optional_bool_bytes(h.iterative_calculation) == hints_bytes(h));
}

fn feed_sheets<F: Fn() -> bool>(hash: &mut SemanticHash, sheets: &Vec<Sheet>, cancelled: &F) -> (r: Result<(), ()>)
    requires
        call_requires(*cancelled, ()),
    ensures
        r is Ok ==> final(hash)@ == old(hash)@ + count_bytes(sheets@.len()) + sheets_bytes(sheets@),
        r is Err ==> call_ensures(*cancelled, (), true),
{
    hash.usize(sheets.len());
    let ghost base = hash@;
    let mut i: usize = 0;
    while i < sheets.len()
        invariant
            i <= sheets@.len(),
            call_requires(*cancelled, ()),
            hash@ == base + sheets_bytes(sheets@.take(i as int)),
        decreases sheets@.len() - i,
    {
        if cancelled() {
            return Err(());
        }
        match feed_sheet(hash, &sheets[i], cancelled) {
            Ok(()) => {},
            Err(()) => return Err(()),
        }
        proof {
            lemma_sheets_step(sheets@, i as int);
            lemma_extend(base, sheets_bytes(sheets@.take(i as int)), sheet_bytes(sheets@[i as int]));
        }
        i = i + 1;
    }
    assert(sheets@.take(sheets@.len() as int) =~= sheets@);
    Ok(())
}

fn feed_defined_names<F: Fn() -> bool>(hash: &mut SemanticHash, names: &Vec<DefinedName>, cancelled: &F) -> (r: Result<(), ()>)
    requires
        call_requires(*cancelled, ()),
    ensures
        r is Ok ==> final(hash)@ == old(hash)@ + count_bytes(names@.len()) + defined_names_bytes(names@),
        r is Err ==> call_ensures(*cancelled, (), true),
{
    hash.usize(names.len());
    let ghost base = hash@;
    let mut i: usize = 0;
    while i < names.len()
        invariant
            i <= names@.len(),
            call_requires(*cancelled, ()),
            hash@ == base + defined_names_bytes(names@.take(i as int)),
        decreases names@.len() - i,
    {
        if cancelled() {
            return Err(());
        }
        match feed_defined_name(hash, &names[i], cancelled) {
            Ok(()) => {},
            Err(()) => return Err(()),
        }
        proof {
            lemma_defined_names_step(names@, i as int);
            lemma_extend(base, defined_names_bytes(names@.take(i as int)), defined_name_bytes(names@[i as int]));
        }
        i = i + 1;
    }
    assert(names@.take(names@.len() as int) =~= names@);
    Ok(())
}

fn feed_workbook<F: Fn() -> bool>(hash: &mut SemanticHash, workbook: &WorkbookModel, cancelled: &F) -> (r: Result<(), ()>)
    requires
        call_requires(*cancelled, ()),
    ensures
        r is Ok ==> final(hash)@ == old(hash)@ + workbook_fingerprint_bytes(*workbook),
        r is Err ==> call_ensures(*cancelled, (), true),
{
    let ghost start = hash@;
    hash.u8(4);
    let ds: u8 = match workbook.date_system { DateSystem::Excel1900 => 0, DateSystem::Excel1904 => 1 };
    hash.u8(ds);
    let ghost header = seq![4u8] + seq![if workbook.date_system == DateSystem::Excel1900 { 0u8 } else { 1u8 }];
    proof { lemma_extend(start, seq![4u8], seq![header[1]]); assert(seq![4u8] + seq![header[1]] =~= header); }
    feed_hints(hash, workbook.calculation_hints);
    let ghost with_hints = header + hints_bytes(workbook.calculation_hints);
    proof { lemma_extend(start, header, hints_bytes(workbook.calculation_hints)); }
    match feed_sheets(hash, &workbook.sheets, cancelled) {
        Ok(()) => {},
        Err(()) => return Err(()),
    }
    let ghost counted_sheets = with_hints + count_bytes(workbook.sheets@.len());
    let ghost with_sheets = counted_sheets + sheets_bytes(workbook.sheets@);
    proof {
        lemma_extend(start, with_hints, count_bytes(workbook.sheets@.len()));
        lemma_extend(start, counted_sheets, sheets_bytes(workbook.sheets@));
    }
    match feed_defined_names(hash, &workbook.defined_names, cancelled) {
        Ok(()) => {},
        Err(()) => return Err(()),
    }
    let ghost counted_names = with_sheets + count_bytes(workbook.defined_names@.len());
    proof {
        lemma_extend(start, with_sheets, count_bytes(workbook.defined_names@.len()));
        lemma_extend(start, counted_names, defined_names_bytes(workbook.defined_names@));
    }
    assert(counted_names + defined_names_bytes(workbook.defined_names@) == workbook_fingerprint_bytes(*workbook));
    Ok(())
}


/// The semantic fingerprint of a workbook: the SHA-256 digest of `workbook_fingerprint_bytes`, in
/// which each sheet's cells enter only through the digests of their chunks. `cancelled` is polled
/// before each sheet, chunk, cell, merged range, table, list item and defined name, and while long
/// texts are fed.
pub fn workbook_fingerprint_cancellable<F: Fn() -> bool>(workbook: &WorkbookModel, cancelled: &F) -> (r: Result<[u8; 32], ()>)
    requires
        call_requires(*cancelled, ()),
    ensures
        r matches Ok(d) ==> d@ == sha256_spec(workbook_fingerprint_bytes(*workbook)),
        r is Err ==> call_ensures(*cancelled, (), true),
{
    let mut hash = SemanticHash::new();
    match feed_workbook(&mut hash, workbook, cancelled) {
        Ok(()) => {},
        Err(()) => return Err(()),
    }
    assert(hash@ =~= workbook_fingerprint_bytes(*workbook));
    Ok(hash.finish())
}

/// The semantic fingerprint of a workbook, without cancellation.
pub fn workbook_fingerprint(workbook: &WorkbookModel) -> (r: [u8; 32])
    ensures
        r@ == sha256_spec(workbook_fingerprint_bytes(*workbook)),
{
    let never = || -> (c: bool)
        ensures
            !c,
    { false };
    match workbook_fingerprint_cancellable(workbook, &never) {
        Ok(d) => d,
        Err(()) => {
            proof {
                assert(false);
            }
            [0u8; 32]
        },
    }
}
} // verus!
