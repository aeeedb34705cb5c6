use std::cell::Cell;

use cellrune::calculation::FiniteNumber;
use cellrune::cell::{CellAddress, CellRange};
use cellrune::workbook::{
    cell_chunk_fingerprint_cancellable, workbook_fingerprint, workbook_fingerprint_cancellable, AutoFilter, CalculationHints, CellChunk, CellContent,
    DateSystem, FilterColumn, FilterCriteria, FilterItem, LiteralValue, NumberFormat, NumberFormatKind, Sheet,
    SheetVisibility, SortCondition, SortState, Table, TableColumn, TableFormula, TableStyle, WorkbookCell,
    WorkbookModel,
};

fn address(row: u32, column: u32) -> CellAddress {
    CellAddress::from_indices(row, column).expect("address")
}

fn range(start: (u32, u32), end: (u32, u32)) -> CellRange {
    CellRange::new(address(start.0, start.1), address(end.0, end.1))
}

fn hints() -> CalculationHints {
    CalculationHints {
        mode: None,
        calculation_id: None,
        full_calculation_on_load: None,
        force_full_calculation: None,
        iterative_calculation: None,
    }
}

fn workbook(cells: Vec<WorkbookCell>, merged_ranges: Vec<CellRange>, tables: Vec<Table>) -> WorkbookModel {
    let cell_count = cells.len();
    let cell_chunks = if cells.is_empty() { Vec::new() } else { vec![CellChunk { cells }] };
    WorkbookModel {
        date_system: DateSystem::Excel1900,
        calculation_hints: hints(),
        sheets: vec![Sheet {
            id: 1,
            name: "Sheet1".to_owned(),
            visibility: SheetVisibility::Visible,
            cell_count,
            cell_chunks,
            merged_ranges,
            tables,
        }],
        defined_names: Vec::new(),
    }
}

fn workbook_with_number(value: f64) -> WorkbookModel {
    let cell = WorkbookCell {
        address: address(1, 1),
        number_format: NumberFormat { id: 0, code: None, kind: NumberFormatKind::General },
        content: CellContent::Literal(LiteralValue::Number(
            FiniteNumber::from_bits(value.to_bits()).expect("finite number"),
        )),
    };
    workbook(vec![cell], Vec::new(), Vec::new())
}

fn column(id: u32, name: &str, totals_row_function: Option<&str>) -> TableColumn {
    TableColumn {
        id,
        name: name.to_owned(),
        totals_row_function: totals_row_function.map(str::to_owned),
        totals_row_label: None,
        calculated_column_formula: None,
        totals_row_formula: None,
    }
}

fn table(name: &str, display_name: &str, reference: CellRange, header: u32, totals: u32, columns: Vec<TableColumn>, id: u32) -> Table {
    Table {
        id,
        name: name.to_owned(),
        display_name: display_name.to_owned(),
        range: reference,
        table_type: "worksheet".to_owned(),
        header_row_count: header,
        totals_row_count: totals,
        totals_row_shown: false,
        columns,
        auto_filter: None,
        sort_state: None,
        style: None,
        opaque_source_xml: None,
    }
}

#[test]
fn workbook_fingerprint_is_stable_and_changes_with_cell_semantics() {
    let first = workbook_with_number(1.0);
    let same = workbook_with_number(1.0);
    let changed = workbook_with_number(2.0);

    assert_eq!(workbook_fingerprint(&first), workbook_fingerprint(&same));
    assert_ne!(workbook_fingerprint(&first), workbook_fingerprint(&changed));
}

#[test]
fn workbook_fingerprint_polls_cancellation_between_sparse_cells() {
    let workbook = workbook_with_number(1.0);
    let polls = Cell::new(0_u32);
    let cancelled = || {
        let next = polls.get() + 1;
        polls.set(next);
        next >= 2
    };

    assert_eq!(workbook_fingerprint_cancellable(&workbook, &cancelled), Err(()));
    assert_eq!(polls.get(), 2);
}

#[test]
fn workbook_fingerprint_folds_merged_ranges() {
    let base = workbook(Vec::new(), Vec::new(), Vec::new());
    let merged = workbook(Vec::new(), vec![range((1, 1), (2, 2))], Vec::new());
    let moved = workbook(Vec::new(), vec![range((1, 1), (3, 2))], Vec::new());

    assert_ne!(workbook_fingerprint(&base), workbook_fingerprint(&merged));
    assert_ne!(workbook_fingerprint(&merged), workbook_fingerprint(&moved));
    assert_eq!(
        workbook_fingerprint(&merged),
        workbook_fingerprint(&workbook(Vec::new(), vec![range((1, 1), (2, 2))], Vec::new()))
    );
}

#[test]
fn workbook_fingerprint_polls_cancellation_while_hashing_opaque_table_metadata() {
    let mut opaque = table(
        "Opaque",
        "Opaque",
        range((1, 1), (3, 2)),
        1,
        0,
        vec![column(1, "First", None), column(2, "Second", None)],
        1,
    );
    opaque.opaque_source_xml = Some(vec![b'x'; 256 * 1024]);
    let workbook = workbook(Vec::new(), Vec::new(), vec![opaque]);
    let polls = Cell::new(0_u32);
    let cancelled = || {
        let next = polls.get() + 1;
        polls.set(next);
        next >= 6
    };

    assert_eq!(workbook_fingerprint_cancellable(&workbook, &cancelled), Err(()));
    assert!(polls.get() >= 6, "opaque bytes must be hashed in cancellable chunks");
}

type TableDefinition<'a> = (&'a str, &'a str, CellRange, u32, u32, Vec<(&'a str, u32, Option<&'a str>)>, u32);

#[test]
fn workbook_fingerprint_folds_every_table_field() {
    let base = || -> TableDefinition<'static> {
        ("Sales", "SalesDisplay", range((1, 1), (4, 2)), 1_u32, 0_u32, vec![("First", 1_u32, None), ("Second", 2, None)], 7_u32)
    };
    let build = |definition: TableDefinition<'_>| {
        let (name, display_name, reference, header, totals, columns, id) = definition;
        let columns = columns.into_iter().map(|(name, id, function)| column(id, name, function)).collect();
        workbook(Vec::new(), Vec::new(), vec![table(name, display_name, reference, header, totals, columns, id)])
    };
    let reference = workbook_fingerprint(&build(base()));

    let mut changed = base();
    changed.6 = 8;
    assert_ne!(reference, workbook_fingerprint(&build(changed)), "table ID");
    let mut changed = base();
    changed.0 = "Other";
    assert_ne!(reference, workbook_fingerprint(&build(changed)), "programmatic name");
    let mut changed = base();
    changed.2 = range((1, 1), (5, 2));
    assert_ne!(reference, workbook_fingerprint(&build(changed)), "@ref");
    let mut changed = base();
    changed.5[0].0 = "Renamed";
    assert_ne!(reference, workbook_fingerprint(&build(changed)), "column name");
    let mut changed = base();
    changed.5.swap(0, 1);
    changed.5[0].1 = 1;
    changed.5[1].1 = 2;
    assert_ne!(reference, workbook_fingerprint(&build(changed)), "column order");
    let mut changed = base();
    changed.5[1].2 = Some("sum");
    assert_ne!(reference, workbook_fingerprint(&build(changed)), "totalsRowFunction");
    let mut changed = base();
    changed.5[0].1 = 3;
    assert_ne!(reference, workbook_fingerprint(&build(changed)), "column ID");
    let mut changed = base();
    changed.3 = 0;
    assert_ne!(reference, workbook_fingerprint(&build(changed)), "header row count");
    let mut changed = base();
    changed.4 = 1;
    assert_ne!(reference, workbook_fingerprint(&build(changed)), "totals row count");
    let mut changed = base();
    changed.1 = "OtherDisplay";
    assert_ne!(
        reference,
        workbook_fingerprint(&build(changed)),
        "display name is folded too - the whole model is folded"
    );
    assert_eq!(reference, workbook_fingerprint(&build(base())), "stable");
}

#[derive(Debug, Clone, Copy, PartialEq)]
enum ExtendedTableMutation {
    TableType,
    TotalsRowShown,
    TotalsRowLabel,
    CalculatedFormulaText,
    CalculatedFormulaArray,
    TotalsFormulaText,
    AutoFilterRange,
    AutoFilterRangePresence,
    AutoFilterColumns,
    NestedSortState,
    FilterCriteria,
    SortStateRange,
    SortStateFlags,
    SortStateConditions,
    SortConditionAttributes,
    StyleName,
    StyleFlags,
    OpaqueSource,
}

fn sort_condition(reference: CellRange, descending: bool) -> SortCondition {
    SortCondition {
        range: reference,
        descending,
        sort_by: None,
        custom_list: None,
        differential_format_id: None,
        icon_set: None,
        icon_id: None,
    }
}

fn workbook_with_extended_table(mutation: Option<ExtendedTableMutation>) -> WorkbookModel {
    let is = |m: ExtendedTableMutation| mutation == Some(m);
    let table_type = if is(ExtendedTableMutation::TableType) { "xml" } else { "queryTable" };
    let label = if is(ExtendedTableMutation::TotalsRowLabel) { "Grand Total" } else { "Total" };
    let calculated_text = if is(ExtendedTableMutation::CalculatedFormulaText) { "[@Amount]*3" } else { "[@Amount]*2" };
    let totals_text =
        if is(ExtendedTableMutation::TotalsFormulaText) { "SUBTOTAL(101,[Amount])" } else { "SUBTOTAL(109,[Amount])" };
    let mut region = column(1, "Region", None);
    region.totals_row_label = Some(label.to_owned());
    let mut amount = column(2, "Amount", Some("custom"));
    amount.calculated_column_formula = Some(TableFormula {
        text: calculated_text.to_owned(),
        is_array: !is(ExtendedTableMutation::CalculatedFormulaArray),
    });
    amount.totals_row_formula = Some(TableFormula { text: totals_text.to_owned(), is_array: false });
    let nested_sort = SortState {
        range: range((2, 1), (3, 2)),
        case_sensitive: !is(ExtendedTableMutation::NestedSortState),
        column_sort: false,
        sort_method: None,
        conditions: vec![sort_condition(range((2, 2), (3, 2)), false)],
    };
    let auto_filter = AutoFilter {
        range: if is(ExtendedTableMutation::AutoFilterRange) { range((1, 1), (4, 2)) } else { range((1, 1), (3, 2)) },
        has_declared_range: !is(ExtendedTableMutation::AutoFilterRangePresence),
        filter_columns: vec![FilterColumn {
            column_id: if is(ExtendedTableMutation::AutoFilterColumns) { 0 } else { 1 },
            hidden_button: false,
            show_button: true,
            criteria: Some(FilterCriteria::Values {
                blank: false,
                calendar_type: None,
                items: vec![FilterItem::Value(Some(
                    (if is(ExtendedTableMutation::FilterCriteria) { "West" } else { "East" }).to_owned(),
                ))],
            }),
        }],
        sort_state: Some(nested_sort),
    };
    let sort_state = SortState {
        range: if is(ExtendedTableMutation::SortStateRange) { range((1, 1), (3, 2)) } else { range((2, 1), (3, 2)) },
        case_sensitive: is(ExtendedTableMutation::SortStateFlags),
        column_sort: false,
        sort_method: if is(ExtendedTableMutation::SortConditionAttributes) { Some("stroke".to_owned()) } else { None },
        conditions: vec![sort_condition(
            if is(ExtendedTableMutation::SortStateConditions) { range((2, 1), (3, 1)) } else { range((2, 2), (3, 2)) },
            is(ExtendedTableMutation::SortConditionAttributes),
        )],
    };
    let mut sales = table("Sales", "SalesDisplay", range((1, 1), (4, 2)), 1, 0, vec![region, amount], 1);
    sales.table_type = table_type.to_owned();
    sales.totals_row_shown = !is(ExtendedTableMutation::TotalsRowShown);
    sales.auto_filter = Some(auto_filter);
    sales.sort_state = Some(sort_state);
    sales.style = Some(TableStyle {
        name: Some((if is(ExtendedTableMutation::StyleName) { "TableStyleMedium3" } else { "TableStyleMedium2" }).to_owned()),
        show_first_column: is(ExtendedTableMutation::StyleFlags),
        show_last_column: false,
        show_row_stripes: true,
        show_column_stripes: false,
    });
    sales.opaque_source_xml =
        Some(if is(ExtendedTableMutation::OpaqueSource) { b"opaque:b".to_vec() } else { b"opaque:a".to_vec() });
    workbook(Vec::new(), Vec::new(), vec![sales])
}

#[test]
fn workbook_fingerprint_folds_extended_table_metadata() {
    let reference = workbook_fingerprint(&workbook_with_extended_table(None));
    for mutation in [
        ExtendedTableMutation::TableType,
        ExtendedTableMutation::TotalsRowShown,
        ExtendedTableMutation::TotalsRowLabel,
        ExtendedTableMutation::CalculatedFormulaText,
        ExtendedTableMutation::CalculatedFormulaArray,
        ExtendedTableMutation::TotalsFormulaText,
        ExtendedTableMutation::AutoFilterRange,
        ExtendedTableMutation::AutoFilterRangePresence,
        ExtendedTableMutation::AutoFilterColumns,
        ExtendedTableMutation::NestedSortState,
        ExtendedTableMutation::FilterCriteria,
        ExtendedTableMutation::SortStateRange,
        ExtendedTableMutation::SortStateFlags,
        ExtendedTableMutation::SortStateConditions,
        ExtendedTableMutation::SortConditionAttributes,
        ExtendedTableMutation::StyleName,
        ExtendedTableMutation::StyleFlags,
        ExtendedTableMutation::OpaqueSource,
    ] {
        assert_ne!(reference, workbook_fingerprint(&workbook_with_extended_table(Some(mutation))), "{mutation:?}");
    }
    assert_eq!(reference, workbook_fingerprint(&workbook_with_extended_table(None)), "stable");
}

#[test]
fn chunk_digests_are_reusable_across_workbooks() {
    let cells = workbook_with_number(1.0).sheets[0].cell_chunks[0].cells.clone();
    let never = || false;
    let once = cell_chunk_fingerprint_cancellable(&cells, cells.len(), &never).expect("digest");
    let again = cell_chunk_fingerprint_cancellable(&cells, cells.len(), &never).expect("digest");
    assert_eq!(once, again);
    let longer = cell_chunk_fingerprint_cancellable(&cells, cells.len() + 1, &never).expect("digest");
    assert_ne!(once, longer);
}
