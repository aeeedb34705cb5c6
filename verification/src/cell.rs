//! Workbook coordinates and the packed keys that order formula cells.
use vstd::prelude::*;

use crate::lexer::{EXCEL_MAX_COLUMNS, EXCEL_MAX_ROWS};

verus! {

/// A workbook-local, non-zero sheet identifier.
#[derive(Debug, Clone, Copy, PartialEq, Eq, PartialOrd, Ord, Hash, Structural)]
pub struct SheetId {
    id: u32,
}

impl View for SheetId {
    type V = u32;

    closed spec fn view(&self) -> u32 {
        self.id
    }
}

impl SheetId {
    #[verifier::type_invariant]
    spec fn nonzero(self) -> bool {
        self.id > 0
    }

    /// Builds a sheet identifier; zero is not a sheet.
    pub fn new(id: u32) -> (r: Option<SheetId>)
        ensures
            id == 0 ==> r is None,
            id != 0 ==> (r matches Some(s) && s@ == id),
    {
        if id == 0 {
            None
        } else {
            Some(SheetId { id })
        }
    }

    /// Returns the numeric identifier.
    pub fn get(self) -> (r: u32)
        ensures
            r == self@,
            r > 0,
    {
        proof {
            use_type_invariant(&self);
        }
        self.id
    }
}

/// A validated one-based worksheet cell address.
#[derive(Debug, Clone, Copy, PartialEq, Eq, PartialOrd, Ord, Hash, Structural)]
pub struct CellAddress {
    row: u32,
    column: u32,
}

/// Mathematical model of a cell address: its one-based row and column.
pub struct AddressModel {
    pub row: u32,
    pub column: u32,
}

impl View for CellAddress {
    type V = AddressModel;

    closed spec fn view(&self) -> AddressModel {
        AddressModel { row: self.row, column: self.column }
    }
}

/// Whether a row and column lie inside an Excel worksheet.
pub open spec fn in_sheet(row: u32, column: u32) -> bool {
    1 <= row <= EXCEL_MAX_ROWS && 1 <= column <= EXCEL_MAX_COLUMNS
}

impl CellAddress {
    #[verifier::type_invariant]
    spec fn within_sheet(self) -> bool {
        in_sheet(self.row, self.column)
    }

    /// Builds an address from one-based indices inside the worksheet.
    pub fn from_indices(row: u32, column: u32) -> (r: Option<CellAddress>)
        ensures
            in_sheet(row, column) <==> r is Some,
            r matches Some(a) ==> a@ == (AddressModel { row, column }),
    {
        if row >= 1 && row <= EXCEL_MAX_ROWS && column >= 1 && column <= EXCEL_MAX_COLUMNS {
            Some(CellAddress { row, column })
        } else {
            None
        }
    }

    /// Returns the one-based row.
    pub fn row(self) -> (r: u32)
        ensures
            r == self@.row,
            1 <= r <= EXCEL_MAX_ROWS,
    {
        proof {
            use_type_invariant(&self);
        }
        self.row
    }

    /// Returns the one-based column.
    pub fn column(self) -> (r: u32)
        ensures
            r == self@.column,
            1 <= r <= EXCEL_MAX_COLUMNS,
    {
        proof {
            use_type_invariant(&self);
        }
        self.column
    }
}

/// A rectangular block of cells from `start` to `end`.
#[derive(Debug, Clone, Copy, PartialEq, Eq, Hash, Structural)]
pub struct CellRange {
    start: CellAddress,
    end: CellAddress,
}

impl CellRange {
    /// Builds the range between two corner addresses.
    pub fn new(start: CellAddress, end: CellAddress) -> (r: CellRange)
        ensures
            r.start_spec() == start,
            r.end_spec() == end,
    {
        CellRange { start, end }
    }

    pub closed spec fn start_spec(self) -> CellAddress {
        self.start
    }

    pub closed spec fn end_spec(self) -> CellAddress {
        self.end
    }

    /// Returns the first corner.
    pub fn start(self) -> (r: CellAddress)
        ensures
            r == self.start_spec(),
    {
        self.start
    }

    /// Returns the opposite corner.
    pub fn end(self) -> (r: CellAddress)
        ensures
            r == self.end_spec(),
    {
        self.end
    }
}

/// Stable identity of a formula cell within one workbook snapshot.
#[derive(Debug, Clone, Copy, PartialEq, Eq, PartialOrd, Ord, Hash, Structural)]
pub struct CalculationCellId {
    sheet_id: SheetId,
    address: CellAddress,
}

/// Mathematical model of a formula cell identity: sheet, row and column.
pub struct CellIdModel {
    pub sheet: u32,
    pub row: u32,
    pub column: u32,
}

impl View for CalculationCellId {
    type V = CellIdModel;

    closed spec fn view(&self) -> CellIdModel {
        CellIdModel { sheet: self.sheet_id@, row: self.address@.row, column: self.address@.column }
    }
}

impl CalculationCellId {
    /// Constructs a formula cell identity from validated workbook coordinates.
    pub fn new(sheet_id: SheetId, address: CellAddress) -> (r: CalculationCellId)
        ensures
            r.sheet_id_spec() == sheet_id,
            r.address_spec() == address,
            r@ == (CellIdModel { sheet: sheet_id@, row: address@.row, column: address@.column }),
    {
        CalculationCellId { sheet_id, address }
    }

    pub closed spec fn sheet_id_spec(self) -> SheetId {
        self.sheet_id
    }

    pub closed spec fn address_spec(self) -> CellAddress {
        self.address
    }

    /// Returns the workbook-local sheet ID.
    pub fn sheet_id(self) -> (r: SheetId)
        ensures
            r == self.sheet_id_spec(),
            r@ == self@.sheet,
    {
        self.sheet_id
    }

    /// Returns the formula cell address.
    pub fn address(self) -> (r: CellAddress)
        ensures
            r == self.address_spec(),
            r@.row == self@.row,
            r@.column == self@.column,
    {
        self.address
    }

    /// Whether the identity names a non-zero sheet and a cell inside the worksheet, as every
    /// constructed identity does.
    pub open spec fn valid(self) -> bool {
        self@.sheet > 0 && in_sheet(self@.row, self@.column)
    }

    /// Every constructed identity is valid.
    pub fn check_valid(self)
        ensures
            self.valid(),
    {
        let _ = self.sheet_id.get();
        let _ = self.address.row();
        let _ = self.address.column();
    }

    /// Two identities with the same coordinates are the same identity.
    pub proof fn lemma_view_injective(self, other: CalculationCellId)
        requires
            self@ == other@,
        ensures
            self == other,
    {
        assert(self.sheet_id == other.sheet_id);
        assert(self.address == other.address);
    }
}

/// Number of address slots reserved per sheet in a packed key: 2^34.
pub open spec fn sheet_stride() -> int {
    0x4_0000_0000
}

/// Packed store key of a cell: the sheet above 34 bits of row-major address index.
pub open spec fn cell_key_spec(c: CellIdModel) -> int {
    c.sheet * sheet_stride() + ((c.row - 1) * EXCEL_MAX_COLUMNS + (c.column - 1))
}

/// Sheet-major, row-major order of cell coordinates.
pub open spec fn cell_before(a: CellIdModel, b: CellIdModel) -> bool {
    ||| a.sheet < b.sheet
    ||| (a.sheet == b.sheet && a.row < b.row)
    ||| (a.sheet == b.sheet && a.row == b.row && a.column < b.column)
}

proof fn lemma_address_index_bound(row: u32, column: u32)
    requires
        in_sheet(row, column),
    ensures
        0 <= (row - 1) * EXCEL_MAX_COLUMNS + (column - 1) < sheet_stride(),
{
    assert((row - 1) * EXCEL_MAX_COLUMNS <= (EXCEL_MAX_ROWS - 1) * EXCEL_MAX_COLUMNS) by (nonlinear_arith)
        requires
            1 <= row <= EXCEL_MAX_ROWS,
    ;
}

/// Packs a cell identity into its ordered store key.
pub fn cell_key(cell: CalculationCellId) -> (r: u128)
    ensures
        r as int == cell_key_spec(cell@),
{
    cell.check_valid();
    proof {
        lemma_address_index_bound(cell@.row, cell@.column);
    }
    let row = cell.address().row();
    let column = cell.address().column();
    let sheet = cell.sheet_id().get();
    let row_major_index: u128 = ((row - 1) as u128) * (EXCEL_MAX_COLUMNS as u128) + ((column - 1) as u128);
    assert(sheet as u128 * 0x4_0000_0000u128 <= 0xFFFF_FFFFu128 * 0x4_0000_0000u128) by (nonlinear_arith)
        requires sheet <= 0xFFFF_FFFFu32,
    ;
    (sheet as u128) * 0x4_0000_0000u128 + row_major_index
}

/// Whether `key` is the packed key of some cell.
pub open spec fn valid_cell_key(key: int) -> bool {
    let sheet = key / sheet_stride();
    let index = key % sheet_stride();
    &&& 0 <= key
    &&& 1 <= sheet <= u32::MAX
    &&& index < EXCEL_MAX_ROWS * EXCEL_MAX_COLUMNS
}

/// Recovers the cell identity from a packed key.
pub fn cell_from_key(key: u128) -> (r: CalculationCellId)
    requires
        valid_cell_key(key as int),
    ensures
        cell_key_spec(r@) == key,
        r.valid(),
{
    let sheet_number = key / 0x4_0000_0000u128;
    let index = key % 0x4_0000_0000u128;
    assert(index < EXCEL_MAX_ROWS as u128 * EXCEL_MAX_COLUMNS as u128);
    let row = (index / (EXCEL_MAX_COLUMNS as u128)) as u32 + 1;
    let column = (index % (EXCEL_MAX_COLUMNS as u128)) as u32 + 1;
    assert(index / (EXCEL_MAX_COLUMNS as u128) < EXCEL_MAX_ROWS as u128) by (nonlinear_arith)
        requires
            index < EXCEL_MAX_ROWS as u128 * EXCEL_MAX_COLUMNS as u128,
    ;
    let sheet = SheetId { id: sheet_number as u32 };
    let address = CellAddress { row, column };
    let r = CalculationCellId { sheet_id: sheet, address };
    assert(index == (row - 1) as int * EXCEL_MAX_COLUMNS + (column - 1)) by (nonlinear_arith)
        requires
            row == index / (EXCEL_MAX_COLUMNS as u128) + 1,
            column == index % (EXCEL_MAX_COLUMNS as u128) + 1,
    ;
    r
}

/// Unpacking the key of a cell gives a cell with the same coordinates.
pub proof fn lemma_cell_from_key_view(key: u128, unpacked: CalculationCellId, cell: CalculationCellId)
    requires
        cell.valid(),
        unpacked.valid(),
        key as int == cell_key_spec(cell@),
        cell_key_spec(unpacked@) == key,
    ensures
        unpacked@ == cell@,
{
    lemma_cell_key_order(unpacked, cell);
}

/// Packing is invertible: unpacking a cell's key gives the cell back.
pub proof fn lemma_cell_key_round_trip(cell: CalculationCellId)
    requires
        cell.valid(),
    ensures
        valid_cell_key(cell_key_spec(cell@)),
        cell_key_spec(cell@) / sheet_stride() == cell@.sheet,
        cell_key_spec(cell@) % sheet_stride() == (cell@.row - 1) * EXCEL_MAX_COLUMNS + (cell@.column - 1),
{
    lemma_address_index_bound(cell@.row, cell@.column);
    let k = cell_key_spec(cell@);
    let i = (cell@.row - 1) * EXCEL_MAX_COLUMNS + (cell@.column - 1);
    vstd::arithmetic::div_mod::lemma_fundamental_div_mod_converse(k, sheet_stride(), cell@.sheet as int, i);
    assert(i < EXCEL_MAX_ROWS * EXCEL_MAX_COLUMNS) by (nonlinear_arith)
        requires
            i == (cell@.row - 1) * EXCEL_MAX_COLUMNS + (cell@.column - 1),
            1 <= cell@.row <= EXCEL_MAX_ROWS,
            1 <= cell@.column <= EXCEL_MAX_COLUMNS,
    ;
}

/// Packed keys order cells sheet-major, then row-major, and distinct cells get distinct keys.
pub proof fn lemma_cell_key_order(a: CalculationCellId, b: CalculationCellId)
    requires
        a.valid(),
        b.valid(),
    ensures
        cell_before(a@, b@) <==> cell_key_spec(a@) < cell_key_spec(b@),
        a@ == b@ <==> cell_key_spec(a@) == cell_key_spec(b@),
{
    lemma_address_index_bound(a@.row, a@.column);
    lemma_address_index_bound(b@.row, b@.column);
    let ia = (a@.row - 1) * EXCEL_MAX_COLUMNS + (a@.column - 1);
    let ib = (b@.row - 1) * EXCEL_MAX_COLUMNS + (b@.column - 1);
    assert((a@.row < b@.row ==> ia < ib) && (a@.row > b@.row ==> ia > ib)) by (nonlinear_arith)
        requires
            ia == (a@.row - 1) * EXCEL_MAX_COLUMNS + (a@.column - 1),
            ib == (b@.row - 1) * EXCEL_MAX_COLUMNS + (b@.column - 1),
            1 <= a@.column <= EXCEL_MAX_COLUMNS,
            1 <= b@.column <= EXCEL_MAX_COLUMNS,
    ;
    assert((a@.sheet < b@.sheet ==> cell_key_spec(a@) < cell_key_spec(b@)) && (a@.sheet > b@.sheet ==> cell_key_spec(a@) > cell_key_spec(b@))) by (nonlinear_arith)
        requires
            cell_key_spec(a@) == a@.sheet * sheet_stride() + ia,
            cell_key_spec(b@) == b@.sheet * sheet_stride() + ib,
            0 <= ia < sheet_stride(),
            0 <= ib < sheet_stride(),
    ;
}

} // verus!
