//! Broadcasting of array operands.
use vstd::prelude::*;

use crate::calculation::{CellValue, CellValueModel};
use crate::runtime::Array;
use crate::value::ErrorKind;

verus! {

/// Shape of the result of combining two arrays element by element: the larger extent along each
/// axis.
pub fn broadcast_shape(left: &Array, right: &Array) -> (r: Result<(u32, u32), ErrorKind>)
    ensures
        r == Ok::<(u32, u32), ErrorKind>((
            if left.rows >= right.rows { left.rows } else { right.rows },
            if left.cols >= right.cols { left.cols } else { right.cols },
        )),
{
    Ok((
        if left.rows >= right.rows { left.rows } else { right.rows },
        if left.cols >= right.cols { left.cols } else { right.cols },
    ))
}

/// Position an operand of the given shape contributes to `(row, col)` of a broadcast result.
pub open spec fn broadcast_index_spec(rows: u32, cols: u32, row: u32, col: u32) -> Option<int> {
    let source_row = if rows == 1 { 0 } else { row };
    let source_col = if cols == 1 { 0 } else { col };
    if source_row >= rows || source_col >= cols {
        None
    } else {
        Some(source_row * cols + source_col)
    }
}

/// An operand's data is laid out row by row: the element it contributes to `(row, col)` of a
/// broadcast result is the one whose index, divided by the operand's column count, gives the row
/// it reads (row 0 along a singleton row axis) and leaves the column it reads (column 0 along a
/// singleton column axis); an operand reaches every position whose row and column it covers or
/// repeats, and no other.
pub proof fn lemma_broadcast_index_row_major(rows: u32, cols: u32, row: u32, col: u32)
    ensures
        ({
            let read_row: int = if rows == 1 { 0 } else { row as int };
            let read_col: int = if cols == 1 { 0 } else { col as int };
            &&& (broadcast_index_spec(rows, cols, row, col) is Some <==> read_row < rows && read_col < cols)
            &&& broadcast_index_spec(rows, cols, row, col) matches Some(i) ==> {
                &&& 0 <= i < rows * cols
                &&& i / (cols as int) == read_row
                &&& i % (cols as int) == read_col
            }
        }),
{
    let read_row: int = if rows == 1 { 0 } else { row as int };
    let read_col: int = if cols == 1 { 0 } else { col as int };
    if let Some(i) = broadcast_index_spec(rows, cols, row, col) {
        assert(0 <= read_col < cols);
        vstd::arithmetic::div_mod::lemma_fundamental_div_mod_converse(i, cols as int, read_row, read_col);
        assert(i < rows * cols) by (nonlinear_arith)
            requires
                i == read_row * cols + read_col,
                0 <= read_row < rows,
                0 <= read_col < cols,
        ;
        assert(0 <= i) by (nonlinear_arith)
            requires
                i == read_row * cols + read_col,
                0 <= read_row,
                0 <= read_col,
        ;
    }
}

/// Position an operand of the given shape contributes to `(row, col)` of a broadcast result.
///
/// A singleton dimension repeats along that axis; a position the operand does not reach at all is
/// `None`, and so is one whose index does not fit in `usize`.
pub fn broadcast_index(rows: u32, cols: u32, row: u32, col: u32) -> (r: Option<usize>)
    ensures
        match broadcast_index_spec(rows, cols, row, col) {
            Some(i) => if i <= usize::MAX { r == Some(i as usize) && i < rows * cols } else { r is None },
            None => r is None,
        },
{
    let source_row = if rows == 1 { 0 } else { row };
    let source_col = if cols == 1 { 0 } else { col };
    if source_row >= rows || source_col >= cols {
        return None;
    }
    assert(source_row * cols + source_col < rows * cols) by (nonlinear_arith)
        requires
            source_row < rows,
            source_col < cols,
    ;
    let scaled = match (source_row as usize).checked_mul(cols as usize) {
        Some(v) => v,
        None => return None,
    };
    scaled.checked_add(source_col as usize)
}

/// The value an operand contributes to `(row, col)` of a broadcast result: `#N/A` where the operand
/// does not reach.
pub fn element_at(array: &Array, row: u32, col: u32) -> (r: CellValue)
    ensures
        r@ == (match broadcast_index_spec(array.rows, array.cols, row, col) {
            Some(i) => if i < array.data@.len() { array.data@[i]@ } else { CellValueModel::Error(ErrorKind::NA) },
            None => CellValueModel::Error(ErrorKind::NA),
        }),
        ({
            let read_row: int = if array.rows == 1 { 0 } else { row as int };
            let read_col: int = if array.cols == 1 { 0 } else { col as int };
            read_row < array.rows && read_col < array.cols && array.rows * array.cols <= array.data@.len()
                ==> r@ == array.data@[read_row * array.cols + read_col]@
        }),
{
    proof {
        lemma_broadcast_index_row_major(array.rows, array.cols, row, col);
    }
    let len = array.data.len();
    match broadcast_index(array.rows, array.cols, row, col) {
        Some(index) => {
            if index < array.data.len() {
                array.data[index].duplicate()
            } else {
                CellValue::Error(ErrorKind::NA)
            }
        },
        None => {
            assert(broadcast_index_spec(array.rows, array.cols, row, col) matches Some(i) ==> i >= len);
            CellValue::Error(ErrorKind::NA)
        },
    }
}

} // verus!
