use cellrune::calculation::{CellValue, FiniteNumber};
use cellrune::operators::{broadcast_index, broadcast_shape, element_at};
use cellrune::runtime::Array;
use cellrune::value::ErrorKind;

fn number(value: f64) -> CellValue {
    CellValue::Number(FiniteNumber::from_bits(value.to_bits()).expect("finite"))
}

#[test]
fn binary_arrays_broadcast_vectors_and_pad_missing_dimensions() {
    let row = Array { rows: 1, cols: 3, data: vec![number(1.0), number(2.0), number(3.0)] };
    let column = Array { rows: 3, cols: 1, data: vec![number(10.0), number(20.0), number(30.0)] };
    assert_eq!(broadcast_shape(&row, &column), Ok((3, 3)));
    assert_eq!(element_at(&row, 0, 0), number(1.0));
    assert_eq!(element_at(&row, 2, 0), number(1.0));
    assert_eq!(element_at(&column, 2, 2), number(30.0));

    let two_by_two = Array { rows: 2, cols: 2, data: vec![number(1.0), number(2.0), number(3.0), number(4.0)] };
    assert_eq!(broadcast_shape(&two_by_two, &row), Ok((2, 3)));
    assert_eq!(element_at(&two_by_two, 0, 2), CellValue::Error(ErrorKind::NA));
    assert_eq!(element_at(&two_by_two, 1, 2), CellValue::Error(ErrorKind::NA));
    assert_eq!(element_at(&two_by_two, 3, 3), CellValue::Error(ErrorKind::NA));
}

#[test]
fn broadcast_index_repeats_singleton_axes() {
    assert_eq!(broadcast_index(1, 3, 5, 2), Some(2));
    assert_eq!(broadcast_index(3, 1, 2, 5), Some(2));
    assert_eq!(broadcast_index(2, 2, 1, 1), Some(3));
    assert_eq!(broadcast_index(2, 2, 2, 0), None);
}
