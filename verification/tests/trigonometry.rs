use cellrune::calculation::FiniteNumber;
use cellrune::trigonometry::{reciprocal_argument, within_reciprocal_input_limit, RECIPROCAL_INPUT_LIMIT_BITS};
use cellrune::value::ErrorKind;

fn number(value: f64) -> FiniteNumber {
    FiniteNumber::from_bits(value.to_bits()).expect("finite")
}

#[test]
fn reciprocal_input_limit_is_exactly_two_to_the_twenty_seventh() {
    assert_eq!(f64::from_bits(RECIPROCAL_INPUT_LIMIT_BITS), 2_f64.powi(27));
}

#[test]
fn reciprocal_arguments_stop_at_the_limit_in_either_sign() {
    assert!(within_reciprocal_input_limit(number(134_217_727.5)));
    assert!(within_reciprocal_input_limit(number(-134_217_727.5)));
    assert!(!within_reciprocal_input_limit(number(134_217_728.0)));
    assert!(!within_reciprocal_input_limit(number(-134_217_728.0)));
    assert_eq!(reciprocal_argument(1, Ok(number(2.0))), Ok(number(2.0)));
    assert_eq!(reciprocal_argument(1, Ok(number(1e9))), Err(ErrorKind::Num));
    assert_eq!(reciprocal_argument(2, Ok(number(2.0))), Err(ErrorKind::Value));
    assert_eq!(reciprocal_argument(1, Err(ErrorKind::Div0)), Err(ErrorKind::Div0));
}
