//! Input guards of the reciprocal trigonometric functions.
use vstd::prelude::*;

use crate::calculation::FiniteNumber;
use crate::value::ErrorKind;

verus! {

/// Bit pattern of `2^27`, the magnitude at and above which `COT`, `COTH`, `CSC` and `CSCH` refuse
/// their argument.
pub const RECIPROCAL_INPUT_LIMIT_BITS: u64 = 0x41A0_0000_0000_0000;

/// Bit pattern of a double with its sign cleared.
pub open spec fn magnitude_bits(bits: u64) -> u64 {
    (bits % 0x8000_0000_0000_0000) as u64
}

/// Whether a finite number's magnitude is below `2^27`.
///
/// Finite non-negative doubles are ordered as their bit patterns are, so the comparison is made
/// on the bit pattern with the sign cleared.
pub fn within_reciprocal_input_limit(number: FiniteNumber) -> (r: bool)
    ensures
        r == (magnitude_bits(number@) < RECIPROCAL_INPUT_LIMIT_BITS),
{
    let bits = number.to_bits();
    bits % 0x8000_0000_0000_0000 < RECIPROCAL_INPUT_LIMIT_BITS
}

/// The argument a reciprocal trigonometric function goes on to evaluate: `#VALUE!` unless it
/// has exactly one argument, the argument's own error, or `#NUM!` at or above the input limit.
pub fn reciprocal_argument(argument_count: usize, argument: Result<FiniteNumber, ErrorKind>) -> (r: Result<FiniteNumber, ErrorKind>)
    ensures
        argument_count != 1 ==> r == Err::<FiniteNumber, ErrorKind>(ErrorKind::Value),
        argument_count == 1 ==> match argument {
            Err(kind) => r == Err::<FiniteNumber, ErrorKind>(kind),
            Ok(number) => if magnitude_bits(number@) < RECIPROCAL_INPUT_LIMIT_BITS {
                r == Ok::<FiniteNumber, ErrorKind>(number)
            } else {
                r == Err::<FiniteNumber, ErrorKind>(ErrorKind::Num)
            },
        },
{
    if argument_count != 1 {
        return Err(ErrorKind::Value);
    }
    match argument {
        Ok(number) => if within_reciprocal_input_limit(number) {
            Ok(number)
        } else {
            Err(ErrorKind::Num)
        },
        Err(kind) => Err(kind),
    }
}

} // verus!
