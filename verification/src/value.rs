//! Excel error values.
use vstd::prelude::*;

use crate::limits::CalculationLimitKind;

verus! {

/// An Excel error value, or an engine-side resource failure reported in its place.
#[derive(Debug, Clone, Copy, PartialEq, Eq, Hash, Structural)]
pub enum ErrorKind {
    Null,
    Div0,
    Value,
    Ref,
    Name,
    Num,
    NA,
    Spill,
    Calc,
    Unsupported,
    ResourceLimit(CalculationLimitKind),
}

impl ErrorKind {
    /// Whether the error reports an engine limitation rather than an Excel error value.
    pub open spec fn is_engine_issue_spec(self) -> bool {
        self is Unsupported || self is ResourceLimit
    }

    /// Returns whether the error reports an engine limitation rather than an Excel error value.
    pub fn is_engine_issue(self) -> (r: bool)
        ensures
            r == self.is_engine_issue_spec(),
    {
        match self {
            ErrorKind::Unsupported | ErrorKind::ResourceLimit(_) => true,
            _ => false,
        }
    }
}

} // verus!
