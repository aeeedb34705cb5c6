use vstd::prelude::*;

pub mod calculation;
pub mod calculation_session;
pub mod cell;
pub mod counters;
pub mod cursor;
pub mod delta;
pub mod details;
pub mod lambda;
pub mod graph;
pub mod history;
pub mod identity;
pub mod lexer;
pub mod operators;
pub mod reference;
pub mod report;
pub mod runtime;
pub mod limits;
pub mod session;
pub mod snapshot;
pub mod store;
pub mod syntax;
pub mod text;
pub mod text_functions;
pub mod text_split;
pub mod transaction_detail;
pub mod transaction_run;
pub mod trigonometry;
pub mod value;
pub mod workbook;
pub mod xmatch;

verus! {

} // verus!
