//! Filter expressions over process metrics: a small query language with
//! typed conditions, `and` / `or` connectives and a pure evaluator.
pub mod csv;
pub mod filter;
pub mod laws;
pub mod number;
pub mod process;
pub mod text;

pub use csv::escape_csv_field;
pub use filter::{Filter, FilterError, FilterExpr, FilterField, FilterOp, FilterValue};
pub use number::{Decimal, Number};
pub use process::ProcessInfo;
