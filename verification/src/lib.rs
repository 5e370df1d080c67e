//! A small pull-based relational execution engine over in-memory tables.
//!
//! Rows are fixed-arity tuples of tagged scalar values. Operators hand rows
//! out one at a time through [`RowSource::next`]; each operator's contract is
//! stated over the sequence of row contents it has still to yield.
pub mod value;
pub mod row;
pub mod text;
pub mod schema;
pub mod projection;
pub mod source;
pub mod scan;
pub mod filter;
pub mod join;
pub mod join_laws;
pub mod nested_join;
pub mod key_index;
pub mod hash_join;

pub use crate::filter::FilterIterator;
pub use crate::hash_join::HashJoinIterator;
pub use crate::join::Equijoin;
pub use crate::nested_join::NestedJoinIterator;
pub use crate::projection::{JoinSchema, Projection};
pub use crate::row::Row;
pub use crate::scan::Scan;
pub use crate::schema::{RowError, RowSchema};
pub use crate::source::RowSource;
pub use crate::value::{Datum, Scalar, Type, Value};
