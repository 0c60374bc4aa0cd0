//! An object-relational in-memory cache, queried through an SQL-flavoured
//! query language: a hierarchy of schemas, tables and rows held in concurrent
//! maps, typed column values, composable row constraints, and validating
//! builders that produce immutable query objects.

use vstd::prelude::*;

mod cache;
pub mod conc_map;
pub mod error;
pub mod ql;
mod value;

pub use cache::row_cells;
pub use cache::row_lookup;
pub use cache::row_matches_columns;
pub use cache::wf_schema;
pub use cache::wf_table;
pub use cache::CacheSchema;
pub use cache::CacheTable;
pub use cache::CacheTableRow;
pub use cache::QlCache;

pub use value::check_value_fits;
pub use value::compare_values;
pub use value::comparable;
pub use value::lex_lt;
pub use value::numeric_of;
pub use value::spec_cmp;
pub use value::text_of;
pub use value::value_fits;
pub use value::ColumnDataType;
pub use value::ColumnValue;
pub use value::ValueModel;
pub use value::ValueOrdering;

verus! {

} // verus!
