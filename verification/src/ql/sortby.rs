//! Sort configuration for `SELECT`: the columns to sort by and the direction.

use vstd::prelude::*;
use vstd::string::StringExecFns;

use crate::error::{QlError, QlResult};

verus! {

/// Sort selected rows by the given columns, in the given order.
#[derive(Debug)]
pub struct SortBy {
    /// The columns to sort by, most significant first; never empty.
    pub columns: Vec<String>,
    /// The direction to sort in.
    pub order: SortOrdering,
}

/// The direction rows are sorted in.
#[derive(Clone, Copy, PartialEq, Eq, Structural, Debug)]
pub enum SortOrdering {
    Ascending,
    Descending,
}

impl SortBy {
    /// Constructs a new `SortBy`. Fails exactly when `columns` is empty; a
    /// missing order defaults to ascending.
    pub fn new(columns: Vec<String>, order: Option<SortOrdering>) -> (r: QlResult<Self>)
        ensures
            r is Ok <==> columns@.len() > 0,
            r matches Ok(s) ==> s.columns == columns && s.order == (match order {
                Some(o) => o,
                None => SortOrdering::Ascending,
            }),
            r matches Err(e) ==> e matches QlError::VecCannotBeEmpty { vec_name } && vec_name@
                == "Sortby.columns"@,
    {
        if columns.is_empty() {
            return Err(
                QlError::VecCannotBeEmpty { vec_name: String::from_str("Sortby.columns") },
            );
        }
        Ok(
            Self {
                columns,
                order: match order {
                    Some(o) => o,
                    None => SortOrdering::Ascending,
                },
            },
        )
    }
}

} // verus!
