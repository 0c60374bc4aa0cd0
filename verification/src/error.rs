//! Error types shared by the whole crate.

use vstd::prelude::*;

verus! {

/// The errors a query or a builder can report.
#[derive(Debug)]
pub enum QlError {
    /// A referenced column is not declared by the table or builder at hand.
    ColumnDoesNotExist { name: String },
    /// An ordering comparison was requested between values whose types do not
    /// admit one (different variants, or a null operand).
    IncomparableValues,
    /// `and`/`or` was called on a select builder before any base constraint was set.
    NoFirstConstraintFoundBeforeAndOr,
    /// The primary key of a table builder was set twice.
    PrimaryKeyAlreadySet,
    /// An error raised while executing a query against the cache.
    QueryError(QueryError),
    /// A builder was asked to build while a required field was still unset.
    RequiredFieldIsNone { field_name: String },
    /// An inserted row does not agree with the table's declared columns.
    RowDoesNotMatchColumns,
    /// The table has handed out every 64-bit row identity and cannot mint a new one.
    RowIdentifiersExhausted,
    /// A list that must not be empty was empty.
    VecCannotBeEmpty { vec_name: String },
}

/// The errors about relations (schemas and tables) raised during execution.
#[derive(Debug)]
pub enum QueryError {
    /// The named relation already exists and creation did not ask `if_not_exist`.
    RelationAlreadyExists { name: String },
    /// The named relation was not found in the cache.
    RelationDoesNotExist { name: String },
}

/// The usual result type of this crate.
pub type QlResult<T> = Result<T, QlError>;

} // verus!
