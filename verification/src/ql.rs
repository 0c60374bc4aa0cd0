//! The query language: query objects, their builders, and their execution
//! against the cache.

use vstd::prelude::*;

use crate::cache::{same_contents, CacheSchema, CacheTableRow, QlCache};
use crate::error::QlResult;
use crate::ql::create::schema::{create_schema_post, CreateSchema};
use crate::ql::create::table::{create_table_post, CreateTable};
use crate::ql::create::{Create, CreateBuilder};
use crate::ql::select::{select_post, Select, SelectBuilder};

pub mod constraints;
pub mod create;
pub mod key;
pub mod select;
pub mod sortby;

verus! {

/// An immutable, validated description of one operation against the cache,
/// built only through the builders.
#[derive(Debug)]
pub struct Query {
    /// The description of the operation.
    pub query: QueryKind,
}

/// The kinds of query the cache executes.
#[derive(Debug)]
pub enum QueryKind {
    /// Create a schema.
    CreateSchema(CreateSchema),
    /// Create a table in a schema.
    CreateTable(CreateTable),
    /// Select rows from a table.
    Select(Select),
}

/// The result a query execution hands back: nothing for the create queries,
/// an ordered sequence of rows for a select.
#[derive(Debug)]
pub enum QueryResult {
    /// The query created something and has nothing to hand back.
    Unit,
    /// The rows a select retained, in order.
    Rows(Vec<CacheTableRow>),
}

/// What executing a query does to the cache and hands back, by its kind.
pub open spec fn query_post(
    pre: Map<Seq<char>, CacheSchema>,
    post: Map<Seq<char>, CacheSchema>,
    q: Query,
    r: QlResult<QueryResult>,
) -> bool {
    match q.query {
        QueryKind::CreateSchema(cs) => match r {
            Ok(v) => v is Unit && create_schema_post(pre, post, cs, Ok(())),
            Err(e) => create_schema_post(pre, post, cs, Err(e)),
        },
        QueryKind::CreateTable(ct) => match r {
            Ok(v) => v is Unit && create_table_post(pre, post, ct, Ok(())),
            Err(e) => create_table_post(pre, post, ct, Err(e)),
        },
        QueryKind::Select(s) => match r {
            Ok(v) => v matches QueryResult::Rows(rows) && same_contents(pre, post)
                && select_post(pre, s, Ok(rows)),
            Err(e) => same_contents(pre, post) && select_post(pre, s, Err(e)),
        },
    }
}

impl Query {
    /// Executes this query against the cache, dispatching on its kind.
    pub fn execute(self, cache: &mut QlCache) -> (r: QlResult<QueryResult>)
        requires
            old(cache).wf(),
        ensures
            final(cache).wf(),
            query_post(old(cache).schemas(), final(cache).schemas(), self, r),
    {
        match self.query {
            QueryKind::CreateSchema(cs) => match cs.execute(cache) {
                Ok(()) => Ok(QueryResult::Unit),
                Err(e) => Err(e),
            },
            QueryKind::CreateTable(ct) => match ct.execute(cache) {
                Ok(()) => Ok(QueryResult::Unit),
                Err(e) => Err(e),
            },
            QueryKind::Select(s) => match s.execute(cache) {
                Ok(rows) => Ok(QueryResult::Rows(rows)),
                Err(e) => Err(e),
            },
        }
    }
}

/// The builder for a `Query`.
pub struct QueryBuilder;

impl QueryBuilder {
    /// Returns a builder for building a `CREATE` query.
    pub fn create() -> (r: CreateBuilder)
        ensures
            r.kind is None,
            r.object_name is None,
    {
        Create::builder()
    }

    /// Returns a builder for building a `SELECT` query.
    pub fn select() -> (r: SelectBuilder)
        ensures
            r.table_name is None,
            r.scope is None,
            r.constraint is None,
            r.sort_by is None,
    {
        Select::builder()
    }
}

} // verus!
