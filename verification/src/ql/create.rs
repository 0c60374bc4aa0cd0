//! The `CREATE` query: a common entry that branches into `CREATE SCHEMA` and
//! `CREATE TABLE` builders.

use vstd::prelude::*;

use crate::ql::create::schema::CreateSchemaBuilder;
use crate::ql::create::table::CreateTableBuilder;

pub mod schema;
pub mod table;

verus! {

/// A `CREATE` query of a given kind.
#[derive(Debug)]
pub struct Create {
    /// The kind of object the query creates.
    pub kind: CreateKind,
}

/// The kind of object a `CREATE` query creates.
#[derive(Clone, Copy, PartialEq, Eq, Structural, Debug)]
pub enum CreateKind {
    Table,
}

impl Create {
    /// Returns a builder for a `CREATE` query.
    pub(crate) fn builder() -> (r: CreateBuilder)
        ensures
            r.kind is None,
            r.object_name is None,
    {
        CreateBuilder { kind: None, object_name: None }
    }
}

/// A builder for a `Create`: picks the kind of object to create.
#[derive(Debug)]
pub struct CreateBuilder {
    /// The kind of object to create, once set.
    pub kind: Option<CreateKind>,
    /// The name of the object to create, once set.
    pub object_name: Option<String>,
}

impl CreateBuilder {
    /// Sets the kind of object to create in the cache.
    pub fn kind(self, kind: CreateKind) -> (r: Self)
        ensures
            r.kind == Some(kind),
            r.object_name == self.object_name,
    {
        Self { kind: Some(kind), object_name: self.object_name }
    }

    /// Sets the name of the object to create.
    pub fn object_name(self, object_name: String) -> (r: Self)
        ensures
            r.kind == self.kind,
            r.object_name == Some(object_name),
    {
        Self { kind: self.kind, object_name: Some(object_name) }
    }

    /// Returns a builder for a `CREATE TABLE` query.
    pub fn table(self) -> (r: CreateTableBuilder)
        ensures
            r.name is None,
            r.columns@.len() == 0,
            r.primary_key is None,
            r.schema is None,
            r.if_not_exist == false,
    {
        CreateTableBuilder {
            name: None,
            columns: Vec::new(),
            primary_key: None,
            schema: None,
            if_not_exist: false,
        }
    }

    /// Returns a builder for a `CREATE SCHEMA` query.
    pub fn schema(self) -> (r: CreateSchemaBuilder)
        ensures
            r.name is None,
            r.if_not_exist == false,
    {
        CreateSchemaBuilder { name: None, if_not_exist: false }
    }
}

} // verus!
