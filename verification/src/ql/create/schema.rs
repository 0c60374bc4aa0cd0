//! The `CREATE SCHEMA` query.

use vstd::prelude::*;
use vstd::string::StringExecFns;

use crate::cache::{CacheSchema, QlCache};
use crate::conc_map::{schemas_contains, schemas_insert, tables_of};
use crate::error::{QlError, QlResult, QueryError};
use crate::ql::{Query, QueryKind};

verus! {

/// A `CREATE SCHEMA` query.
#[derive(Debug)]
pub struct CreateSchema {
    /// The name of the schema to create.
    pub name: String,
    /// Whether an existing schema of the same name is tolerated as a no-op.
    pub if_not_exist: bool,
}

/// What executing a `CREATE SCHEMA` query does to the cache's schemas: an
/// atomic check-and-insert. An existing name is an error unless
/// `if_not_exist` asked for a no-op; an absent name gains exactly one fresh,
/// empty schema, and no other entry moves.
pub open spec fn create_schema_post(
    pre: Map<Seq<char>, CacheSchema>,
    post: Map<Seq<char>, CacheSchema>,
    q: CreateSchema,
    r: QlResult<()>,
) -> bool {
    &&& (r is Ok <==> (q.if_not_exist || !pre.dom().contains(q.name@)))
    &&& (r matches Err(e) ==> e matches QlError::QueryError(qe) && qe matches
        QueryError::RelationAlreadyExists { name } && name@ == q.name@)
    &&& (pre.dom().contains(q.name@) ==> post == pre)
    &&& (!pre.dom().contains(q.name@) ==> {
        &&& post.dom() =~= pre.dom().insert(q.name@)
        &&& (forall|n: Seq<char>|
            #[trigger] pre.dom().contains(n) && n != q.name@ ==> post[n] == pre[n])
        &&& post[q.name@].name@ == q.name@
        &&& tables_of(post[q.name@].tables) =~= Map::empty()
    })
}

/// Creating a schema with `if_not_exist` set is idempotent: a second
/// execution with the same name succeeds as well and leaves the schemas
/// exactly as the first left them, with the named schema present.
pub proof fn lemma_create_schema_idempotent(
    m0: Map<Seq<char>, CacheSchema>,
    m1: Map<Seq<char>, CacheSchema>,
    m2: Map<Seq<char>, CacheSchema>,
    q: CreateSchema,
    r1: QlResult<()>,
    r2: QlResult<()>,
)
    requires
        q.if_not_exist == true,
        create_schema_post(m0, m1, q, r1),
        create_schema_post(m1, m2, q, r2),
    ensures
        r1 is Ok,
        r2 is Ok,
        m2 == m1,
        m1.dom().contains(q.name@),
{
}

impl CreateSchema {
    /// Executes this query against the cache.
    pub fn execute(self, cache: &mut QlCache) -> (r: QlResult<()>)
        requires
            old(cache).wf(),
        ensures
            final(cache).wf(),
            create_schema_post(old(cache).schemas(), final(cache).schemas(), self, r),
    {
        if schemas_contains(&cache.cache, &self.name) {
            if !self.if_not_exist {
                return Err(
                    QlError::QueryError(QueryError::RelationAlreadyExists { name: self.name }),
                );
            }
            return Ok(());
        }
        let schema = CacheSchema::new(self.name.clone());
        schemas_insert(&mut cache.cache, self.name, schema);
        Ok(())
    }
}

/// A builder for a `CreateSchema`, constructing a `CREATE SCHEMA` query.
#[derive(Debug)]
pub struct CreateSchemaBuilder {
    /// The name of the schema to create, once set.
    pub name: Option<String>,
    /// Whether an existing schema of the same name is tolerated as a no-op.
    pub if_not_exist: bool,
}

impl CreateSchemaBuilder {
    /// Sets the name of the schema to create.
    pub fn name(self, name: String) -> (r: Self)
        ensures
            r.name == Some(name),
            r.if_not_exist == self.if_not_exist,
    {
        Self { name: Some(name), if_not_exist: self.if_not_exist }
    }

    /// Asks for the schema to be created only if it does not exist yet, an
    /// existing one being left alone without error.
    pub fn if_not_exist(self) -> (r: Self)
        ensures
            r.name == self.name,
            r.if_not_exist == true,
    {
        Self { name: self.name, if_not_exist: true }
    }

    /// Consumes the builder and returns a `CREATE SCHEMA` query. Succeeds
    /// exactly when the name was set.
    pub fn build(self) -> (r: QlResult<Query>)
        ensures
            r is Ok <==> self.name is Some,
            r matches Ok(q) ==> q.query matches QueryKind::CreateSchema(cs) && Some(cs.name)
                == self.name && cs.if_not_exist == self.if_not_exist,
            r matches Err(e) ==> e matches QlError::RequiredFieldIsNone { field_name }
                && field_name@ == "CreateSchemaBuilder.name"@,
    {
        if self.name.is_none() {
            return Err(
                QlError::RequiredFieldIsNone {
                    field_name: String::from_str("CreateSchemaBuilder.name"),
                },
            );
        }
        Ok(
            Query {
                query: QueryKind::CreateSchema(
                    CreateSchema { name: self.name.unwrap(), if_not_exist: self.if_not_exist },
                ),
            },
        )
    }
}

} // verus!
