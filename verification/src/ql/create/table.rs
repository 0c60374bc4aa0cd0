//! The `CREATE TABLE` query.

use vstd::prelude::*;
use vstd::string::StringExecFns;

use crate::cache::{wf_schema, wf_table, CacheSchema, CacheTable, QlCache};
use crate::conc_map::{
    rows_new,
    rows_of,
    schemas_insert,
    schemas_take,
    tables_contains,
    tables_insert,
    tables_of,
};
use crate::error::{QlError, QlResult, QueryError};
use crate::ql::key::PrimaryKey;
use crate::ql::{Query, QueryKind};
use crate::value::ColumnDataType;

verus! {

/// The index of the first column with the given name, or `-1` if no column
/// has it.
pub open spec fn find_column(
    cols: Seq<(String, (ColumnDataType, bool))>,
    name: Seq<char>,
) -> int
    decreases cols.len(),
{
    if cols.len() == 0 {
        -1
    } else if cols[0].0@ == name {
        0
    } else {
        let r = find_column(cols.drop_first(), name);
        if r < 0 {
            -1
        } else {
            r + 1
        }
    }
}

/// `find_column` finds the first column with the given name, and `-1` means
/// no column has it.
pub proof fn lemma_find_column(cols: Seq<(String, (ColumnDataType, bool))>, name: Seq<char>)
    ensures
        -1 <= find_column(cols, name) < cols.len(),
        find_column(cols, name) >= 0 ==> cols[find_column(cols, name)].0@ == name,
        find_column(cols, name) >= 0 ==> forall|j: int|
            0 <= j < find_column(cols, name) ==> (#[trigger] cols[j]).0@ != name,
        find_column(cols, name) == -1 ==> forall|j: int|
            0 <= j < cols.len() ==> (#[trigger] cols[j]).0@ != name,
    decreases cols.len(),
{
    if cols.len() > 0 && cols[0].0@ != name {
        lemma_find_column(cols.drop_first(), name);
        assert(forall|j: int|
            1 <= j < cols.len() ==> (#[trigger] cols[j]) == cols.drop_first()[j - 1]);
    }
}

/// The declared columns with the primary key's column, when one is set and
/// declared, forced to be non-nullable.
pub open spec fn with_pk_forced(
    cols: Seq<(String, (ColumnDataType, bool))>,
    pk: Option<PrimaryKey>,
) -> Seq<(String, (ColumnDataType, bool))> {
    match pk {
        None => cols,
        Some(k) => {
            let i = find_column(cols, k@);
            if i >= 0 {
                cols.update(i, (cols[i].0, (cols[i].1.0, false)))
            } else {
                cols
            }
        },
    }
}

/// A primary key set on a declared column leaves exactly that column
/// non-nullable and everything else as it was.
pub proof fn lemma_pk_forced_nonnull(cols: Seq<(String, (ColumnDataType, bool))>, pk: PrimaryKey)
    requires
        find_column(cols, pk@) >= 0,
    ensures
        ({
            let out = with_pk_forced(cols, Some(pk));
            let i = find_column(cols, pk@);
            &&& out.len() == cols.len()
            &&& out[i].0@ == pk@
            &&& out[i].1.0 == cols[i].1.0
            &&& out[i].1.1 == false
            &&& (forall|j: int| 0 <= j < cols.len() && j != i ==> out[j] == cols[j])
        }),
{
    lemma_find_column(cols, pk@);
}

/// Whether the query's primary key names no declared column.
pub open spec fn pk_not_declared(q: CreateTable) -> bool {
    match q.primary_key {
        Some(k) => find_column(q.columns@, k@) < 0,
        None => false,
    }
}

/// The column name of the query's primary key (empty when none is set).
pub open spec fn pk_name(q: CreateTable) -> Seq<char> {
    match q.primary_key {
        Some(k) => k@,
        None => Seq::empty(),
    }
}

/// A `CREATE TABLE` query.
#[derive(Debug)]
pub struct CreateTable {
    /// The name of the table to create.
    pub name: String,
    /// The columns of the table, in declaration order.
    pub columns: Vec<(String, (ColumnDataType, bool))>,
    /// The designated primary-key column, if any.
    pub primary_key: Option<PrimaryKey>,
    /// The schema the table is created in.
    pub schema: String,
    /// Whether an existing table of the same name is tolerated as a no-op.
    pub if_not_exist: bool,
}

/// What executing a `CREATE TABLE` query does to the cache's schemas. An
/// absent schema is an error; an existing table of the same name is an error
/// unless `if_not_exist` asked for a no-op; a primary key naming no declared
/// column is an error; otherwise the named schema gains exactly one fresh,
/// empty table with the declared columns, the primary key's column forced
/// non-nullable, and nothing else moves.
pub open spec fn create_table_post(
    pre: Map<Seq<char>, CacheSchema>,
    post: Map<Seq<char>, CacheSchema>,
    q: CreateTable,
    r: QlResult<()>,
) -> bool {
    if !pre.dom().contains(q.schema@) {
        &&& r matches Err(e) && e matches QlError::QueryError(qe) && qe matches
            QueryError::RelationDoesNotExist { name } && name@ == q.schema@
        &&& post == pre
    } else {
        let tm = tables_of(pre[q.schema@].tables);
        if tm.dom().contains(q.name@) {
            &&& (r is Ok <==> q.if_not_exist)
            &&& (r matches Err(e) ==> e matches QlError::QueryError(qe) && qe matches
                QueryError::RelationAlreadyExists { name } && name@ == q.name@)
            &&& post == pre
        } else if pk_not_declared(q) {
            &&& r matches Err(e) && e matches QlError::ColumnDoesNotExist { name } && name@
                == pk_name(q)
            &&& post == pre
        } else {
            &&& r is Ok
            &&& post.dom() =~= pre.dom()
            &&& (forall|n: Seq<char>|
                #[trigger] pre.dom().contains(n) && n != q.schema@ ==> post[n] == pre[n])
            &&& post[q.schema@].name == pre[q.schema@].name
            &&& ({
                let tm2 = tables_of(post[q.schema@].tables);
                &&& tm2.dom() =~= tm.dom().insert(q.name@)
                &&& (forall|t: Seq<char>|
                    #[trigger] tm.dom().contains(t) && t != q.name@ ==> tm2[t] == tm[t])
                &&& tm2[q.name@].name@ == q.name@
                &&& tm2[q.name@].columns@ == with_pk_forced(q.columns@, q.primary_key)
                &&& (match (tm2[q.name@].primary_key, q.primary_key) {
                    (Some(a), Some(b)) => a@ == b@,
                    (None, None) => true,
                    _ => false,
                })
                &&& rows_of(tm2[q.name@].rows) =~= Map::empty()
                &&& tm2[q.name@].next_row_id == 0
            })
        }
    }
}

impl CreateTable {
    /// Executes this query against the cache.
    pub fn execute(self, cache: &mut QlCache) -> (r: QlResult<()>)
        requires
            old(cache).wf(),
        ensures
            final(cache).wf(),
            create_table_post(old(cache).schemas(), final(cache).schemas(), self, r),
    {
        let mut schema = match schemas_take(&mut cache.cache, &self.schema) {
            Some(s) => s,
            None => {
                return Err(
                    QlError::QueryError(QueryError::RelationDoesNotExist { name: self.schema }),
                );
            },
        };
        let ghost pre = old(cache).schemas();
        if tables_contains(&schema.tables, &self.name) {
            let key = schema.name.clone();
            schemas_insert(&mut cache.cache, key, schema);
            proof {
                assert(cache.schemas() =~= pre);
            }
            if self.if_not_exist {
                return Ok(());
            }
            return Err(
                QlError::QueryError(QueryError::RelationAlreadyExists { name: self.name }),
            );
        }
        let ghost cols0 = self.columns@;
        let ghost pk0 = self.primary_key;
        let ghost name0 = self.name@;
        let mut columns = self.columns;
        if let Some(k) = &self.primary_key {
            let found = force_column_nonnull(&mut columns, &k.0);
            if !found {
                let key = schema.name.clone();
                schemas_insert(&mut cache.cache, key, schema);
                proof {
                    assert(cache.schemas() =~= pre);
                }
                return Err(QlError::ColumnDoesNotExist { name: k.0.clone() });
            }
        }
        let table = CacheTable {
            name: self.name.clone(),
            columns,
            primary_key: self.primary_key,
            rows: rows_new(),
            next_row_id: 0,
        };
        let ghost tbl0 = table;
        tables_insert(&mut schema.tables, self.name, table);
        let key = schema.name.clone();
        schemas_insert(&mut cache.cache, key, schema);
        proof {
            let s = self.schema@;
            let post0 = cache.schemas();
            assert(post0.dom() =~= pre.dom());
            assert(tbl0.columns@ =~= with_pk_forced(cols0, pk0));
            assert forall|n: Seq<char>| #[trigger] post0.dom().contains(n) implies post0[n].name@
                == n && wf_schema(post0[n]) by {
                if n == s {
                    let tm2 = tables_of(post0[n].tables);
                    assert forall|t: Seq<char>| #[trigger] tm2.dom().contains(t) implies tm2[t].name@
                        == t && wf_table(tm2[t]) by {
                        if t == name0 {
                            assert(tm2[t] == tbl0);
                            match pk0 {
                                Some(k) => {
                                    lemma_find_column(cols0, k@);
                                    let i = find_column(cols0, k@);
                                    assert(tbl0.columns@[i].0@ == k@ && tbl0.columns@[i].1.1
                                        == false);
                                },
                                None => {},
                            }
                            assert(rows_of(tbl0.rows).dom() =~= Set::empty());
                        } else {
                            assert(tables_of(pre[s].tables).dom().contains(t));
                        }
                    }
                } else {
                    assert(pre.dom().contains(n));
                }
            }
        }
        Ok(())
    }
}

/// Finds the first column with the given name and turns its nullability off;
/// reports whether there was one, leaving the columns alone otherwise.
fn force_column_nonnull(columns: &mut Vec<(String, (ColumnDataType, bool))>, key: &String) -> (found:
    bool)
    ensures
        found <==> find_column(old(columns)@, key@) >= 0,
        final(columns)@ == with_pk_forced(old(columns)@, Some(PrimaryKey(*key))),
{
    proof {
        lemma_find_column(old(columns)@, key@);
    }
    let n = columns.len();
    let mut i: usize = 0;
    while i < n
        invariant
            0 <= i <= n,
            n == columns@.len(),
            columns@ == old(columns)@,
            forall|j: int| 0 <= j < i ==> (#[trigger] columns@[j]).0@ != key@,
        decreases n - i,
    {
        if columns[i].0.eq(key) {
            proof {
                lemma_find_column(columns@, key@);
                assert(find_column(columns@, key@) == i);
            }
            let name = columns[i].0.clone();
            let dt = columns[i].1.0;
            columns.set(i, (name, (dt, false)));
            return true;
        }
        i = i + 1;
    }
    proof {
        lemma_find_column(columns@, key@);
        assert(columns@ =~= with_pk_forced(columns@, Some(PrimaryKey(*key))));
    }
    false
}

/// A builder for a `CreateTable`, constructing a `CREATE TABLE` query.
#[derive(Debug)]
pub struct CreateTableBuilder {
    /// The name of the table to create, once set.
    pub name: Option<String>,
    /// The columns of the table, in declaration order.
    pub columns: Vec<(String, (ColumnDataType, bool))>,
    /// The designated primary-key column, once set.
    pub primary_key: Option<PrimaryKey>,
    /// The schema to create the table in, once set; `PUBLIC` if never set.
    pub schema: Option<String>,
    /// Whether an existing table of the same name is tolerated as a no-op.
    pub if_not_exist: bool,
}

impl CreateTableBuilder {
    /// Sets the name of the table to create.
    pub fn name(self, name: String) -> (r: Self)
        ensures
            r.name == Some(name),
            r.columns == self.columns,
            r.primary_key == self.primary_key,
            r.schema == self.schema,
            r.if_not_exist == self.if_not_exist,
    {
        Self {
            name: Some(name),
            columns: self.columns,
            primary_key: self.primary_key,
            schema: self.schema,
            if_not_exist: self.if_not_exist,
        }
    }

    /// Sets the columns of the table: for each, its name, its data type, and
    /// whether its value may be null. Replaces any columns set before.
    pub fn columns(self, fields: Vec<(String, (ColumnDataType, bool))>) -> (r: Self)
        ensures
            r.name == self.name,
            r.columns == fields,
            r.primary_key == self.primary_key,
            r.schema == self.schema,
            r.if_not_exist == self.if_not_exist,
    {
        Self {
            name: self.name,
            columns: fields,
            primary_key: self.primary_key,
            schema: self.schema,
            if_not_exist: self.if_not_exist,
        }
    }

    /// Sets the primary key for this table. Fails with `PrimaryKeyAlreadySet`
    /// if one was already set, and with `ColumnDoesNotExist` if the key names
    /// no declared column, leaving no other trace; on success the named
    /// column's nullability is forced off.
    pub fn primary_key(self, primary_key: PrimaryKey) -> (r: QlResult<Self>)
        ensures
            self.primary_key is Some ==> (r matches Err(e) && e is PrimaryKeyAlreadySet),
            self.primary_key is None && find_column(self.columns@, primary_key@) < 0 ==> (
            r matches Err(e) && e matches QlError::ColumnDoesNotExist { name } && name@
                == primary_key@),
            self.primary_key is None && find_column(self.columns@, primary_key@) >= 0 ==> (
            r matches Ok(b) && {
                &&& b.columns@ == with_pk_forced(self.columns@, Some(primary_key))
                &&& b.primary_key matches Some(p) && p@ == primary_key@
                &&& b.name == self.name
                &&& b.schema == self.schema
                &&& b.if_not_exist == self.if_not_exist
            }),
    {
        if self.primary_key.is_some() {
            return Err(QlError::PrimaryKeyAlreadySet);
        }
        let mut columns = self.columns;
        let found = force_column_nonnull(&mut columns, &primary_key.0);
        if !found {
            return Err(QlError::ColumnDoesNotExist { name: primary_key.0 });
        }
        Ok(
            Self {
                name: self.name,
                columns,
                primary_key: Some(primary_key),
                schema: self.schema,
                if_not_exist: self.if_not_exist,
            },
        )
    }

    /// Sets the parent schema for the table to be created.
    pub fn schema(self, schema: String) -> (r: Self)
        ensures
            r.name == self.name,
            r.columns == self.columns,
            r.primary_key == self.primary_key,
            r.schema == Some(schema),
            r.if_not_exist == self.if_not_exist,
    {
        Self {
            name: self.name,
            columns: self.columns,
            primary_key: self.primary_key,
            schema: Some(schema),
            if_not_exist: self.if_not_exist,
        }
    }

    /// Asks for the table to be created only if it does not exist yet, an
    /// existing one being left alone without error.
    pub fn if_not_exist(self) -> (r: Self)
        ensures
            r.name == self.name,
            r.columns == self.columns,
            r.primary_key == self.primary_key,
            r.schema == self.schema,
            r.if_not_exist == true,
    {
        Self {
            name: self.name,
            columns: self.columns,
            primary_key: self.primary_key,
            schema: self.schema,
            if_not_exist: true,
        }
    }

    /// Consumes the builder and returns a `CREATE TABLE` query. Succeeds
    /// exactly when the name was set; a schema never set defaults to
    /// `PUBLIC`.
    pub fn build(self) -> (r: QlResult<Query>)
        ensures
            r is Ok <==> self.name is Some,
            r matches Ok(q) ==> q.query matches QueryKind::CreateTable(ct) && ({
                &&& Some(ct.name) == self.name
                &&& ct.columns == self.columns
                &&& ct.primary_key == self.primary_key
                &&& (self.schema matches Some(s) ==> ct.schema == s)
                &&& (self.schema is None ==> ct.schema@ == "PUBLIC"@)
                &&& ct.if_not_exist == self.if_not_exist
            }),
            r matches Err(e) ==> e matches QlError::RequiredFieldIsNone { field_name }
                && field_name@ == "name"@,
    {
        if self.name.is_none() {
            return Err(QlError::RequiredFieldIsNone { field_name: String::from_str("name") });
        }
        Ok(
            Query {
                query: QueryKind::CreateTable(
                    CreateTable {
                        name: self.name.unwrap(),
                        columns: self.columns,
                        primary_key: self.primary_key,
                        schema: match self.schema {
                            Some(s) => s,
                            None => String::from_str("PUBLIC"),
                        },
                        if_not_exist: self.if_not_exist,
                    },
                ),
            },
        )
    }
}

} // verus!
