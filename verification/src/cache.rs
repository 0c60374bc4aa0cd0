//! The cache hierarchy: a cache of schemas, schemas of tables, tables of
//! rows, each level held in a concurrent map keyed by name or row identity.

use vstd::prelude::*;

use crate::conc_map::{
    rows_insert,
    rows_of,
    schemas_insert,
    schemas_new,
    schemas_of,
    schemas_take,
    tables_insert,
    tables_new,
    tables_of,
    tables_take,
    RowMap,
    SchemaMap,
    TableMap,
};
use crate::error::{QlError, QlResult, QueryError};
use crate::ql::key::PrimaryKey;
use crate::ql::{query_post, Query, QueryResult};
use crate::value::{check_value_fits, value_fits, ColumnDataType, ColumnValue, ValueModel};

verus! {

/// A concurrently accessible object-relational in-memory cache.
pub struct QlCache {
    /// The schemas of the cache, keyed by schema name.
    pub cache: SchemaMap,
}

/// A schema in the cache: a named namespace of tables.
pub struct CacheSchema {
    /// The name of the schema.
    pub name: String,
    /// The tables of the schema, keyed by table name.
    pub tables: TableMap,
}

/// A table in the cache.
pub struct CacheTable {
    /// The name of the table.
    pub name: String,
    /// The columns of the table in declaration order: name, data type, and
    /// whether the value may be null.
    pub columns: Vec<(String, (ColumnDataType, bool))>,
    /// The designated primary-key column, if one was set.
    pub primary_key: Option<PrimaryKey>,
    /// The rows of the table, keyed by row identity.
    pub rows: RowMap,
    /// The next row identity to hand out; identities grow monotonically and
    /// are never reused within the table's lifetime.
    pub next_row_id: u64,
}

/// A row in a table: one value per declared column, in declaration order.
#[derive(Debug)]
pub struct CacheTableRow {
    /// The values of each column of this row.
    pub column_values: Vec<(String, ColumnValue)>,
}

/// The model of a row's cells: names as character sequences, values as their
/// mathematical models, order kept.
pub open spec fn row_cells(cells: Seq<(String, ColumnValue)>) -> Seq<(Seq<char>, ValueModel)> {
    cells.map_values(|c: (String, ColumnValue)| (c.0@, c.1@))
}

impl View for CacheTableRow {
    type V = Seq<(Seq<char>, ValueModel)>;

    open spec fn view(&self) -> Seq<(Seq<char>, ValueModel)> {
        row_cells(self.column_values@)
    }
}

/// The value a row associates with a field name; with a repeated name the
/// latest cell wins, mirroring insertion into a mapping.
pub open spec fn row_lookup(cells: Seq<(Seq<char>, ValueModel)>, name: Seq<char>) -> Option<
    ValueModel,
>
    decreases cells.len(),
{
    if cells.len() == 0 {
        None
    } else if cells.last().0 == name {
        Some(cells.last().1)
    } else {
        row_lookup(cells.drop_last(), name)
    }
}

impl CacheTableRow {
    /// Fetches the value of the named field, if the row has one.
    pub fn get(&self, name: &String) -> (r: Option<&ColumnValue>)
        ensures
            match r {
                Some(v) => row_lookup(self@, name@) == Some(v@),
                None => row_lookup(self@, name@) is None,
            },
    {
        let n = self.column_values.len();
        let mut i: usize = n;
        proof {
            assert(self@.take(n as int) =~= self@);
        }
        while i > 0
            invariant
                i <= n,
                n == self.column_values@.len(),
                self@.len() == n,
                row_lookup(self@, name@) == row_lookup(self@.take(i as int), name@),
            decreases i,
        {
            i = i - 1;
            proof {
                assert(self@.take(i as int + 1).last() == self@[i as int]);
                assert(self@.take(i as int + 1).drop_last() =~= self@.take(i as int));
                assert(self@[i as int].0 == self.column_values@[i as int].0@);
            }
            if self.column_values[i].0.eq(name) {
                return Some(&self.column_values[i].1);
            }
        }
        proof {
            assert(self@.take(0).len() == 0);
        }
        None
    }
}

impl Clone for CacheTableRow {
    fn clone(&self) -> (r: Self)
        ensures
            r.column_values@ == self.column_values@,
            r@ == self@,
    {
        let n = self.column_values.len();
        let mut cells: Vec<(String, ColumnValue)> = Vec::new();
        let mut i: usize = 0;
        while i < n
            invariant
                i <= n,
                n == self.column_values@.len(),
                cells@.len() == i,
                forall|j: int| 0 <= j < i ==> cells@[j] == self.column_values@[j],
            decreases n - i,
        {
            let c = &self.column_values[i];
            cells.push((c.0.clone(), c.1.clone()));
            i = i + 1;
        }
        proof {
            assert(cells@ =~= self.column_values@);
        }
        CacheTableRow { column_values: cells }
    }
}

/// Whether a row's cells agree with a table's declared columns: one cell per
/// column, same names in the same order, each value allowed by the column's
/// data type and nullability.
pub open spec fn row_matches_columns(
    cells: Seq<(Seq<char>, ValueModel)>,
    cols: Seq<(String, (ColumnDataType, bool))>,
) -> bool {
    &&& cells.len() == cols.len()
    &&& forall|i: int|
        0 <= i < cells.len() ==> (#[trigger] cells[i]).0 == cols[i].0@ && value_fits(
            cells[i].1,
            cols[i].1.0,
            cols[i].1.1,
        )
}

/// The internal invariant of a table: a set primary key names a declared
/// column whose nullability is off, every stored row agrees with the
/// declared columns, and every handed-out row identity stays below the next
/// one, so identities are never reused.
pub open spec fn wf_table(t: CacheTable) -> bool {
    &&& (t.primary_key matches Some(k) ==> exists|i: int|
        0 <= i < t.columns@.len() && (#[trigger] t.columns@[i]).0@ == k@ && t.columns@[i].1.1
            == false)
    &&& forall|id: u64|
        #[trigger] rows_of(t.rows).dom().contains(id) ==> row_matches_columns(
            rows_of(t.rows)[id]@,
            t.columns@,
        ) && id < t.next_row_id
}

/// The internal invariant of a schema: every table sits under its own name
/// and satisfies the table invariant.
pub open spec fn wf_schema(s: CacheSchema) -> bool {
    forall|n: Seq<char>|
        #[trigger] tables_of(s.tables).dom().contains(n) ==> tables_of(s.tables)[n].name@ == n
            && wf_table(tables_of(s.tables)[n])
}

/// Whether two schema maps hold the same observable contents: the same
/// schema names, and each schema with the same name and the same tables.
pub open spec fn same_contents(
    m1: Map<Seq<char>, CacheSchema>,
    m2: Map<Seq<char>, CacheSchema>,
) -> bool {
    &&& m1.dom() =~= m2.dom()
    &&& forall|n: Seq<char>|
        #[trigger] m1.dom().contains(n) ==> m1[n].name@ == m2[n].name@ && tables_of(m1[n].tables)
            =~= tables_of(m2[n].tables)
}

/// The invariant of a whole schema map: the `PUBLIC` schema exists, and
/// every schema sits under its own name and satisfies the schema invariant.
pub open spec fn wf_schemas(m: Map<Seq<char>, CacheSchema>) -> bool {
    &&& m.dom().contains("PUBLIC"@)
    &&& forall|n: Seq<char>|
        #[trigger] m.dom().contains(n) ==> m[n].name@ == n && wf_schema(m[n])
}

/// Observably equal contents preserve the cache invariant.
pub proof fn lemma_same_contents_wf(
    m1: Map<Seq<char>, CacheSchema>,
    m2: Map<Seq<char>, CacheSchema>,
)
    requires
        wf_schemas(m1),
        same_contents(m1, m2),
    ensures
        wf_schemas(m2),
{
    assert forall|n: Seq<char>|
        #[trigger] m2.dom().contains(n) implies m2[n].name@ == n && wf_schema(m2[n]) by {
        assert(m1.dom().contains(n));
        assert(tables_of(m1[n].tables) =~= tables_of(m2[n].tables));
    }
}

impl QlCache {
    /// The schemas the cache holds, keyed by name.
    pub open spec fn schemas(&self) -> Map<Seq<char>, CacheSchema> {
        schemas_of(self.cache)
    }

    /// The internal invariant of the cache: the `PUBLIC` schema exists, and
    /// every schema sits under its own name and satisfies the schema
    /// invariant.
    pub open spec fn wf(&self) -> bool {
        wf_schemas(self.schemas())
    }

    /// Creates a new cache holding exactly one empty schema named `PUBLIC`.
    pub fn new() -> (r: Self)
        ensures
            r.wf(),
            r.schemas().dom() =~= Set::<Seq<char>>::empty().insert("PUBLIC"@),
            tables_of(r.schemas()["PUBLIC"@].tables) == Map::<Seq<char>, CacheTable>::empty(),
    {
        let mut dashmap = schemas_new();
        let default_schema = String::from_str("PUBLIC");

        schemas_insert(&mut dashmap, default_schema.clone(), CacheSchema::new(default_schema));

        Self { cache: dashmap }
    }
}

impl Default for QlCache {
    fn default() -> (r: Self)
        ensures
            r.wf(),
            r.schemas().dom() =~= Set::<Seq<char>>::empty().insert("PUBLIC"@),
            tables_of(r.schemas()["PUBLIC"@].tables) == Map::<Seq<char>, CacheTable>::empty(),
    {
        Self::new()
    }
}

impl CacheSchema {
    /// Creates a new, empty schema with the given name.
    pub fn new(name: String) -> (r: Self)
        ensures
            r.name == name,
            tables_of(r.tables) == Map::<Seq<char>, CacheTable>::empty(),
    {
        Self { name, tables: tables_new() }
    }
}

/// What inserting a row into the named table does. An absent schema or table
/// is an error; a row that does not agree with the declared columns is an
/// error; otherwise the row is stored under a fresh identity, the table's
/// next one, and nothing else moves.
pub open spec fn insert_row_post(
    pre: Map<Seq<char>, CacheSchema>,
    post: Map<Seq<char>, CacheSchema>,
    schema: Seq<char>,
    table: Seq<char>,
    cells: Seq<(Seq<char>, ValueModel)>,
    r: QlResult<u64>,
) -> bool {
    if !pre.dom().contains(schema) {
        &&& r matches Err(e) && e matches QlError::QueryError(qe) && qe matches
            QueryError::RelationDoesNotExist { name } && name@ == schema
        &&& same_contents(pre, post)
    } else if !tables_of(pre[schema].tables).dom().contains(table) {
        &&& r matches Err(e) && e matches QlError::QueryError(qe) && qe matches
            QueryError::RelationDoesNotExist { name } && name@ == table
        &&& same_contents(pre, post)
    } else {
        let t = tables_of(pre[schema].tables)[table];
        if !row_matches_columns(cells, t.columns@) {
            &&& r matches Err(e) && e is RowDoesNotMatchColumns
            &&& same_contents(pre, post)
        } else if t.next_row_id == u64::MAX {
            &&& r matches Err(e) && e is RowIdentifiersExhausted
            &&& same_contents(pre, post)
        } else {
            &&& r matches Ok(id) && id == t.next_row_id
            &&& post.dom() =~= pre.dom()
            &&& (forall|n: Seq<char>|
                #[trigger] pre.dom().contains(n) && n != schema ==> post[n] == pre[n])
            &&& post[schema].name@ == pre[schema].name@
            &&& ({
                let tm = tables_of(pre[schema].tables);
                let tm2 = tables_of(post[schema].tables);
                &&& tm2.dom() =~= tm.dom()
                &&& (forall|t2: Seq<char>|
                    #[trigger] tm.dom().contains(t2) && t2 != table ==> tm2[t2] == tm[t2])
                &&& tm2[table].name@ == t.name@
                &&& tm2[table].columns@ == t.columns@
                &&& tm2[table].primary_key == t.primary_key
                &&& tm2[table].next_row_id == t.next_row_id + 1
                &&& rows_of(tm2[table].rows).dom() =~= rows_of(t.rows).dom().insert(
                    t.next_row_id,
                )
                &&& (forall|id: u64|
                    #[trigger] rows_of(t.rows).dom().contains(id) && id != t.next_row_id
                        ==> rows_of(tm2[table].rows)[id] == rows_of(t.rows)[id])
                &&& rows_of(tm2[table].rows)[t.next_row_id]@ == cells
            })
        }
    }
}

/// Whether a row's cells agree with the declared columns: same count, same
/// names in order, each value allowed by its column.
fn check_row_matches(
    values: &Vec<(String, ColumnValue)>,
    cols: &Vec<(String, (ColumnDataType, bool))>,
) -> (r: bool)
    ensures
        r == row_matches_columns(row_cells(values@), cols@),
{
    let n = values.len();
    if n != cols.len() {
        return false;
    }
    let mut i: usize = 0;
    while i < n
        invariant
            0 <= i <= n,
            n == values@.len(),
            n == cols@.len(),
            forall|j: int|
                0 <= j < i ==> (#[trigger] row_cells(values@)[j]).0 == cols@[j].0@ && value_fits(
                    row_cells(values@)[j].1,
                    cols@[j].1.0,
                    cols@[j].1.1,
                ),
        decreases n - i,
    {
        proof {
            assert(row_cells(values@)[i as int] == (values@[i as int].0@, values@[i as int].1@));
        }
        if !values[i].0.eq(&cols[i].0) {
            return false;
        }
        if !check_value_fits(&values[i].1, &cols[i].1.0, cols[i].1.1) {
            return false;
        }
        i = i + 1;
    }
    true
}

impl QlCache {
    /// Executes a query: the single entry point of the cache. Dispatches by
    /// query kind to the creation and selection engines.
    pub fn execute(&mut self, query: Query) -> (r: QlResult<QueryResult>)
        requires
            old(self).wf(),
        ensures
            final(self).wf(),
            query_post(old(self).schemas(), final(self).schemas(), query, r),
    {
        query.execute(self)
    }

    /// Inserts a row into the named table of the named schema, assigning it
    /// the table's next row identity. The row must carry one value per
    /// declared column, in declaration order, each allowed by its column's
    /// data type and nullability.
    pub fn insert_row(
        &mut self,
        schema: &String,
        table: &String,
        values: Vec<(String, ColumnValue)>,
    ) -> (r: QlResult<u64>)
        requires
            old(self).wf(),
        ensures
            final(self).wf(),
            insert_row_post(
                old(self).schemas(),
                final(self).schemas(),
                schema@,
                table@,
                row_cells(values@),
                r,
            ),
    {
        let ghost pre = old(self).schemas();
        let mut schema_val = match schemas_take(&mut self.cache, schema) {
            Some(s) => s,
            None => {
                return Err(
                    QlError::QueryError(
                        QueryError::RelationDoesNotExist { name: schema.clone() },
                    ),
                );
            },
        };
        let mut table_val = match tables_take(&mut schema_val.tables, table) {
            Some(t) => t,
            None => {
                let skey = schema_val.name.clone();
                schemas_insert(&mut self.cache, skey, schema_val);
                proof {
                    assert(self.schemas().dom() =~= pre.dom());
                    assert(same_contents(pre, self.schemas()));
                    lemma_same_contents_wf(pre, self.schemas());
                }
                return Err(
                    QlError::QueryError(QueryError::RelationDoesNotExist { name: table.clone() }),
                );
            },
        };
        let ghost t0 = tables_of(pre[schema@].tables)[table@];
        if !check_row_matches(&values, &table_val.columns) {
            let tkey = table_val.name.clone();
            tables_insert(&mut schema_val.tables, tkey, table_val);
            let skey = schema_val.name.clone();
            schemas_insert(&mut self.cache, skey, schema_val);
            proof {
                assert(self.schemas().dom() =~= pre.dom());
                assert(tables_of(self.schemas()[schema@].tables) =~= tables_of(
                    pre[schema@].tables,
                ));
                assert(same_contents(pre, self.schemas()));
                lemma_same_contents_wf(pre, self.schemas());
            }
            return Err(QlError::RowDoesNotMatchColumns);
        }
        if table_val.next_row_id == u64::MAX {
            let tkey = table_val.name.clone();
            tables_insert(&mut schema_val.tables, tkey, table_val);
            let skey = schema_val.name.clone();
            schemas_insert(&mut self.cache, skey, schema_val);
            proof {
                assert(self.schemas().dom() =~= pre.dom());
                assert(tables_of(self.schemas()[schema@].tables) =~= tables_of(
                    pre[schema@].tables,
                ));
                assert(same_contents(pre, self.schemas()));
                lemma_same_contents_wf(pre, self.schemas());
            }
            return Err(QlError::RowIdentifiersExhausted);
        }
        let id = table_val.next_row_id;
        table_val.next_row_id = id + 1;
        let ghost cells0 = values@;
        rows_insert(&mut table_val.rows, id, CacheTableRow { column_values: values });
        let tkey = table_val.name.clone();
        tables_insert(&mut schema_val.tables, tkey, table_val);
        let skey = schema_val.name.clone();
        schemas_insert(&mut self.cache, skey, schema_val);
        proof {
            let post = self.schemas();
            assert(post.dom() =~= pre.dom());
            assert(tables_of(post[schema@].tables).dom() =~= tables_of(
                pre[schema@].tables,
            ).dom());
            assert(rows_of(tables_of(post[schema@].tables)[table@].rows).dom() =~= rows_of(
                t0.rows,
            ).dom().insert(id));
            assert forall|n: Seq<char>| #[trigger] post.dom().contains(n) implies post[n].name@
                == n && wf_schema(post[n]) by {
                assert(pre.dom().contains(n));
                if n == schema@ {
                    let tm = tables_of(pre[n].tables);
                    let tm2 = tables_of(post[n].tables);
                    assert forall|t2: Seq<char>| #[trigger] tm2.dom().contains(t2) implies tm2[t2].name@
                        == t2 && wf_table(tm2[t2]) by {
                        if t2 != table@ {
                            assert(tm.dom().contains(t2));
                        } else {
                            let nt = tm2[t2];
                            assert(nt.columns@ == t0.columns@);
                            assert(nt.next_row_id == id + 1);
                            assert forall|id2: u64|
                                #[trigger] rows_of(nt.rows).dom().contains(
                                    id2,
                                ) implies row_matches_columns(rows_of(nt.rows)[id2]@, nt.columns@)
                                && id2 < nt.next_row_id by {
                                if id2 == id {
                                    assert(rows_of(nt.rows)[id2]@ == row_cells(cells0));
                                } else {
                                    assert(rows_of(t0.rows).dom().contains(id2));
                                    assert(rows_of(nt.rows)[id2] == rows_of(t0.rows)[id2]);
                                }
                            }
                        }
                    }
                }
            }
        }
        Ok(id)
    }
}

} // verus!
