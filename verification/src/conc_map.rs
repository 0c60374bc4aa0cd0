//! The trusted interface to `dashmap`'s concurrent hash map, which backs every
//! level of the cache hierarchy. Each level gets a name for the entries the
//! map holds and one small wrapper per map operation the crate calls; all
//! contracts speak of those names.

use vstd::prelude::*;

use crate::cache::{CacheSchema, CacheTable, CacheTableRow};

verus! {

#[verifier::external_type_specification]
#[verifier::external_body]
#[verifier::reject_recursive_types(K)]
#[verifier::reject_recursive_types(V)]
#[verifier::reject_recursive_types(S)]
pub struct ExDashMap<K, V, S>(dashmap::DashMap<K, V, S>);

/// The cache-level concurrent map, from schema name to schema.
pub type SchemaMap = dashmap::DashMap<String, CacheSchema>;

/// The schema-level concurrent map, from table name to table.
pub type TableMap = dashmap::DashMap<String, CacheTable>;

/// The table-level concurrent map, from row identity to row.
pub type RowMap = dashmap::DashMap<u64, CacheTableRow>;

/// The schemas a cache-level map holds, keyed by schema name.
pub uninterp spec fn schemas_of(m: SchemaMap) -> Map<Seq<char>, CacheSchema>;

/// The tables a schema-level map holds, keyed by table name.
pub uninterp spec fn tables_of(m: TableMap) -> Map<Seq<char>, CacheTable>;

/// The rows a table-level map holds, keyed by row identity.
pub uninterp spec fn rows_of(m: RowMap) -> Map<u64, CacheTableRow>;

/// Relies on `dashmap::DashMap::new`: a freshly created map holds nothing.
#[verifier::external_body]
pub(crate) fn schemas_new() -> (r: SchemaMap)
    ensures
        schemas_of(r) =~= Map::empty(),
{
    dashmap::DashMap::new()
}

/// Relies on `dashmap::DashMap::insert`: the value is stored under the key,
/// replacing any previous entry for it.
#[verifier::external_body]
pub(crate) fn schemas_insert(m: &mut SchemaMap, k: String, v: CacheSchema)
    ensures
        schemas_of(*final(m)) == schemas_of(*old(m)).insert(k@, v),
{
    m.insert(k, v);
}

/// Relies on `dashmap::DashMap::contains_key`.
#[verifier::external_body]
pub(crate) fn schemas_contains(m: &SchemaMap, k: &String) -> (r: bool)
    ensures
        r == schemas_of(*m).dom().contains(k@),
{
    m.contains_key(k)
}

/// Relies on `dashmap::DashMap::remove`: the entry under the key, if there is
/// one, leaves the map and is handed back.
#[verifier::external_body]
pub(crate) fn schemas_take(m: &mut SchemaMap, k: &String) -> (r: Option<CacheSchema>)
    ensures
        match r {
            Some(v) => schemas_of(*old(m)).dom().contains(k@) && v == schemas_of(*old(m))[k@]
                && schemas_of(*final(m)) == schemas_of(*old(m)).remove(k@),
            None => !schemas_of(*old(m)).dom().contains(k@) && schemas_of(*final(m)) == schemas_of(
                *old(m),
            ),
        },
{
    m.remove(k).map(|e| e.1)
}

/// Relies on `dashmap::DashMap::new`: a freshly created map holds nothing.
#[verifier::external_body]
pub(crate) fn tables_new() -> (r: TableMap)
    ensures
        tables_of(r) =~= Map::empty(),
{
    dashmap::DashMap::new()
}

/// Relies on `dashmap::DashMap::insert`: the value is stored under the key,
/// replacing any previous entry for it.
#[verifier::external_body]
pub(crate) fn tables_insert(m: &mut TableMap, k: String, v: CacheTable)
    ensures
        tables_of(*final(m)) == tables_of(*old(m)).insert(k@, v),
{
    m.insert(k, v);
}

/// Relies on `dashmap::DashMap::contains_key`.
#[verifier::external_body]
pub(crate) fn tables_contains(m: &TableMap, k: &String) -> (r: bool)
    ensures
        r == tables_of(*m).dom().contains(k@),
{
    m.contains_key(k)
}

/// Relies on `dashmap::DashMap::remove`: the entry under the key, if there is
/// one, leaves the map and is handed back.
#[verifier::external_body]
pub(crate) fn tables_take(m: &mut TableMap, k: &String) -> (r: Option<CacheTable>)
    ensures
        match r {
            Some(v) => tables_of(*old(m)).dom().contains(k@) && v == tables_of(*old(m))[k@]
                && tables_of(*final(m)) == tables_of(*old(m)).remove(k@),
            None => !tables_of(*old(m)).dom().contains(k@) && tables_of(*final(m)) == tables_of(
                *old(m),
            ),
        },
{
    m.remove(k).map(|e| e.1)
}

/// Relies on `dashmap::DashMap::new`: a freshly created map holds nothing.
#[verifier::external_body]
pub(crate) fn rows_new() -> (r: RowMap)
    ensures
        rows_of(r) =~= Map::empty(),
{
    dashmap::DashMap::new()
}

/// Relies on `dashmap::DashMap::insert`: the value is stored under the key,
/// replacing any previous entry for it.
#[verifier::external_body]
pub(crate) fn rows_insert(m: &mut RowMap, k: u64, v: CacheTableRow)
    ensures
        rows_of(*final(m)) == rows_of(*old(m)).insert(k, v),
{
    m.insert(k, v);
}

/// Relies on `dashmap::DashMap::iter`: iteration yields every entry the map
/// holds exactly once, in no promised order.
#[verifier::external_body]
pub(crate) fn rows_snapshot(m: &RowMap) -> (r: Vec<(u64, CacheTableRow)>)
    ensures
        forall|i: int|
            0 <= i < r@.len() ==> #[trigger] rows_of(*m).contains_pair(r@[i].0, r@[i].1),
        forall|i: int, j: int| 0 <= i < j < r@.len() ==> r@[i].0 != r@[j].0,
        forall|k: u64|
            #[trigger] rows_of(*m).dom().contains(k) ==> exists|i: int|
                0 <= i < r@.len() && r@[i].0 == k,
{
    m.iter().map(|e| (*e.key(), e.value().clone())).collect()
}

} // verus!
