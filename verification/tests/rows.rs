//! Tests of row insertion, row identities, and row lookup.

use qlcache::error::{QlError, QueryError};
use qlcache::ql::key::PrimaryKey;
use qlcache::ql::QueryBuilder;
use qlcache::{CacheTableRow, ColumnDataType, ColumnValue, QlCache};

fn cache_with_table() -> QlCache {
    let mut cache = QlCache::new();
    let q = QueryBuilder::create()
        .table()
        .name(String::from("T"))
        .columns(vec![
            (String::from("id"), (ColumnDataType::U64, false)),
            (String::from("note"), (ColumnDataType::String, true)),
        ])
        .build()
        .unwrap();
    cache.execute(q).unwrap();
    cache
}

fn a_row(id: u64) -> Vec<(String, ColumnValue)> {
    vec![
        (String::from("id"), ColumnValue::U64(id)),
        (String::from("note"), ColumnValue::String(String::from("n"))),
    ]
}

#[test]
fn row_identities_grow_monotonically_from_zero() {
    let mut cache = cache_with_table();
    let public = String::from("PUBLIC");
    let table = String::from("T");
    assert_eq!(cache.insert_row(&public, &table, a_row(10)).unwrap(), 0);
    assert_eq!(cache.insert_row(&public, &table, a_row(11)).unwrap(), 1);
    assert_eq!(cache.insert_row(&public, &table, a_row(12)).unwrap(), 2);
}

#[test]
fn insert_into_missing_relations_fails() {
    let mut cache = cache_with_table();
    let e = cache
        .insert_row(&String::from("NoSchema"), &String::from("T"), a_row(1))
        .unwrap_err();
    assert!(matches!(
        e,
        QlError::QueryError(QueryError::RelationDoesNotExist { ref name }) if name == "NoSchema"
    ));
    let e = cache
        .insert_row(&String::from("PUBLIC"), &String::from("NoTable"), a_row(1))
        .unwrap_err();
    assert!(matches!(
        e,
        QlError::QueryError(QueryError::RelationDoesNotExist { ref name }) if name == "NoTable"
    ));
}

#[test]
fn rows_must_match_the_declared_columns() {
    let mut cache = cache_with_table();
    let public = String::from("PUBLIC");
    let table = String::from("T");
    // wrong arity
    let e = cache
        .insert_row(
            &public,
            &table,
            vec![(String::from("id"), ColumnValue::U64(1))],
        )
        .unwrap_err();
    assert!(matches!(e, QlError::RowDoesNotMatchColumns));
    // wrong column name
    let e = cache
        .insert_row(
            &public,
            &table,
            vec![
                (String::from("wrong"), ColumnValue::U64(1)),
                (String::from("note"), ColumnValue::Null),
            ],
        )
        .unwrap_err();
    assert!(matches!(e, QlError::RowDoesNotMatchColumns));
    // wrong value type
    let e = cache
        .insert_row(
            &public,
            &table,
            vec![
                (String::from("id"), ColumnValue::I64(1)),
                (String::from("note"), ColumnValue::Null),
            ],
        )
        .unwrap_err();
    assert!(matches!(e, QlError::RowDoesNotMatchColumns));
    // null in a non-nullable column
    let e = cache
        .insert_row(
            &public,
            &table,
            vec![
                (String::from("id"), ColumnValue::Null),
                (String::from("note"), ColumnValue::Null),
            ],
        )
        .unwrap_err();
    assert!(matches!(e, QlError::RowDoesNotMatchColumns));
    // null in a nullable column is allowed
    cache
        .insert_row(
            &public,
            &table,
            vec![
                (String::from("id"), ColumnValue::U64(1)),
                (String::from("note"), ColumnValue::Null),
            ],
        )
        .unwrap();
}

#[test]
fn primary_key_column_rejects_null_after_forcing() {
    let mut cache = QlCache::new();
    let q = QueryBuilder::create()
        .table()
        .name(String::from("K"))
        .columns(vec![(String::from("K"), (ColumnDataType::U64, true))])
        .primary_key(PrimaryKey::new(String::from("K")))
        .unwrap()
        .build()
        .unwrap();
    cache.execute(q).unwrap();
    let e = cache
        .insert_row(
            &String::from("PUBLIC"),
            &String::from("K"),
            vec![(String::from("K"), ColumnValue::Null)],
        )
        .unwrap_err();
    assert!(matches!(e, QlError::RowDoesNotMatchColumns));
}

#[test]
fn row_get_finds_fields_by_name() {
    let row = CacheTableRow {
        column_values: vec![
            (String::from("a"), ColumnValue::U64(1)),
            (String::from("b"), ColumnValue::String(String::from("x"))),
        ],
    };
    assert_eq!(row.get(&String::from("a")), Some(&ColumnValue::U64(1)));
    assert_eq!(
        row.get(&String::from("b")),
        Some(&ColumnValue::String(String::from("x")))
    );
    assert_eq!(row.get(&String::from("c")), None);
}

#[test]
fn row_clone_preserves_the_cells() {
    let row = CacheTableRow {
        column_values: vec![(String::from("a"), ColumnValue::U64(1))],
    };
    let copy = row.clone();
    assert_eq!(copy.column_values, row.column_values);
}
