//! Tests of `SELECT`: resolution, filtering, and projection.

use qlcache::error::{QlError, QueryError};
use qlcache::ql::constraints::{Constraint, ConstraintNode, ConstraintOp, NotConstraint};
use qlcache::ql::select::SelectScope;
use qlcache::ql::{QueryBuilder, QueryResult};
use qlcache::{CacheTableRow, ColumnDataType, ColumnValue, QlCache};

fn leaf(field: &str, op: ConstraintOp, value: ColumnValue) -> Box<ConstraintNode> {
    Box::new(ConstraintNode::Leaf(
        Constraint::builder()
            .field_name(String::from(field))
            .op(op)
            .value(value)
            .build()
            .unwrap(),
    ))
}

/// A cache with `PUBLIC.T` holding rows `{id:1,name:"a"}` and `{id:2,name:"b"}`.
fn two_row_cache() -> QlCache {
    let mut cache = QlCache::new();
    let q = QueryBuilder::create()
        .table()
        .name(String::from("T"))
        .columns(vec![
            (String::from("id"), (ColumnDataType::U64, false)),
            (String::from("name"), (ColumnDataType::String, false)),
        ])
        .build()
        .unwrap();
    cache.execute(q).unwrap();
    cache
        .insert_row(
            &String::from("PUBLIC"),
            &String::from("T"),
            vec![
                (String::from("id"), ColumnValue::U64(1)),
                (String::from("name"), ColumnValue::String(String::from("a"))),
            ],
        )
        .unwrap();
    cache
        .insert_row(
            &String::from("PUBLIC"),
            &String::from("T"),
            vec![
                (String::from("id"), ColumnValue::U64(2)),
                (String::from("name"), ColumnValue::String(String::from("b"))),
            ],
        )
        .unwrap();
    cache
}

fn rows_of(result: QueryResult) -> Vec<CacheTableRow> {
    match result {
        QueryResult::Rows(rows) => rows,
        QueryResult::Unit => panic!("expected rows"),
    }
}

fn name_of(row: &CacheTableRow) -> String {
    match row.get(&String::from("name")) {
        Some(ColumnValue::String(s)) => s.clone(),
        _ => panic!("row without a text name"),
    }
}

#[test]
fn select_everything_round_trips_both_rows() {
    let mut cache = two_row_cache();
    let q = QueryBuilder::select()
        .table_name(String::from("T"))
        .scope(SelectScope::Everything)
        .build()
        .unwrap();
    let rows = rows_of(cache.execute(q).unwrap());
    assert_eq!(rows.len(), 2);
    let mut names: Vec<String> = rows.iter().map(name_of).collect();
    names.sort();
    assert_eq!(names, vec![String::from("a"), String::from("b")]);
    // full rows come back: each has both cells
    for row in &rows {
        assert_eq!(row.column_values.len(), 2);
        assert_eq!(row.column_values[0].0, "id");
        assert_eq!(row.column_values[1].0, "name");
    }
}

#[test]
fn constraint_filters_to_matching_rows() {
    let mut cache = two_row_cache();
    let q = QueryBuilder::select()
        .table_name(String::from("T"))
        .scope(SelectScope::Everything)
        .constraint(leaf(
            "name",
            ConstraintOp::Eq,
            ColumnValue::String(String::from("a")),
        ))
        .build()
        .unwrap();
    let rows = rows_of(cache.execute(q).unwrap());
    assert_eq!(rows.len(), 1);
    assert_eq!(name_of(&rows[0]), "a");
    assert_eq!(
        rows[0].column_values[0].1,
        ColumnValue::U64(1)
    );
}

#[test]
fn or_constraint_keeps_both_rows() {
    let mut cache = two_row_cache();
    let q = QueryBuilder::select()
        .table_name(String::from("T"))
        .scope(SelectScope::Everything)
        .constraint(leaf(
            "name",
            ConstraintOp::Eq,
            ColumnValue::String(String::from("a")),
        ))
        .or(leaf("id", ConstraintOp::Eq, ColumnValue::U64(2)))
        .unwrap()
        .build()
        .unwrap();
    let rows = rows_of(cache.execute(q).unwrap());
    assert_eq!(rows.len(), 2);
}

#[test]
fn not_constraint_inverts_the_match() {
    let mut cache = two_row_cache();
    let q = QueryBuilder::select()
        .table_name(String::from("T"))
        .scope(SelectScope::Everything)
        .constraint(Box::new(ConstraintNode::Not(NotConstraint::new(leaf(
            "name",
            ConstraintOp::Eq,
            ColumnValue::String(String::from("a")),
        )))))
        .build()
        .unwrap();
    let rows = rows_of(cache.execute(q).unwrap());
    assert_eq!(rows.len(), 1);
    assert_eq!(name_of(&rows[0]), "b");
}

#[test]
fn and_constraint_requires_both_sides() {
    let mut cache = two_row_cache();
    let q = QueryBuilder::select()
        .table_name(String::from("T"))
        .scope(SelectScope::Everything)
        .constraint(leaf(
            "name",
            ConstraintOp::Eq,
            ColumnValue::String(String::from("a")),
        ))
        .and(leaf("id", ConstraintOp::Eq, ColumnValue::U64(2)))
        .unwrap()
        .build()
        .unwrap();
    let rows = rows_of(cache.execute(q).unwrap());
    assert_eq!(rows.len(), 0);
}

#[test]
fn relational_constraints_compare_values() {
    let mut cache = two_row_cache();
    let cases = [
        (ConstraintOp::Gt, ColumnValue::U64(1), 1usize),
        (ConstraintOp::Ge, ColumnValue::U64(1), 2usize),
        (ConstraintOp::Lt, ColumnValue::U64(2), 1usize),
        (ConstraintOp::Le, ColumnValue::U64(2), 2usize),
    ];
    for (op, value, expected) in cases {
        let q = QueryBuilder::select()
            .table_name(String::from("T"))
            .scope(SelectScope::Everything)
            .constraint(leaf("id", op, value))
            .build()
            .unwrap();
        let rows = rows_of(cache.execute(q).unwrap());
        assert_eq!(rows.len(), expected);
    }
}

#[test]
fn type_mismatched_and_missing_field_constraints_match_nothing() {
    let mut cache = two_row_cache();
    // the id column holds U64 values; comparing them against text finds nothing
    let q = QueryBuilder::select()
        .table_name(String::from("T"))
        .scope(SelectScope::Everything)
        .constraint(leaf(
            "id",
            ConstraintOp::Lt,
            ColumnValue::String(String::from("5")),
        ))
        .build()
        .unwrap();
    assert_eq!(rows_of(cache.execute(q).unwrap()).len(), 0);
    // a constraint over a field no row has simply does not match
    let q = QueryBuilder::select()
        .table_name(String::from("T"))
        .scope(SelectScope::Everything)
        .constraint(leaf("absent", ConstraintOp::Eq, ColumnValue::U64(1)))
        .build()
        .unwrap();
    assert_eq!(rows_of(cache.execute(q).unwrap()).len(), 0);
}

#[test]
fn missing_relation_aborts_the_query() {
    let mut cache = two_row_cache();
    let q = QueryBuilder::select()
        .table_name(String::from("NoSuchTable"))
        .scope(SelectScope::Everything)
        .build()
        .unwrap();
    let e = cache.execute(q).unwrap_err();
    assert!(matches!(
        e,
        QlError::QueryError(QueryError::RelationDoesNotExist { ref name }) if name == "NoSuchTable"
    ));
}

#[test]
fn two_part_reference_selects_through_the_named_schema() {
    let mut cache = two_row_cache();
    let q = QueryBuilder::select()
        .table_name(String::from("PUBLIC T"))
        .scope(SelectScope::Everything)
        .build()
        .unwrap();
    assert_eq!(rows_of(cache.execute(q).unwrap()).len(), 2);
}

#[test]
fn two_part_reference_with_missing_schema_names_the_schema_segment() {
    let mut cache = two_row_cache();
    let q = QueryBuilder::select()
        .table_name(String::from("NoSchema T"))
        .scope(SelectScope::Everything)
        .build()
        .unwrap();
    let e = cache.execute(q).unwrap_err();
    assert!(matches!(
        e,
        QlError::QueryError(QueryError::RelationDoesNotExist { ref name }) if name == "NoSchema"
    ));
}

#[test]
fn two_part_reference_with_missing_table_names_the_table_segment() {
    let mut cache = two_row_cache();
    let q = QueryBuilder::select()
        .table_name(String::from("PUBLIC Missing"))
        .scope(SelectScope::Everything)
        .build()
        .unwrap();
    let e = cache.execute(q).unwrap_err();
    assert!(matches!(
        e,
        QlError::QueryError(QueryError::RelationDoesNotExist { ref name }) if name == "Missing"
    ));
}

#[test]
fn projection_reduces_rows_to_the_named_columns() {
    let mut cache = two_row_cache();
    let q = QueryBuilder::select()
        .table_name(String::from("T"))
        .scope(SelectScope::Fields(vec![String::from("name")]))
        .build()
        .unwrap();
    let rows = rows_of(cache.execute(q).unwrap());
    assert_eq!(rows.len(), 2);
    for row in &rows {
        assert_eq!(row.column_values.len(), 1);
        assert_eq!(row.column_values[0].0, "name");
    }
}

#[test]
fn projection_of_an_unknown_column_fails() {
    let mut cache = two_row_cache();
    let q = QueryBuilder::select()
        .table_name(String::from("T"))
        .scope(SelectScope::Fields(vec![String::from("absent")]))
        .build()
        .unwrap();
    let e = cache.execute(q).unwrap_err();
    assert!(matches!(e, QlError::ColumnDoesNotExist { ref name } if name == "absent"));
}
