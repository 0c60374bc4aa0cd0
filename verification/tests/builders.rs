//! Tests of the validating query builders.

use qlcache::error::{QlError, QueryError};
use qlcache::ql::constraints::{Constraint, ConstraintNode, ConstraintOp};
use qlcache::ql::create::CreateKind;
use qlcache::ql::key::PrimaryKey;
use qlcache::ql::select::SelectScope;
use qlcache::ql::sortby::{SortBy, SortOrdering};
use qlcache::ql::{QueryBuilder, QueryKind, QueryResult};
use qlcache::{ColumnDataType, ColumnValue, QlCache};

fn leaf(field: &str, op: ConstraintOp, value: ColumnValue) -> Box<ConstraintNode> {
    Box::new(ConstraintNode::Leaf(
        Constraint::builder()
            .field_name(String::from(field))
            .op(op)
            .value(value)
            .build()
            .unwrap(),
    ))
}

#[test]
fn constraint_builder_builds_when_complete() {
    let c = Constraint::builder()
        .field_name(String::from("FieldName"))
        .op(ConstraintOp::Eq)
        .value(ColumnValue::I32(2138))
        .build()
        .unwrap();
    assert_eq!(c.field_name, "FieldName");
    assert!(matches!(c.op, ConstraintOp::Eq));
    assert_eq!(c.value, ColumnValue::I32(2138));
}

#[test]
fn constraint_builder_reports_first_missing_field() {
    let e = Constraint::builder().build().unwrap_err();
    assert!(
        matches!(e, QlError::RequiredFieldIsNone { ref field_name } if field_name == "ConstraintBuilder.field_name")
    );
    let e = Constraint::builder()
        .field_name(String::from("f"))
        .build()
        .unwrap_err();
    assert!(
        matches!(e, QlError::RequiredFieldIsNone { ref field_name } if field_name == "ConstraintBuilder.op")
    );
    let e = Constraint::builder()
        .field_name(String::from("f"))
        .op(ConstraintOp::Lt)
        .build()
        .unwrap_err();
    assert!(
        matches!(e, QlError::RequiredFieldIsNone { ref field_name } if field_name == "ConstraintBuilder.value")
    );
}

#[test]
fn select_builder_requires_table_name_then_scope() {
    let e = QueryBuilder::select().build().unwrap_err();
    assert!(
        matches!(e, QlError::RequiredFieldIsNone { ref field_name } if field_name == "SelectBuilder.table_name")
    );
    let e = QueryBuilder::select()
        .table_name(String::from("T"))
        .build()
        .unwrap_err();
    assert!(
        matches!(e, QlError::RequiredFieldIsNone { ref field_name } if field_name == "SelectBuilder.scope")
    );
}

#[test]
fn chained_constraint_without_base_fails() {
    let c = leaf("f", ConstraintOp::Eq, ColumnValue::I32(1));
    let e = QueryBuilder::select()
        .table_name(String::from("T"))
        .scope(SelectScope::Everything)
        .or(c)
        .unwrap_err();
    assert!(matches!(e, QlError::NoFirstConstraintFoundBeforeAndOr));

    let c = leaf("f", ConstraintOp::Eq, ColumnValue::I32(1));
    let e = QueryBuilder::select()
        .table_name(String::from("T"))
        .scope(SelectScope::Everything)
        .and(c)
        .unwrap_err();
    assert!(matches!(e, QlError::NoFirstConstraintFoundBeforeAndOr));
}

#[test]
fn chained_constraints_nest_left() {
    let b = QueryBuilder::select()
        .table_name(String::from("T"))
        .scope(SelectScope::Everything)
        .constraint(leaf("a", ConstraintOp::Eq, ColumnValue::I32(1)))
        .and(leaf("b", ConstraintOp::Eq, ColumnValue::I32(2)))
        .unwrap()
        .or(leaf("c", ConstraintOp::Eq, ColumnValue::I32(3)))
        .unwrap();
    match b.constraint.as_deref() {
        Some(ConstraintNode::Or(o)) => {
            assert!(matches!(*o.left, ConstraintNode::And(_)));
            assert!(matches!(*o.right, ConstraintNode::Leaf(_)));
        }
        _ => panic!("expected an or node at the root"),
    }
}

#[test]
fn sort_by_rejects_an_empty_column_list() {
    let e = SortBy::new(Vec::new(), None).unwrap_err();
    assert!(
        matches!(e, QlError::VecCannotBeEmpty { ref vec_name } if vec_name == "Sortby.columns")
    );
}

#[test]
fn sort_by_defaults_to_ascending() {
    let s = SortBy::new(vec![String::from("c")], None).unwrap();
    assert!(matches!(s.order, SortOrdering::Ascending));
    let s = SortBy::new(vec![String::from("c")], Some(SortOrdering::Descending)).unwrap();
    assert!(matches!(s.order, SortOrdering::Descending));
}

#[test]
fn primary_key_forces_non_null() {
    // a table with column ("K", U64, nullable) and primary key "K" ends up
    // with "K" non-nullable
    let b = QueryBuilder::create()
        .table()
        .name(String::from("T"))
        .columns(vec![(String::from("K"), (ColumnDataType::U64, true))])
        .primary_key(PrimaryKey::new(String::from("K")))
        .unwrap();
    assert_eq!(b.columns.len(), 1);
    assert_eq!(b.columns[0].0, "K");
    assert!(!b.columns[0].1 .1);

    let query = b.build().unwrap();
    let mut cache = QlCache::new();
    assert!(matches!(
        cache.execute(query).unwrap(),
        QueryResult::Unit
    ));
    let entry = cache.cache.get("PUBLIC").unwrap();
    let table = entry.value().tables.get("T").unwrap();
    assert_eq!(table.value().columns[0].0, "K");
    assert!(!table.value().columns[0].1 .1);
}

#[test]
fn unknown_primary_key_is_rejected() {
    let e = QueryBuilder::create()
        .table()
        .name(String::from("T"))
        .columns(vec![(String::from("K"), (ColumnDataType::U64, true))])
        .primary_key(PrimaryKey::new(String::from("Absent")))
        .unwrap_err();
    assert!(matches!(e, QlError::ColumnDoesNotExist { ref name } if name == "Absent"));
}

#[test]
fn primary_key_cannot_be_set_twice() {
    let e = QueryBuilder::create()
        .table()
        .name(String::from("T"))
        .columns(vec![
            (String::from("A"), (ColumnDataType::U64, true)),
            (String::from("B"), (ColumnDataType::U64, true)),
        ])
        .primary_key(PrimaryKey::new(String::from("A")))
        .unwrap()
        .primary_key(PrimaryKey::new(String::from("B")))
        .unwrap_err();
    assert!(matches!(e, QlError::PrimaryKeyAlreadySet));
}

#[test]
fn create_builder_accumulates_kind_and_object_name() {
    let b = QueryBuilder::create()
        .kind(CreateKind::Table)
        .object_name(String::from("T"));
    assert!(matches!(b.kind, Some(CreateKind::Table)));
    assert_eq!(b.object_name.as_deref(), Some("T"));
}

#[test]
fn create_table_builder_requires_a_name() {
    let e = QueryBuilder::create().table().build().unwrap_err();
    assert!(matches!(e, QlError::RequiredFieldIsNone { ref field_name } if field_name == "name"));
}

#[test]
fn create_table_defaults_to_public_schema() {
    let q = QueryBuilder::create()
        .table()
        .name(String::from("T"))
        .build()
        .unwrap();
    match q.query {
        QueryKind::CreateTable(ct) => assert_eq!(ct.schema, "PUBLIC"),
        _ => panic!("expected a create-table query"),
    }
}

#[test]
fn create_schema_builder_requires_a_name() {
    let e = QueryBuilder::create().schema().build().unwrap_err();
    assert!(
        matches!(e, QlError::RequiredFieldIsNone { ref field_name } if field_name == "CreateSchemaBuilder.name")
    );
}

#[test]
fn execute_time_primary_key_validation_catches_replaced_columns() {
    // setting the primary key first and replacing the columns afterwards
    // leaves a query whose key names no declared column; execution rejects it
    let q = QueryBuilder::create()
        .table()
        .name(String::from("T"))
        .columns(vec![(String::from("K"), (ColumnDataType::U64, true))])
        .primary_key(PrimaryKey::new(String::from("K")))
        .unwrap()
        .columns(vec![(String::from("Other"), (ColumnDataType::U64, true))])
        .build()
        .unwrap();
    let mut cache = QlCache::new();
    let e = cache.execute(q).unwrap_err();
    assert!(matches!(e, QlError::ColumnDoesNotExist { ref name } if name == "K"));
}

#[test]
fn schema_existence_conflict() {
    // success, then a "relation already exists" failure naming the schema
    let mut cache = QlCache::new();
    let q = QueryBuilder::create()
        .schema()
        .name(String::from("S"))
        .build()
        .unwrap();
    assert!(matches!(cache.execute(q).unwrap(), QueryResult::Unit));
    let q = QueryBuilder::create()
        .schema()
        .name(String::from("S"))
        .build()
        .unwrap();
    let e = cache.execute(q).unwrap_err();
    assert!(matches!(
        e,
        QlError::QueryError(QueryError::RelationAlreadyExists { ref name }) if name == "S"
    ));
}

#[test]
fn schema_creation_is_idempotent_with_if_not_exist() {
    let mut cache = QlCache::new();
    for _ in 0..2 {
        let q = QueryBuilder::create()
            .schema()
            .if_not_exist()
            .name(String::from("S"))
            .build()
            .unwrap();
        assert!(matches!(cache.execute(q).unwrap(), QueryResult::Unit));
    }
    // exactly one schema named S exists
    assert!(cache.cache.contains_key("S"));
    assert_eq!(cache.cache.len(), 2); // PUBLIC and S
}

#[test]
fn table_existence_conflict_and_if_not_exist() {
    let mut cache = QlCache::new();
    let make = || {
        QueryBuilder::create()
            .table()
            .name(String::from("T"))
            .columns(vec![(String::from("A"), (ColumnDataType::U64, false))])
            .build()
            .unwrap()
    };
    assert!(matches!(cache.execute(make()).unwrap(), QueryResult::Unit));
    let e = cache.execute(make()).unwrap_err();
    assert!(matches!(
        e,
        QlError::QueryError(QueryError::RelationAlreadyExists { ref name }) if name == "T"
    ));
    let q = QueryBuilder::create()
        .table()
        .if_not_exist()
        .name(String::from("T"))
        .build()
        .unwrap();
    assert!(matches!(cache.execute(q).unwrap(), QueryResult::Unit));
}

#[test]
fn create_table_in_missing_schema_fails() {
    let mut cache = QlCache::new();
    let q = QueryBuilder::create()
        .table()
        .schema(String::from("NoSchema"))
        .name(String::from("T"))
        .build()
        .unwrap();
    let e = cache.execute(q).unwrap_err();
    assert!(matches!(
        e,
        QlError::QueryError(QueryError::RelationDoesNotExist { ref name }) if name == "NoSchema"
    ));
}
