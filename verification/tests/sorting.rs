//! Tests of `SORT BY`: ordering, direction, stability, and its errors.

use qlcache::error::QlError;
use qlcache::ql::constraints::{Constraint, ConstraintNode, ConstraintOp};
use qlcache::ql::select::SelectScope;
use qlcache::ql::sortby::{SortBy, SortOrdering};
use qlcache::ql::{QueryBuilder, QueryResult};
use qlcache::{CacheTableRow, ColumnDataType, ColumnValue, QlCache};

fn rows_of(result: QueryResult) -> Vec<CacheTableRow> {
    match result {
        QueryResult::Rows(rows) => rows,
        QueryResult::Unit => panic!("expected rows"),
    }
}

fn tag_of(row: &CacheTableRow) -> String {
    match row.get(&String::from("tag")) {
        Some(ColumnValue::String(s)) => s.clone(),
        _ => panic!("row without a text tag"),
    }
}

/// A cache with `PUBLIC.T(grp: U64, tag: String)` holding the given rows.
fn grouped_cache(rows: &[(u64, &str)]) -> QlCache {
    let mut cache = QlCache::new();
    let q = QueryBuilder::create()
        .table()
        .name(String::from("T"))
        .columns(vec![
            (String::from("grp"), (ColumnDataType::U64, false)),
            (String::from("tag"), (ColumnDataType::String, false)),
        ])
        .build()
        .unwrap();
    cache.execute(q).unwrap();
    for (grp, tag) in rows {
        cache
            .insert_row(
                &String::from("PUBLIC"),
                &String::from("T"),
                vec![
                    (String::from("grp"), ColumnValue::U64(*grp)),
                    (String::from("tag"), ColumnValue::String(String::from(*tag))),
                ],
            )
            .unwrap();
    }
    cache
}

fn select_sorted(cache: &mut QlCache, columns: Vec<String>, order: SortOrdering) -> Vec<CacheTableRow> {
    let q = QueryBuilder::select()
        .table_name(String::from("T"))
        .scope(SelectScope::Everything)
        .sort_by(SortBy::new(columns, Some(order)).unwrap())
        .build()
        .unwrap();
    rows_of(cache.execute(q).unwrap())
}

#[test]
fn ascending_sort_orders_by_the_key() {
    let mut cache = grouped_cache(&[(3, "c"), (1, "a"), (2, "b")]);
    let rows = select_sorted(&mut cache, vec![String::from("grp")], SortOrdering::Ascending);
    let tags: Vec<String> = rows.iter().map(tag_of).collect();
    assert_eq!(tags, vec!["a", "b", "c"]);
}

#[test]
fn descending_sort_reverses_the_key_order() {
    let mut cache = grouped_cache(&[(3, "c"), (1, "a"), (2, "b")]);
    let rows = select_sorted(&mut cache, vec![String::from("grp")], SortOrdering::Descending);
    let tags: Vec<String> = rows.iter().map(tag_of).collect();
    assert_eq!(tags, vec!["c", "b", "a"]);
}

#[test]
fn text_sort_is_lexicographic() {
    let mut cache = grouped_cache(&[(1, "pear"), (2, "apple"), (3, "plum")]);
    let rows = select_sorted(&mut cache, vec![String::from("tag")], SortOrdering::Ascending);
    let tags: Vec<String> = rows.iter().map(tag_of).collect();
    assert_eq!(tags, vec!["apple", "pear", "plum"]);
}

#[test]
fn multi_column_sort_breaks_ties_with_later_columns() {
    let mut cache = grouped_cache(&[(2, "a"), (1, "b"), (2, "_"), (1, "a")]);
    let rows = select_sorted(
        &mut cache,
        vec![String::from("grp"), String::from("tag")],
        SortOrdering::Ascending,
    );
    let keys: Vec<(u64, String)> = rows
        .iter()
        .map(|r| {
            let grp = match r.get(&String::from("grp")) {
                Some(ColumnValue::U64(g)) => *g,
                _ => panic!("row without a numeric group"),
            };
            (grp, tag_of(r))
        })
        .collect();
    assert_eq!(
        keys,
        vec![
            (1, String::from("a")),
            (1, String::from("b")),
            (2, String::from("_")),
            (2, String::from("a")),
        ]
    );
}

#[test]
fn tied_rows_keep_their_snapshot_order() {
    // rows with equal sort keys keep their original relative order: the tied
    // rows come out of the sorted select in the same relative order as out
    // of the unsorted one, which returns the snapshot order
    let mut cache = grouped_cache(&[(1, "w"), (0, "m"), (1, "x"), (1, "y"), (0, "n"), (1, "z")]);
    let unsorted = {
        let q = QueryBuilder::select()
            .table_name(String::from("T"))
            .scope(SelectScope::Everything)
            .build()
            .unwrap();
        rows_of(cache.execute(q).unwrap())
    };
    let sorted = select_sorted(&mut cache, vec![String::from("grp")], SortOrdering::Ascending);
    for group in [0u64, 1u64] {
        let in_group = |r: &&CacheTableRow| match r.get(&String::from("grp")) {
            Some(ColumnValue::U64(g)) => *g == group,
            _ => false,
        };
        let snapshot_tags: Vec<String> = unsorted.iter().filter(in_group).map(tag_of).collect();
        let sorted_tags: Vec<String> = sorted.iter().filter(in_group).map(tag_of).collect();
        assert_eq!(snapshot_tags, sorted_tags);
    }
    // and re-running the identical sorted select returns the same order
    let again = select_sorted(&mut cache, vec![String::from("grp")], SortOrdering::Ascending);
    let first: Vec<String> = sorted.iter().map(tag_of).collect();
    let second: Vec<String> = again.iter().map(tag_of).collect();
    assert_eq!(first, second);
}

#[test]
fn sorting_by_an_unknown_column_fails() {
    let mut cache = grouped_cache(&[(1, "a"), (2, "b")]);
    let q = QueryBuilder::select()
        .table_name(String::from("T"))
        .scope(SelectScope::Everything)
        .sort_by(SortBy::new(vec![String::from("absent")], None).unwrap())
        .build()
        .unwrap();
    let e = cache.execute(q).unwrap_err();
    assert!(matches!(e, QlError::ColumnDoesNotExist { ref name } if name == "absent"));
}

#[test]
fn sorting_over_null_values_is_a_domain_error() {
    let mut cache = QlCache::new();
    let q = QueryBuilder::create()
        .table()
        .name(String::from("T"))
        .columns(vec![(String::from("v"), (ColumnDataType::U64, true))])
        .build()
        .unwrap();
    cache.execute(q).unwrap();
    cache
        .insert_row(
            &String::from("PUBLIC"),
            &String::from("T"),
            vec![(String::from("v"), ColumnValue::U64(1))],
        )
        .unwrap();
    cache
        .insert_row(
            &String::from("PUBLIC"),
            &String::from("T"),
            vec![(String::from("v"), ColumnValue::Null)],
        )
        .unwrap();
    let q = QueryBuilder::select()
        .table_name(String::from("T"))
        .scope(SelectScope::Everything)
        .sort_by(SortBy::new(vec![String::from("v")], None).unwrap())
        .build()
        .unwrap();
    let e = cache.execute(q).unwrap_err();
    assert!(matches!(e, QlError::IncomparableValues));
}

#[test]
fn sorting_a_single_row_needs_no_comparison() {
    let mut cache = QlCache::new();
    let q = QueryBuilder::create()
        .table()
        .name(String::from("T"))
        .columns(vec![(String::from("v"), (ColumnDataType::U64, true))])
        .build()
        .unwrap();
    cache.execute(q).unwrap();
    cache
        .insert_row(
            &String::from("PUBLIC"),
            &String::from("T"),
            vec![(String::from("v"), ColumnValue::Null)],
        )
        .unwrap();
    let q = QueryBuilder::select()
        .table_name(String::from("T"))
        .scope(SelectScope::Everything)
        .sort_by(SortBy::new(vec![String::from("v")], None).unwrap())
        .build()
        .unwrap();
    assert_eq!(rows_of(cache.execute(q).unwrap()).len(), 1);
}

#[test]
fn filtering_runs_before_sorting() {
    // the null row is filtered out, so the sort over the rest succeeds
    let mut cache = QlCache::new();
    let q = QueryBuilder::create()
        .table()
        .name(String::from("T"))
        .columns(vec![
            (String::from("v"), (ColumnDataType::U64, true)),
            (String::from("tag"), (ColumnDataType::String, false)),
        ])
        .build()
        .unwrap();
    cache.execute(q).unwrap();
    for (v, tag) in [(Some(2u64), "b"), (None, "n"), (Some(1u64), "a")] {
        let value = match v {
            Some(x) => ColumnValue::U64(x),
            None => ColumnValue::Null,
        };
        cache
            .insert_row(
                &String::from("PUBLIC"),
                &String::from("T"),
                vec![
                    (String::from("v"), value),
                    (String::from("tag"), ColumnValue::String(String::from(tag))),
                ],
            )
            .unwrap();
    }
    let q = QueryBuilder::select()
        .table_name(String::from("T"))
        .scope(SelectScope::Everything)
        .constraint(Box::new(ConstraintNode::Leaf(
            Constraint::builder()
                .field_name(String::from("v"))
                .op(ConstraintOp::Ge)
                .value(ColumnValue::U64(0))
                .build()
                .unwrap(),
        )))
        .sort_by(SortBy::new(vec![String::from("v")], None).unwrap())
        .build()
        .unwrap();
    let rows = rows_of(cache.execute(q).unwrap());
    let tags: Vec<String> = rows.iter().map(tag_of).collect();
    assert_eq!(tags, vec!["a", "b"]);
}
