//! Tests of the typed column-value model: equality, ordering, and typing.

use qlcache::check_value_fits;
use qlcache::error::QlError;
use qlcache::{compare_values, ColumnDataType, ColumnValue, ValueOrdering};

#[test]
fn value_equality_is_type_strict() {
    assert_eq!(ColumnValue::I32(5), ColumnValue::I32(5));
    assert_ne!(ColumnValue::I32(5), ColumnValue::I64(5));
    assert_ne!(ColumnValue::U8(1), ColumnValue::I8(1));
    assert_eq!(
        ColumnValue::String(String::from("abc")),
        ColumnValue::String(String::from("abc"))
    );
    assert_ne!(
        ColumnValue::String(String::from("abc")),
        ColumnValue::String(String::from("abd"))
    );
    assert_eq!(ColumnValue::Null, ColumnValue::Null);
    assert_ne!(ColumnValue::Null, ColumnValue::I8(0));
}

#[test]
fn numeric_ordering_follows_native_order() {
    assert_eq!(
        compare_values(&ColumnValue::I32(-3), &ColumnValue::I32(4)).unwrap(),
        ValueOrdering::Less
    );
    assert_eq!(
        compare_values(&ColumnValue::I32(4), &ColumnValue::I32(4)).unwrap(),
        ValueOrdering::Equal
    );
    assert_eq!(
        compare_values(&ColumnValue::U64(10), &ColumnValue::U64(2)).unwrap(),
        ValueOrdering::Greater
    );
    assert_eq!(
        compare_values(&ColumnValue::I128(-1), &ColumnValue::I128(1)).unwrap(),
        ValueOrdering::Less
    );
    assert_eq!(
        compare_values(&ColumnValue::U128(7), &ColumnValue::U128(7)).unwrap(),
        ValueOrdering::Equal
    );
    assert_eq!(
        compare_values(&ColumnValue::I8(-128), &ColumnValue::I8(127)).unwrap(),
        ValueOrdering::Less
    );
}

#[test]
fn text_ordering_is_lexicographic() {
    let s = |t: &str| ColumnValue::String(String::from(t));
    assert_eq!(compare_values(&s("abc"), &s("abd")).unwrap(), ValueOrdering::Less);
    assert_eq!(compare_values(&s("abc"), &s("abc")).unwrap(), ValueOrdering::Equal);
    assert_eq!(compare_values(&s("b"), &s("abc")).unwrap(), ValueOrdering::Greater);
    assert_eq!(compare_values(&s(""), &s("a")).unwrap(), ValueOrdering::Less);
    assert_eq!(compare_values(&s("ab"), &s("a")).unwrap(), ValueOrdering::Greater);
    assert_eq!(compare_values(&s("Z"), &s("a")).unwrap(), ValueOrdering::Less);
}

#[test]
fn cross_type_ordering_is_a_domain_error() {
    let r = compare_values(&ColumnValue::I32(1), &ColumnValue::I64(1));
    assert!(matches!(r, Err(QlError::IncomparableValues)));
    let r = compare_values(&ColumnValue::Null, &ColumnValue::Null);
    assert!(matches!(r, Err(QlError::IncomparableValues)));
    let r = compare_values(&ColumnValue::Null, &ColumnValue::I32(1));
    assert!(matches!(r, Err(QlError::IncomparableValues)));
    let r = compare_values(
        &ColumnValue::String(String::from("1")),
        &ColumnValue::U8(1),
    );
    assert!(matches!(r, Err(QlError::IncomparableValues)));
}

#[test]
fn check_value_fits_is_type_strict_and_null_aware() {
    assert!(check_value_fits(&ColumnValue::U64(3), &ColumnDataType::U64, false));
    assert!(!check_value_fits(&ColumnValue::U64(3), &ColumnDataType::U32, false));
    assert!(!check_value_fits(
        &ColumnValue::String(String::from("x")),
        &ColumnDataType::U64,
        true
    ));
    assert!(check_value_fits(&ColumnValue::Null, &ColumnDataType::U64, true));
    assert!(!check_value_fits(&ColumnValue::Null, &ColumnDataType::U64, false));
}
