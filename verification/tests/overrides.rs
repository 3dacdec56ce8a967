use csv2parquet::overrides::TypeOverrides;
use csv2parquet::schema::{ColumnType, NumericType};

#[test]
fn a_new_map_is_empty() {
    let m = TypeOverrides::new();
    assert!(m.is_empty());
    assert_eq!(m.len(), 0);
    assert_eq!(m.get("a"), None);
    assert!(!m.contains("a"));
}

#[test]
fn insert_adds_and_replaces() {
    let mut m = TypeOverrides::new();
    assert_eq!(m.insert("a".to_string(), NumericType::Int32), None);
    assert_eq!(m.insert("b".to_string(), NumericType::Float64), None);
    assert_eq!(m.len(), 2);
    assert_eq!(m.insert("a".to_string(), NumericType::Int64), Some(NumericType::Int32));
    assert_eq!(m.len(), 2);
    assert_eq!(m.get("a"), Some(NumericType::Int64));
    assert_eq!(m.get("b"), Some(NumericType::Float64));
    assert!(m.contains("b"));
    assert!(!m.contains("c"));
    assert!(!m.is_empty());
}

#[test]
fn each_width_has_its_column_type() {
    assert_eq!(NumericType::Int32.column_type(), ColumnType::Int32);
    assert_eq!(NumericType::Int64.column_type(), ColumnType::Int64);
    assert_eq!(NumericType::Float32.column_type(), ColumnType::Float32);
    assert_eq!(NumericType::Float64.column_type(), ColumnType::Float64);
}
