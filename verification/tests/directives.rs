use csv2parquet::directives::{consolidate_types, ConfigConflict, Consolidated, TypeDirectives};
use csv2parquet::schema::NumericType;

fn list(names: &[&str]) -> Option<Vec<String>> {
    Some(names.iter().map(|n| n.to_string()).collect())
}

fn given(int32: &[&str], int64: &[&str], float32: &[&str], float64: &[&str]) -> TypeDirectives {
    TypeDirectives {
        int32: list(int32),
        int64: list(int64),
        float32: list(float32),
        float64: list(float64),
    }
}

fn accepted(d: &TypeDirectives) -> Consolidated {
    match consolidate_types(d) {
        Ok(c) => c,
        Err(e) => panic!("turned down: {}", e.message()),
    }
}

fn refused(d: &TypeDirectives) -> ConfigConflict {
    match consolidate_types(d) {
        Ok(_) => panic!("accepted"),
        Err(e) => e,
    }
}

#[test]
fn no_lists_give_the_built_in_defaults() {
    let d = TypeDirectives { int32: None, int64: None, float32: None, float64: None };
    let c = accepted(&d);
    assert!(c.overrides.is_empty());
    assert_eq!(c.overrides.len(), 0);
    assert_eq!(c.default_int, NumericType::Int64);
    assert_eq!(c.default_float, NumericType::Float32);
}

#[test]
fn empty_lists_give_the_built_in_defaults() {
    let c = accepted(&given(&[], &[], &[], &[]));
    assert!(c.overrides.is_empty());
    assert_eq!(c.default_int, NumericType::Int64);
    assert_eq!(c.default_float, NumericType::Float32);
}

#[test]
fn distinct_names_are_all_recorded() {
    let c = accepted(&given(&["a", "b"], &["c"], &["d"], &["e", "f"]));
    assert_eq!(c.overrides.len(), 6);
    assert_eq!(c.overrides.get("a"), Some(NumericType::Int32));
    assert_eq!(c.overrides.get("b"), Some(NumericType::Int32));
    assert_eq!(c.overrides.get("c"), Some(NumericType::Int64));
    assert_eq!(c.overrides.get("d"), Some(NumericType::Float32));
    assert_eq!(c.overrides.get("e"), Some(NumericType::Float64));
    assert_eq!(c.overrides.get("f"), Some(NumericType::Float64));
    assert_eq!(c.overrides.get("g"), None);
    assert_eq!(c.default_int, NumericType::Int64);
    assert_eq!(c.default_float, NumericType::Float32);
}

#[test]
fn a_single_given_list_is_recorded() {
    let d = TypeDirectives { int32: None, int64: None, float32: list(&["x"]), float64: None };
    let c = accepted(&d);
    assert_eq!(c.overrides.len(), 1);
    assert_eq!(c.overrides.get("x"), Some(NumericType::Float32));
}

#[test]
fn names_are_case_sensitive() {
    let c = accepted(&given(&["a"], &["A"], &[], &[]));
    assert_eq!(c.overrides.get("a"), Some(NumericType::Int32));
    assert_eq!(c.overrides.get("A"), Some(NumericType::Int64));
}

#[test]
fn int_wildcard_in_both_lists_is_refused() {
    let e = refused(&given(&["*"], &["__all__"], &[], &[]));
    assert!(matches!(e, ConfigConflict::IntDefaultTwice));
    assert_eq!(e.message(), "i32 and i64 can't both be the default data types for integers");
}

#[test]
fn int_wildcard_in_both_lists_is_refused_among_other_entries() {
    let e = refused(&given(&["a", "__all__", "b"], &["c", "*"], &["d"], &["*"]));
    assert!(matches!(e, ConfigConflict::IntDefaultTwice));
}

#[test]
fn float_wildcard_in_both_lists_is_refused() {
    let e = refused(&given(&[], &[], &["*"], &["*"]));
    assert!(matches!(e, ConfigConflict::FloatDefaultTwice));
    assert_eq!(e.message(), "f32 and f64 can't both be the default data types for floats");
}

#[test]
fn int_wildcards_are_reported_before_float_wildcards() {
    let e = refused(&given(&["*"], &["*"], &["*"], &["*"]));
    assert!(matches!(e, ConfigConflict::IntDefaultTwice));
}

#[test]
fn wildcards_are_reported_before_repeated_names() {
    let e = refused(&given(&["a"], &["a"], &["__all__"], &["*"]));
    assert!(matches!(e, ConfigConflict::FloatDefaultTwice));
}

#[test]
fn name_in_both_int_lists_is_refused() {
    let e = refused(&given(&["a"], &["a"], &[], &[]));
    match &e {
        ConfigConflict::Duplicate(name) => assert_eq!(name, "a"),
        other => panic!("unexpected conflict: {:?}", other),
    }
    assert_eq!(e.message(), "Data type for column `a' was specified multiple times");
}

#[test]
fn name_repeated_in_the_first_list_is_accepted() {
    let c = accepted(&given(&["a", "a"], &[], &[], &[]));
    assert_eq!(c.overrides.len(), 1);
    assert_eq!(c.overrides.get("a"), Some(NumericType::Int32));
}

#[test]
fn name_repeated_in_a_later_list_is_refused() {
    let e = refused(&given(&[], &["a", "a"], &[], &[]));
    assert!(matches!(e, ConfigConflict::Duplicate(ref n) if n == "a"));
    let e = refused(&given(&[], &[], &["b", "b"], &[]));
    assert!(matches!(e, ConfigConflict::Duplicate(ref n) if n == "b"));
    let e = refused(&given(&[], &[], &[], &["c", "c"]));
    assert!(matches!(e, ConfigConflict::Duplicate(ref n) if n == "c"));
}

#[test]
fn the_first_repeated_name_is_reported() {
    let e = refused(&given(&["a", "b"], &["c"], &["b", "a"], &["c"]));
    assert!(matches!(e, ConfigConflict::Duplicate(ref n) if n == "b"));
    let e = refused(&given(&["a"], &["x"], &["y"], &["y", "a"]));
    assert!(matches!(e, ConfigConflict::Duplicate(ref n) if n == "y"));
}

#[test]
fn int32_wildcard_sets_the_integer_default() {
    let c = accepted(&given(&["*"], &["a"], &[], &[]));
    assert_eq!(c.default_int, NumericType::Int32);
    assert_eq!(c.default_float, NumericType::Float32);
    assert_eq!(c.overrides.len(), 1);
    assert_eq!(c.overrides.get("*"), None);
    let c = accepted(&given(&["__all__"], &[], &[], &[]));
    assert_eq!(c.default_int, NumericType::Int32);
    assert!(c.overrides.is_empty());
}

#[test]
fn int64_wildcard_keeps_the_integer_default() {
    let c = accepted(&given(&["a"], &["*", "__all__"], &[], &[]));
    assert_eq!(c.default_int, NumericType::Int64);
    assert_eq!(c.overrides.len(), 1);
    assert_eq!(c.overrides.get("__all__"), None);
}

#[test]
fn float64_wildcard_sets_the_float_default() {
    let c = accepted(&given(&[], &[], &[], &["*"]));
    assert_eq!(c.default_float, NumericType::Float64);
    assert_eq!(c.default_int, NumericType::Int64);
    assert!(c.overrides.is_empty());
}

#[test]
fn float32_wildcard_keeps_the_float_default() {
    let c = accepted(&given(&[], &[], &["__all__"], &["z"]));
    assert_eq!(c.default_float, NumericType::Float32);
    assert_eq!(c.overrides.get("z"), Some(NumericType::Float64));
}

#[test]
fn a_wildcard_repeated_in_one_list_is_accepted() {
    let c = accepted(&given(&[], &["*", "*"], &[], &["__all__", "*"]));
    assert!(c.overrides.is_empty());
    assert_eq!(c.default_int, NumericType::Int64);
    assert_eq!(c.default_float, NumericType::Float64);
}
