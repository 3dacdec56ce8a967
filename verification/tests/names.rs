use csv2parquet::names::{has_suffix, is_gzip_name, output_basename, strip_suffix, temp_basename};

#[test]
fn csv_names_get_the_output_ending() {
    assert_eq!(output_basename("data.csv"), Some("data.parquet".to_string()));
    assert_eq!(output_basename("data.csv.gz"), Some("data.parquet".to_string()));
    assert_eq!(output_basename(".csv"), Some(".parquet".to_string()));
    assert_eq!(output_basename("a.b.csv"), Some("a.b.parquet".to_string()));
    assert_eq!(output_basename("a.csv.csv"), Some("a.csv.parquet".to_string()));
}

#[test]
fn other_names_have_no_output() {
    assert_eq!(output_basename("data.txt"), None);
    assert_eq!(output_basename("data.gz"), None);
    assert_eq!(output_basename("data.CSV"), None);
    assert_eq!(output_basename("csv"), None);
    assert_eq!(output_basename(""), None);
    assert_eq!(output_basename("data.csv.gz.bak"), None);
}

#[test]
fn names_beyond_ascii_are_handled_by_character() {
    assert_eq!(output_basename("données.csv"), Some("données.parquet".to_string()));
    assert_eq!(output_basename("表.csv.gz"), Some("表.parquet".to_string()));
    assert!(!has_suffix("é", "csv"));
}

#[test]
fn temp_names_are_prefixed() {
    assert_eq!(temp_basename("data.parquet"), ".tmp.data.parquet");
    assert_eq!(temp_basename(""), ".tmp.");
}

#[test]
fn suffixes_are_found_and_cut() {
    assert!(has_suffix("abc", "bc"));
    assert!(has_suffix("abc", ""));
    assert!(has_suffix("abc", "abc"));
    assert!(!has_suffix("abc", "ab"));
    assert!(!has_suffix("bc", "abc"));
    assert_eq!(strip_suffix("abc", "bc"), Some("a".to_string()));
    assert_eq!(strip_suffix("abc", "abc"), Some(String::new()));
    assert_eq!(strip_suffix("abc", "x"), None);
}

#[test]
fn gzip_names_end_in_gz() {
    assert!(is_gzip_name("dir/data.csv.gz"));
    assert!(is_gzip_name(".gz"));
    assert!(!is_gzip_name("data.csv"));
    assert!(!is_gzip_name("data.gz.csv"));
    assert!(!is_gzip_name("datagz"));
}
