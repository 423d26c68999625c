use tar_object_store::querier::{
    eq_ignore_ascii_case, supports_format, DfQuerier, ForceDefaultOpt, DEFAULT_OUTPUT_TABLE,
};

#[test]
fn a_query_layout_is_built_step_by_step() {
    let q = DfQuerier::new_from_data_dir("data/*.parquet", "obs");
    assert_eq!(q.input_path, "data/*.parquet");
    assert_eq!(q.input_table_name, "obs");
    assert_eq!(q.output_path, None);
    assert_eq!(q.data_format, None);
    assert_eq!(q.output_table_name, "output_table");
    assert_eq!(DEFAULT_OUTPUT_TABLE, "output_table");
    assert!(!q.preview_only);

    let q = q
        .with_output_path(Some("out"), Some("hourly"))
        .with_data_format("Parquet")
        .with_preview_only(true);
    assert_eq!(q.input_path, "data/*.parquet");
    assert_eq!(q.input_table_name, "obs");
    assert_eq!(q.output_path, Some("out".to_string()));
    assert_eq!(q.output_table_name, "hourly");
    assert_eq!(q.data_format, Some("Parquet".to_string()));
    assert!(q.preview_only);

    let q = q.with_output_path(None, None);
    assert_eq!(q.output_path, None);
    assert_eq!(q.output_table_name, "output_table");
    assert_eq!(q.data_format, Some("Parquet".to_string()));
}

#[test]
fn formats_are_known_in_any_case() {
    assert!(supports_format("parquet"));
    assert!(supports_format("csv"));
    assert!(supports_format("CSV"));
    assert!(supports_format("PaRqUeT"));
    assert!(!supports_format("json"));
    assert!(!supports_format("parquet "));
    assert!(!supports_format(""));
    assert!(!supports_format("cs"));
    assert!(!supports_format("p\u{430}rquet"));
}

#[test]
fn ascii_case_is_ignored_and_nothing_else() {
    assert!(eq_ignore_ascii_case("", ""));
    assert!(eq_ignore_ascii_case("AbC-xyZ_09", "aBc-XYz_09"));
    assert!(!eq_ignore_ascii_case("abc", "abd"));
    assert!(!eq_ignore_ascii_case("abc", "ab"));
    assert!(!eq_ignore_ascii_case("@", "`"));
    assert!(!eq_ignore_ascii_case("[", "{"));
    assert!(eq_ignore_ascii_case("é", "é"));
    assert!(!eq_ignore_ascii_case("é", "É"));
    for (a, b) in [("Kelvin", "kelvin"), ("K", "\u{212a}"), ("A", "a"), ("Z", "z"), ("az", "AZ")] {
        assert_eq!(eq_ignore_ascii_case(a, b), a.eq_ignore_ascii_case(b), "{a} {b}");
    }
}

#[test]
fn what_lacks_gets_its_stand_in() {
    assert_eq!(Some(7i64).force_default(), Some(7));
    assert_eq!(None::<i64>.force_default(), Some(i64::MIN));
    assert_eq!(Some("x".to_string()).force_default(), Some("x".to_string()));
    assert_eq!(None::<String>.force_default(), Some("NA".to_string()));
    assert_eq!(Some(true).force_default(), Some(true));
    assert_eq!(None::<bool>.force_default(), Some(false));
}
