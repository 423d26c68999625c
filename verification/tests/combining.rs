use tar_object_store::combine::{
    file_extension, has_extension_and_token, holds_value, is_year_month_file, keep_columns,
    name_ends_with, unqualified_name, value_columns, year_month_token,
};
use tar_object_store::text::same_text;

#[test]
fn the_month_token_has_the_year_and_two_digits_of_the_month() {
    assert_eq!(year_month_token(2022, 4), "2022-04");
    assert_eq!(year_month_token(2022, 12), "2022-12");
    assert_eq!(year_month_token(2022, 10), "2022-10");
    assert_eq!(year_month_token(2022, 9), "2022-09");
    assert_eq!(year_month_token(2022, 0), "2022-00");
    assert_eq!(year_month_token(0, 1), "0-01");
    assert_eq!(year_month_token(987, 6), "987-06");
    assert_eq!(year_month_token(u32::MAX, 1), "4294967295-01");
    for year in [0u32, 9, 10, 99, 100, 1900, 12345, 4000000000] {
        for month in 0..=12u32 {
            assert_eq!(year_month_token(year, month), format!("{}-{:0>2}", year, month));
        }
    }
}

#[test]
fn the_extension_is_what_follows_the_last_dot_of_the_file_name() {
    for path in [
        "a.pq",
        "dir/a.pq",
        "dir.d/a",
        "dir.d/a.b.pq",
        "a",
        "",
        ".hidden",
        "dir/.hidden",
        ".hidden.pq",
        "a.",
        "a..",
        "..",
        "dir/..",
        ".",
        "...",
        "a.pq.tar",
        "date=2022-04-01/adam.parquet",
        "x/2022-04-01.pq",
        "é.pq",
        "a.é",
    ] {
        let expected = std::path::Path::new(path)
            .extension()
            .map(|e| e.to_str().unwrap().to_string());
        assert_eq!(file_extension(path), expected, "{path:?}");
    }
    assert_eq!(file_extension("dir/a.pq/"), None);
    assert_eq!(file_extension("a.pq"), Some("pq".to_string()));
}

#[test]
fn a_file_is_wanted_by_its_extension_and_its_month() {
    assert!(is_year_month_file("obs/2022-04-01.pq", 2022, 4));
    assert!(is_year_month_file("2022-04.pq", 2022, 4));
    assert!(!is_year_month_file("obs/2022-04-01.parquet", 2022, 4));
    assert!(!is_year_month_file("obs/2022-04-01", 2022, 4));
    assert!(!is_year_month_file("obs/2022-05-01.pq", 2022, 4));
    assert!(!is_year_month_file("obs/2022-4-01.pq", 2022, 4));
    assert!(is_year_month_file("obs/12022-04-01.pq", 2022, 4));
    assert!(has_extension_and_token(Some("pq"), "a/2022-04", "2022-04"));
    assert!(!has_extension_and_token(Some("PQ"), "a/2022-04", "2022-04"));
    assert!(!has_extension_and_token(None, "a/2022-04", "2022-04"));
    assert!(!has_extension_and_token(Some("pq"), "a/2022-04", "2022-05"));
}

#[test]
fn a_column_is_named_without_its_table() {
    assert_eq!(unqualified_name("obs_table.AIR_TEMP"), "AIR_TEMP");
    assert_eq!(unqualified_name("AIR_TEMP"), "AIR_TEMP");
    assert_eq!(unqualified_name("a.b.c"), "c");
    assert_eq!(unqualified_name("a."), "");
    assert_eq!(unqualified_name(".a"), "a");
    assert_eq!(unqualified_name(""), "");
    for c in ["obs_table.STN_NUM", "x", "a.b.c", "a.", ".", "..", ""] {
        assert_eq!(unqualified_name(c), c.split(".").last().unwrap(), "{c:?}");
    }
}

#[test]
fn value_columns_hold_no_flag_no_time_and_no_station() {
    assert!(holds_value("AIR_TEMP"));
    assert!(holds_value("QUALITY"));
    assert!(holds_value("tm"));
    assert!(!holds_value("AIR_TEMP_QUAL"));
    assert!(!holds_value("QUAL"));
    assert!(!holds_value("STN_NUM"));
    for t in ["LSD", "DATE_CREATED", "LAST_UPDATE", "TM", "LCT", "CMT"] {
        assert!(!holds_value(t));
    }
    assert!(name_ends_with("AIR_TEMP_QUAL", "QUAL"));
    assert!(name_ends_with("QUAL", "QUAL"));
    assert!(name_ends_with("x", ""));
    assert!(!name_ends_with("UAL", "QUAL"));
    assert!(!name_ends_with("QUALx", "QUAL"));
    assert!(same_text("TM", "TM"));
    assert!(!same_text("TM", "TM "));
}

#[test]
fn the_columns_of_observations_are_picked_in_order() {
    let columns: Vec<String> = [
        "obs_table.STN_NUM",
        "obs_table.LSD",
        "obs_table.TM",
        "obs_table.OB_QUAL_FLAG",
        "obs_table.WND_DIR",
        "obs_table.WND_DIR_QUAL",
        "obs_table.AIR_TEMP",
        "obs_table.AIR_TEMP_QUAL",
        "obs_table.CMT",
        "DWPT",
    ]
    .iter()
    .map(|c| c.to_string())
    .collect();
    let value_cols = value_columns(&columns);
    assert_eq!(value_cols, vec!["OB_QUAL_FLAG", "WND_DIR", "AIR_TEMP", "DWPT"]);
    assert_eq!(
        keep_columns(&value_cols),
        vec!["OB_QUAL_FLAG", "WND_DIR", "AIR_TEMP", "DWPT", "STN_NUM", "TM", "TM_BIN"]
    );
    assert_eq!(value_columns(&vec![]).len(), 0);
    assert_eq!(keep_columns(&vec![]), vec!["STN_NUM", "TM", "TM_BIN"]);
}
