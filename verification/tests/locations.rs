use tar_object_store::date::Date;
use tar_object_store::error::TarStoreError;
use tar_object_store::metadata_extract::AdamTarMetadataExtract;
use tar_object_store::object_path::canonical_path;
use tar_object_store::pattern::{find_date_token, find_location_token, location_of};
use tar_object_store::tar_metadata::get_entry_date;
use tar_object_store::text::contains_text;

fn ymd(y: i32, m: u32, d: u32) -> Date {
    Date::from_ymd_opt(y, m, d).unwrap()
}

#[test]
fn a_range_of_one_day_gives_one_location() {
    let d = ymd(2022, 4, 1);
    let v = AdamTarMetadataExtract::construct_locations_from_date_range(&d, &d).unwrap();
    assert_eq!(v, vec!["date=2022-04-01/adam.parquet".to_string()]);
}

#[test]
fn a_range_that_ends_before_it_starts_fails() {
    let r = AdamTarMetadataExtract::construct_locations_from_date_range(
        &ymd(2022, 4, 2),
        &ymd(2022, 4, 1),
    );
    assert_eq!(r, Err(TarStoreError::InvalidDateRange));
}

#[test]
fn a_range_gives_one_location_for_each_day_in_order() {
    let v = AdamTarMetadataExtract::construct_locations_from_date_range(
        &ymd(2022, 2, 27),
        &ymd(2022, 3, 2),
    )
    .unwrap();
    assert_eq!(
        v,
        vec![
            "date=2022-02-27/adam.parquet".to_string(),
            "date=2022-02-28/adam.parquet".to_string(),
            "date=2022-03-01/adam.parquet".to_string(),
            "date=2022-03-02/adam.parquet".to_string(),
        ]
    );
}

#[test]
fn a_range_over_a_leap_year_has_366_locations() {
    let v = AdamTarMetadataExtract::construct_locations_from_date_range(
        &ymd(2024, 1, 1),
        &ymd(2024, 12, 31),
    )
    .unwrap();
    assert_eq!(v.len(), 366);
    assert_eq!(v[59], "date=2024-02-29/adam.parquet");
    assert_eq!(v[365], "date=2024-12-31/adam.parquet");
}

#[test]
fn a_range_may_end_on_the_last_day() {
    let v = AdamTarMetadataExtract::construct_locations_from_date_range(
        &ymd(9999, 12, 30),
        &ymd(9999, 12, 31),
    )
    .unwrap();
    assert_eq!(v.len(), 2);
}

#[test]
fn location_of_a_day() {
    assert_eq!(location_of(&ymd(2022, 4, 1)), "date=2022-04-01/adam.parquet");
}

#[test]
fn the_date_token_is_the_first_in_the_path() {
    assert_eq!(
        find_date_token("nowboost/tjl/date=2022-04-01/adam.parquet"),
        Some("2022-04-01".to_string())
    );
    assert_eq!(
        find_date_token("a/2021-01-02/b/2022-04-01"),
        Some("2021-01-02".to_string())
    );
    assert_eq!(find_date_token("x12022-04-015"), Some("2022-04-01".to_string()));
    assert_eq!(find_date_token("no date here"), None);
    assert_eq!(find_date_token("2022-4-01"), None);
    assert_eq!(find_date_token(""), None);
}

#[test]
fn the_location_token_needs_the_whole_template() {
    assert_eq!(
        find_location_token("date=2022-04-01/adam.parquet"),
        Some("2022-04-01".to_string())
    );
    assert_eq!(
        find_location_token("/x/date=2022-04-01/adam.parquet/"),
        Some("2022-04-01".to_string())
    );
    assert_eq!(
        find_location_token("date=2022-04-01/adam_parquet"),
        Some("2022-04-01".to_string())
    );
    assert_eq!(find_location_token("date=2022-04-01/adam\nparquet"), None);
    assert_eq!(find_location_token("date=2022-04-01/data.parquet"), None);
    assert_eq!(find_location_token("2022-04-01/adam.parquet"), None);
    assert_eq!(find_location_token("date=2022-04-1/adam.parquet"), None);
}

#[test]
fn the_entry_date_is_the_date_of_the_first_token() {
    assert_eq!(
        get_entry_date("nowboost/date=2022-04-01/adam.parquet"),
        Some(ymd(2022, 4, 1))
    );
    assert_eq!(
        AdamTarMetadataExtract::get_entry_date(&"date=2024-02-29/adam.parquet".to_string()),
        Some(ymd(2024, 2, 29))
    );
    assert_eq!(get_entry_date("date=2023-02-29/adam.parquet"), None);
    assert_eq!(get_entry_date("date=2023-02-29/2023-02-28"), None);
    assert_eq!(get_entry_date("readme.txt"), None);
    assert_eq!(get_entry_date("date=٢٠٢٢-٠٤-٠١/adam.parquet"), None);
}

#[test]
fn the_entry_date_of_a_location_is_its_day() {
    let d = ymd(2031, 10, 9);
    assert_eq!(get_entry_date(&location_of(&d)), Some(d));
    assert_eq!(find_location_token(&location_of(&d)), Some(d.iso_string()));
    assert_eq!(canonical_path(&location_of(&d)), Some(location_of(&d)));
}

#[test]
fn contains_text_finds_substrings() {
    assert!(contains_text("nowboost/tjl/date=2022-04-01", "2022-04-01"));
    assert!(contains_text("abc", ""));
    assert!(contains_text("abc", "abc"));
    assert!(!contains_text("abc", "abcd"));
    assert!(!contains_text("abc", "ca"));
    assert!(contains_text("ä/ö", "/ö"));
}

#[test]
fn canonical_path_drops_one_slash_at_each_end() {
    assert_eq!(canonical_path("a/b"), Some("a/b".to_string()));
    assert_eq!(canonical_path("/a/b"), Some("a/b".to_string()));
    assert_eq!(canonical_path("a/b/"), Some("a/b".to_string()));
    assert_eq!(canonical_path("/a/b/"), Some("a/b".to_string()));
    assert_eq!(canonical_path(""), Some("".to_string()));
    assert_eq!(canonical_path("/"), Some("".to_string()));
    assert_eq!(canonical_path("foo/foo%2Fbar"), Some("foo/foo%2Fbar".to_string()));
    assert_eq!(canonical_path("a b/c=d"), Some("a b/c=d".to_string()));
    assert_eq!(canonical_path(".a/b.."), Some(".a/b..".to_string()));
}

#[test]
fn canonical_path_refuses_bad_segments() {
    assert_eq!(canonical_path("//"), None);
    assert_eq!(canonical_path("a//b"), None);
    assert_eq!(canonical_path("//a"), None);
    assert_eq!(canonical_path("a//"), None);
    assert_eq!(canonical_path(".."), None);
    assert_eq!(canonical_path("."), None);
    assert_eq!(canonical_path("a/./b"), None);
    assert_eq!(canonical_path("a/../b"), None);
    assert_eq!(canonical_path("a/b/.."), None);
    assert_eq!(canonical_path("a/b~"), None);
    assert_eq!(canonical_path("a/b\u{7f}"), None);
    assert_eq!(canonical_path("a/b\tc"), None);
    assert_eq!(canonical_path("a/b?"), None);
    assert_eq!(canonical_path("a\\b"), None);
    assert_eq!(canonical_path("a{b}"), None);
    assert_eq!(canonical_path("a|b"), None);
    assert_eq!(canonical_path("😀"), None);
    assert_eq!(canonical_path("ä"), None);
}
