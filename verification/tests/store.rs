use tar_object_store::error::TarStoreError;
use tar_object_store::tar_metadata::{EntryMetadataVec, RawEntry};
use tar_object_store::tar_object_store::{
    AdamTarFileObjectStore, ByteRange, ObjectMetadata, ADAM_OBS_TABLE_NAME, PQ_EXTENSION,
    TAR_PQ_STORE_BASE_URI,
};

const ARCHIVE_LEN: u64 = 1 << 20;

fn raw(path: &str, position: u64, size: u64, mtime: u64) -> RawEntry {
    RawEntry { path: path.to_string(), raw_file_position: position, size, mtime }
}

fn five_days() -> Vec<RawEntry> {
    vec![
        raw("nowboost/tjl/date=2022-04-01/adam.parquet", 512, 100, 1001),
        raw("nowboost/tjl/date=2022-04-02/adam.parquet", 1024, 100, 1002),
        raw("nowboost/tjl/date=2022-04-03/adam.parquet", 1536, 100, 1003),
        raw("nowboost/tjl/date=2022-04-04/adam.parquet", 2048, 100, 1004),
        raw("nowboost/tjl/date=2022-04-05/adam.parquet", 2560, 100, 1005),
    ]
}

fn locations(days: &[&str]) -> Vec<String> {
    days.iter().map(|d| format!("date={}/adam.parquet", d)).collect()
}

fn store(requested: Vec<String>, prefix: &str, scanned: Vec<RawEntry>) -> AdamTarFileObjectStore {
    AdamTarFileObjectStore::new_with_locations(
        requested,
        &"archive.tar".to_string(),
        &prefix.to_string(),
        EntryMetadataVec::new(ARCHIVE_LEN),
        &scanned,
    )
    .unwrap()
}

fn names(objects: &[ObjectMetadata]) -> Vec<String> {
    objects.iter().map(|o| o.location.clone()).collect()
}

#[test]
fn a_mismatched_prefix_maps_nothing() {
    let s = store(
        locations(&["2022-04-01", "2022-04-02", "2022-04-03"]),
        "elsewhere",
        five_days(),
    );
    assert_eq!(s.len(), 0);
    assert_eq!(s.list(None).len(), 0);
    assert_eq!(s.tar_metadata_all().inner().len(), 5);
}

#[test]
fn the_right_prefix_maps_each_requested_day() {
    let requested = locations(&["2022-04-01", "2022-04-02", "2022-04-03"]);
    let s = store(requested.clone(), "nowboost/tjl", five_days());
    assert_eq!(s.len(), 3);
    for (i, l) in requested.iter().enumerate() {
        let meta = s.head(l).unwrap();
        assert_eq!(meta.size, 100);
        assert_eq!(meta.last_modified, 1001 + i as u64);
        assert_eq!(&meta.location, l);
    }
    assert_eq!(names(&s.list(None)), requested);
    assert_eq!(s.tar_path(), "archive.tar");
    assert_eq!(s.obj_store_root(), TAR_PQ_STORE_BASE_URI);
    assert_eq!(TAR_PQ_STORE_BASE_URI, "tar+pq://");
    assert_eq!(PQ_EXTENSION, ".parquet");
    assert_eq!(ADAM_OBS_TABLE_NAME, "adam_obs");
}

#[test]
fn head_fails_for_a_location_that_no_entry_serves() {
    let requested = locations(&["2022-03-31", "2022-04-02", "2022-04-09", "2022-04-04"]);
    let s = store(requested.clone(), "nowboost", five_days());
    assert_eq!(s.head(&requested[0]).err(), Some(TarStoreError::NotFound));
    assert!(s.head(&requested[1]).is_ok());
    assert_eq!(s.head(&requested[2]).err(), Some(TarStoreError::NotFound));
    assert!(s.head(&requested[3]).is_ok());
    assert_eq!(s.head("date=2022-04-01/adam.parquet").err(), Some(TarStoreError::NotFound));
    assert!(s.contains(&requested[1]));
    assert!(!s.contains(&requested[0]));
    assert_eq!(s.len(), 2);
}

#[test]
fn get_range_translates_into_the_archive() {
    let l = "date=2022-04-02/adam.parquet";
    let s = store(locations(&["2022-04-02"]), "nowboost", five_days());
    assert_eq!(s.get_range(l, None), Ok(ByteRange { start: 1024, end: 1124 }));
    assert_eq!(
        s.get_range(l, Some(ByteRange { start: 0, end: 100 })),
        s.get_range(l, None)
    );
    assert_eq!(
        s.get_range(l, Some(ByteRange { start: 10, end: 30 })),
        Ok(ByteRange { start: 1034, end: 1054 })
    );
    assert_eq!(
        s.get_range(l, Some(ByteRange { start: 100, end: 100 })),
        Ok(ByteRange { start: 1124, end: 1124 })
    );
    let got = s.get_opts(l, Some(ByteRange { start: 1, end: 2 })).unwrap();
    assert_eq!(got.range, ByteRange { start: 1025, end: 1026 });
    assert_eq!(got.meta.size, 100);
    assert_eq!(got.meta.last_modified, 1002);
    assert_eq!(got.meta.location, l);
}

#[test]
fn a_range_past_the_end_of_the_entry_is_out_of_range() {
    let l = "date=2022-04-02/adam.parquet";
    let s = store(locations(&["2022-04-02"]), "nowboost", five_days());
    assert_eq!(
        s.get_range(l, Some(ByteRange { start: 0, end: 101 })),
        Err(TarStoreError::OutOfRange)
    );
    assert_eq!(
        s.get_range(l, Some(ByteRange { start: 101, end: 101 })),
        Err(TarStoreError::OutOfRange)
    );
    assert_eq!(
        s.get_range(l, Some(ByteRange { start: 30, end: 10 })),
        Err(TarStoreError::OutOfRange)
    );
    assert_eq!(
        s.get_range(l, Some(ByteRange { start: 0, end: u64::MAX })),
        Err(TarStoreError::OutOfRange)
    );
    assert_eq!(
        s.get_opts(l, Some(ByteRange { start: 0, end: 101 })).err(),
        Some(TarStoreError::OutOfRange)
    );
}

#[test]
fn get_range_fails_for_an_unmapped_location() {
    let s = store(locations(&["2022-04-02"]), "nowboost", five_days());
    assert_eq!(
        s.get_range("date=2022-04-01/adam.parquet", None),
        Err(TarStoreError::NotFound)
    );
    assert_eq!(
        s.get_range("date=2022-04-01/adam.parquet", Some(ByteRange { start: 5, end: 1 })),
        Err(TarStoreError::NotFound)
    );
    assert_eq!(s.get_opts("", None).err(), Some(TarStoreError::NotFound));
}

#[test]
fn an_empty_entry_reads_as_no_bytes() {
    let scanned = vec![raw("date=2022-04-01/adam.parquet", 512, 0, 7)];
    let s = store(locations(&["2022-04-01"]), "", scanned);
    let l = "date=2022-04-01/adam.parquet";
    assert_eq!(s.get_range(l, None), Ok(ByteRange { start: 512, end: 512 }));
    assert_eq!(
        s.get_range(l, Some(ByteRange { start: 0, end: 0 })),
        Ok(ByteRange { start: 512, end: 512 })
    );
    assert_eq!(s.head(l).unwrap().size, 0);
}

#[test]
fn the_first_matching_entry_of_the_index_serves_a_location() {
    let scanned = vec![
        raw("b/date=2022-04-01/adam.parquet", 512, 10, 1),
        raw("a/date=2022-04-01/adam.parquet", 1024, 20, 2),
    ];
    let s = store(locations(&["2022-04-01", "2022-04-01"]), "", scanned);
    assert_eq!(s.len(), 1);
    assert_eq!(s.head("date=2022-04-01/adam.parquet").unwrap().size, 10);
}

#[test]
fn locations_are_kept_under_their_object_path() {
    let requested = vec![
        "/date=2022-04-01/adam.parquet".to_string(),
        "date=2022-04-01/adam.parquet/".to_string(),
        "x//date=2022-04-02/adam.parquet".to_string(),
        "x/date=2022-04-03/adam.parquet".to_string(),
        "date=2022-04-04/adam~parquet".to_string(),
    ];
    let s = store(requested, "nowboost", five_days());
    assert_eq!(
        names(&s.list(None)),
        vec!["date=2022-04-01/adam.parquet", "x/date=2022-04-03/adam.parquet"]
    );
    assert_eq!(s.head("date=2022-04-01/adam.parquet").unwrap().last_modified, 1001);
    assert!(s.head("/date=2022-04-01/adam.parquet").is_err());
}

#[test]
fn a_corrupt_archive_gives_no_store() {
    let r = AdamTarFileObjectStore::new_with_locations(
        locations(&["2022-04-01"]),
        &"archive.tar".to_string(),
        &"".to_string(),
        EntryMetadataVec::new(ARCHIVE_LEN),
        &vec![raw("date=2022-04-01/adam.parquet", 0, 1, 1), raw("notes", 1, 1, 1)],
    );
    assert_eq!(r.err(), Some(TarStoreError::ArchiveCorrupt));
}

#[test]
fn a_cached_index_is_used_in_place_of_the_scan() {
    let built = EntryMetadataVec::build(&five_days(), ARCHIVE_LEN).unwrap();
    let cached = EntryMetadataVec::try_from_cache(None, Some(built.inner().clone()), ARCHIVE_LEN);
    let s = AdamTarFileObjectStore::new_with_locations(
        locations(&["2022-04-05"]),
        &"archive.tar".to_string(),
        &"nowboost".to_string(),
        cached,
        &vec![raw("notes", 1, 1, 1)],
    )
    .unwrap();
    assert_eq!(s.len(), 1);
    assert_eq!(s.tar_metadata_all().inner().len(), 5);
    assert!(s.tar_metadata_all().cached());
}

#[test]
fn list_gives_strict_descendants_only() {
    let scanned = vec![
        raw("date=2022-04-01/adam.parquet", 0, 1, 1),
        raw("date=2022-04-02/adam.parquet", 1, 1, 1),
    ];
    let requested = vec![
        "date=2022-04-01/adam.parquet".to_string(),
        "a/date=2022-04-01/adam.parquet".to_string(),
        "a/date=2022-04-02/adam.parquet".to_string(),
        "ab/date=2022-04-02/adam.parquet".to_string(),
        "a/b/date=2022-04-02/adam.parquet".to_string(),
    ];
    let s = store(requested.clone(), "", scanned);
    assert_eq!(names(&s.list(None)), requested);
    assert_eq!(names(&s.list(Some(""))), requested);
    assert_eq!(
        names(&s.list(Some("a"))),
        vec![
            "a/date=2022-04-01/adam.parquet",
            "a/date=2022-04-02/adam.parquet",
            "a/b/date=2022-04-02/adam.parquet",
        ]
    );
    assert_eq!(
        names(&s.list(Some("date=2022-04-01"))),
        vec!["date=2022-04-01/adam.parquet"]
    );
    assert_eq!(names(&s.list(Some("date=2022-04-01/adam.parquet"))).len(), 0);
    assert_eq!(names(&s.list(Some("date=2022-04-01/"))).len(), 0);
    assert_eq!(names(&s.list(Some("date=2022"))).len(), 0);
    assert_eq!(names(&s.list(Some("zzz"))).len(), 0);
    assert_eq!(names(&s.list(Some("a/b"))), vec!["a/b/date=2022-04-02/adam.parquet"]);
}

#[test]
fn list_with_delimiter_shows_one_level() {
    let scanned = vec![
        raw("date=2022-04-01/adam.parquet", 0, 11, 1),
        raw("date=2022-04-02/adam.parquet", 1, 12, 1),
    ];
    let requested = vec![
        "date=2022-04-01/adam.parquet".to_string(),
        "a/date=2022-04-01/adam.parquet".to_string(),
        "a/date=2022-04-02/adam.parquet".to_string(),
        "a/b/date=2022-04-02/adam.parquet".to_string(),
        "date=2022-04-02/adam.parquet".to_string(),
    ];
    let s = store(requested, "", scanned);

    let root = s.list_with_delimiter(None);
    assert_eq!(root.common_prefixes, vec!["date=2022-04-01", "a", "date=2022-04-02"]);
    assert_eq!(root.objects.len(), 0);

    let a = s.list_with_delimiter(Some("a"));
    assert_eq!(a.common_prefixes, vec!["a/date=2022-04-01", "a/date=2022-04-02", "a/b"]);
    assert_eq!(a.objects.len(), 0);

    let day = s.list_with_delimiter(Some("a/date=2022-04-02"));
    assert_eq!(day.common_prefixes.len(), 0);
    assert_eq!(names(&day.objects), vec!["a/date=2022-04-02/adam.parquet"]);
    assert_eq!(day.objects[0].size, 12);

    let leaf = s.list_with_delimiter(Some("a/date=2022-04-02/adam.parquet"));
    assert_eq!(leaf.common_prefixes.len(), 0);
    assert_eq!(leaf.objects.len(), 0);

    let none = s.list_with_delimiter(Some("a/date"));
    assert_eq!(none.common_prefixes.len(), 0);
    assert_eq!(none.objects.len(), 0);
}

#[test]
fn every_write_is_unsupported() {
    let s = store(locations(&["2022-04-01"]), "nowboost", five_days());
    let l = "date=2022-04-01/adam.parquet";
    assert_eq!(s.put(l, b"bytes"), Err(TarStoreError::Unsupported));
    assert_eq!(s.put("new", b""), Err(TarStoreError::Unsupported));
    assert_eq!(s.put_multipart(l), Err(TarStoreError::Unsupported));
    assert_eq!(s.abort_multipart(l, "upload"), Err(TarStoreError::Unsupported));
    assert_eq!(s.delete(l), Err(TarStoreError::Unsupported));
    assert_eq!(s.copy(l, "elsewhere"), Err(TarStoreError::Unsupported));
    assert_eq!(s.copy_if_not_exists(l, "elsewhere"), Err(TarStoreError::Unsupported));
    assert_eq!(s.len(), 1);
}

#[test]
fn each_error_has_a_message() {
    assert_eq!(
        TarStoreError::NotFound.message(),
        "no archive entry is mapped to this location"
    );
    assert_eq!(
        TarStoreError::OutOfRange.message(),
        "the byte range exceeds the bounds of the entry"
    );
    assert_eq!(TarStoreError::Unsupported.message(), "the store is read-only");
    assert_eq!(
        TarStoreError::ArchiveCorrupt.message(),
        "an archive entry names no date in its path"
    );
    assert_eq!(TarStoreError::CacheUnavailable.message(), "no cached index is available");
    assert_eq!(
        TarStoreError::InvalidDateRange.message(),
        "the date range ends before it starts"
    );
}

#[test]
fn read_range_gives_the_bytes_of_the_entry() {
    let archive: Vec<u8> = (0..64u8).collect();
    let scanned = vec![
        raw("date=2022-04-01/adam.parquet", 8, 10, 1),
        raw("date=2022-04-02/adam.parquet", 32, 0, 1),
    ];
    let s = AdamTarFileObjectStore::new_with_locations(
        locations(&["2022-04-01", "2022-04-02"]),
        &"archive.tar".to_string(),
        &"".to_string(),
        EntryMetadataVec::new(64),
        &scanned,
    )
    .unwrap();
    let l = "date=2022-04-01/adam.parquet";
    let whole: Vec<u8> = (8..18u8).collect();
    assert_eq!(s.read_range(&archive, l, None), Ok(&whole[..]));
    assert_eq!(
        s.read_range(&archive, l, Some(ByteRange { start: 0, end: 10 })),
        s.read_range(&archive, l, None)
    );
    assert_eq!(
        s.read_range(&archive, l, Some(ByteRange { start: 2, end: 5 })),
        Ok(&[10u8, 11, 12][..])
    );
    assert_eq!(
        s.read_range(&archive, l, Some(ByteRange { start: 0, end: 11 })),
        Err(TarStoreError::OutOfRange)
    );
    assert_eq!(s.read_range(&archive, "date=2022-04-02/adam.parquet", None), Ok(&[][..]));
    assert_eq!(s.read_range(&archive, "elsewhere", None), Err(TarStoreError::NotFound));
    assert_eq!(s.read_range(&archive[..63], l, None), Err(TarStoreError::ArchiveCorrupt));
}
