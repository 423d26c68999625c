use tar_object_store::date::Date;
use tar_object_store::resampler::{
    gb_to_b, DataFreq, FilePartition, FileFreq, IntermediateStoreType, OutputFormat,
    ParquetDateBin, ParquetDateBinBuilder, ParquetResampler, SqlDateBinKind,
    ADAM_RESAMPLED_OBS_TABLE_NAME, REFERENCE_DATE, STATION_PARTITION_FIELD, TIME_RESAMPLED_FIELD,
};
use tar_object_store::tar_metadata::{adam_metadata_stats, EntryMetadata, EntryMetadataVec};
use tar_object_store::tar_object_store::AdamTarFileObjectStore;

fn layout(
    store: Option<&AdamTarFileObjectStore>,
    output: DataFreq,
    time_index: Option<&str>,
    memory_limit_gb: Option<usize>,
) -> ParquetResampler {
    ParquetResampler::new(
        store,
        "data/in".to_string(),
        "data/out".to_string(),
        OutputFormat::Parquet,
        DataFreq::OneMin,
        output,
        FilePartition::ByStation,
        time_index.map(|t| t.to_string()),
        Some("STN_NUM".to_string()),
        Some(vec!["AIR_TEMP".to_string(), "DWPT".to_string()]),
        memory_limit_gb,
    )
}

#[test]
fn a_layout_without_a_store_reads_from_the_input_path() {
    let r = layout(None, DataFreq::OneHour, Some("LSD"), Some(2));
    assert_eq!(r.input_store_url, "data/in");
    assert_eq!(r.input_ext, "");
    assert_eq!(r.output_path, "data/out");
    assert_eq!(r.output_format, OutputFormat::Parquet);
    assert_eq!(r.input_data_freq, DataFreq::OneMin);
    assert_eq!(r.output_data_freq, DataFreq::OneHour);
    assert_eq!(r.output_file_partition, FilePartition::ByStation);
    assert_eq!(r.include_stations, None);
    assert_eq!(r.memory_limit, Some(2 * 1024 * 1024 * 1024));
}

#[test]
fn a_layout_with_a_store_reads_from_the_store() {
    let store = AdamTarFileObjectStore::new_with_locations(
        vec![],
        &"archive.tar".to_string(),
        &"".to_string(),
        EntryMetadataVec::new(0),
        &vec![],
    )
    .unwrap();
    let r = layout(Some(&store), DataFreq::OneMin, None, None);
    assert_eq!(r.input_store_url, "tar+pq://");
    assert_eq!(r.input_ext, ".parquet");
    assert_eq!(r.memory_limit, None);
}

#[test]
fn a_memory_limit_that_does_not_fit_is_no_limit() {
    assert_eq!(gb_to_b(0), Some(0));
    assert_eq!(gb_to_b(3), Some(3_221_225_472));
    assert_eq!(gb_to_b(usize::MAX), None);
    assert_eq!(layout(None, DataFreq::OneDay, None, Some(usize::MAX)).memory_limit, None);
}

#[test]
fn downsampling_compares_lengths() {
    assert!(ParquetResampler::is_downsampling(DataFreq::OneMin, DataFreq::OneMin));
    assert!(ParquetResampler::is_downsampling(DataFreq::OneMin, DataFreq::TenMins));
    assert!(!ParquetResampler::is_downsampling(DataFreq::OneDay, DataFreq::OneHour));
    assert!(ParquetResampler::is_downsampling(
        DataFreq::CustomFreqSeconds(3600),
        DataFreq::OneHour
    ));
    assert!(!ParquetResampler::is_downsampling(
        DataFreq::CustomFreqSeconds(3601),
        DataFreq::OneHour
    ));
}

#[test]
fn the_resample_expression_names_interval_column_and_reference() {
    let r = layout(None, DataFreq::OneHour, Some("LSD"), None);
    assert_eq!(r.build_resample_expr(), vec!["1 hour", "LSD", "1900-01-01T00:00:00"]);
    let r = layout(None, DataFreq::TenMins, None, None);
    assert_eq!(r.build_resample_expr(), vec!["10 minutes", "time", REFERENCE_DATE]);
    assert_eq!(layout(None, DataFreq::OneMin, None, None).build_resample_expr()[0], "1 minute");
    assert_eq!(layout(None, DataFreq::OneDay, None, None).build_resample_expr()[0], "1 day");
    assert_eq!(r.time_index_or_default(), "time");
    assert_eq!(TIME_RESAMPLED_FIELD, "time_rsmpl");
    assert_eq!(STATION_PARTITION_FIELD, "stn_partition_id");
    assert_eq!(ADAM_RESAMPLED_OBS_TABLE_NAME, "adam_obs_resampled");
}

#[test]
fn the_columns_are_station_time_and_fields() {
    let r = layout(None, DataFreq::OneHour, Some("LSD"), None);
    assert_eq!(r.columns(), vec!["STN_NUM", "LSD", "AIR_TEMP", "DWPT"]);
}

#[test]
fn a_date_bin_is_built_step_by_step() {
    let b = ParquetDateBinBuilder::default();
    assert_eq!(b.date_field, "date");
    assert_eq!(b.date_bin, SqlDateBinKind::OneHour);
    let bin: ParquetDateBin =
        b.with_date_field("TM").with_date_bin(SqlDateBinKind::TenMins).build();
    assert_eq!(bin.date_field, "TM");
    assert_eq!(bin.date_bin, SqlDateBinKind::TenMins);
    assert_eq!(bin.builder().date_field, "date");
    assert_eq!(bin.resample_bin_parser(&SqlDateBinKind::TenMins), "10 minutes");
    assert_eq!(bin.resample_bin_parser(&SqlDateBinKind::ThirtyMinutes), "30 minutes");
    assert_eq!(bin.resample_bin_parser(&SqlDateBinKind::OneHour), "1 hour");
    assert_eq!(bin.resample_bin_parser(&SqlDateBinKind::SixHours), "6 hours");
    assert_eq!(bin.construct_expr(), vec!["10 minutes", "TM", "1900-01-01T00:00:00"]);
}

#[test]
fn file_frequencies_are_ordered_as_declared() {
    assert!(FileFreq::Daily < FileFreq::Monthly);
    assert!(FileFreq::Monthly < FileFreq::Yearly);
    assert!(FileFreq::Yearly < FileFreq::SingleFile);
    assert!(IntermediateStoreType::InMemory != IntermediateStoreType::LocalFileSystem);
    assert_eq!(IntermediateStoreType::for_entry(101, 100), IntermediateStoreType::InMemory);
    assert_eq!(IntermediateStoreType::for_entry(100, 100), IntermediateStoreType::LocalFileSystem);
    assert_eq!(IntermediateStoreType::for_entry(0, 1), IntermediateStoreType::LocalFileSystem);
    assert!(FilePartition::ByStation < FilePartition::DatafusionDefault);
    assert!(OutputFormat::Parquet < OutputFormat::Csv);
}

#[test]
fn stats_count_entries_sizes_and_dates() {
    let day = |d: u32| Date::from_ymd_opt(2022, 4, d).unwrap();
    let entry = |size: u64, d: u32| EntryMetadata {
        raw_file_position: 0,
        size,
        path: "p".to_string(),
        mtime: 0,
        file_date: day(d),
    };
    let stats = adam_metadata_stats(&vec![
        entry(3 * 1024 * 1024, 1),
        entry(1024 * 1024 - 1, 2),
        entry(1, 5),
        entry(1024, 9),
    ]);
    assert_eq!(stats.total_entries, 4);
    assert_eq!(stats.total_size_mb, 4);
    assert_eq!(stats.date_range, Some((day(1), day(9))));

    let stats = adam_metadata_stats(&vec![entry(u64::MAX, 1), entry(u64::MAX, 1)]);
    assert_eq!(stats.total_size_mb, (2 * (u64::MAX as u128)) / 1048576);

    let stats = adam_metadata_stats(&vec![]);
    assert_eq!(stats.total_entries, 0);
    assert_eq!(stats.total_size_mb, 0);
    assert_eq!(stats.date_range, None);
}
