//! How often data comes, and how a resampling run is laid out.
//!
//! A run reads data of one frequency and writes data of a lower one. This
//! module holds the frequencies, their length in seconds, and the choices that
//! a run makes before any data is read.

use crate::tar_object_store::{AdamTarFileObjectStore, PQ_EXTENSION, TAR_PQ_STORE_BASE_URI};
use std::cmp::Ordering;
use vstd::prelude::*;
use vstd::std_specs::cmp::{PartialEqSpecImpl, PartialOrdSpecImpl};
use vstd::std_specs::convert::FromSpecImpl;
use vstd::string::StringExecFns;

verus! {

/// The number type of a length in seconds.
pub type SecondsType = i64;

/// How much data one file holds.
#[derive(Debug, Clone, Copy, PartialEq, Eq, Structural, PartialOrd)]
pub enum FileFreq {
    Daily,
    Monthly,
    Yearly,
    SingleFile,
}

/// Where the entries of an archive are put before they are read.
#[derive(Debug, Clone, Copy, PartialEq, Eq, Structural)]
pub enum IntermediateStoreType {
    InMemory,
    LocalFileSystem,
}

impl IntermediateStoreType {
    /// Where an entry of `entry_size` bytes is put while `available_memory`
    /// bytes are free: in memory if it leaves memory free, else in the file
    /// system.
    pub fn for_entry(available_memory: u64, entry_size: u64) -> (r: Self)
        ensures
            r == if available_memory > entry_size {
                IntermediateStoreType::InMemory
            } else {
                IntermediateStoreType::LocalFileSystem
            },
    {
        if available_memory > entry_size {
            IntermediateStoreType::InMemory
        } else {
            IntermediateStoreType::LocalFileSystem
        }
    }
}

/// The time between two records of the data.
#[derive(Debug, Clone, Copy, PartialEq, Eq, Structural)]
pub enum DataFreq {
    OneMin,
    TenMins,
    OneHour,
    OneDay,
    CustomFreqSeconds(SecondsType),
}

/// The length of the bins into which records are gathered.
#[derive(Debug, Clone, Copy, PartialEq, Eq, Structural)]
pub enum SqlDateBinKind {
    TenMins,
    ThirtyMinutes,
    OneHour,
    SixHours,
}

/// The unit in which the input data comes.
#[derive(Debug, Clone, Copy, PartialEq, Eq, Structural)]
pub enum InputDataFreq {
    Seconds,
    Minutes,
    Hours,
    Days,
}

/// How the output is split into files.
#[derive(Debug, Clone, Copy, PartialEq, Eq, Structural, PartialOrd)]
pub enum FilePartition {
    ByStation,
    DatafusionDefault,
}

/// The format of the output.
#[derive(Debug, Clone, Copy, PartialEq, Eq, Structural, PartialOrd)]
pub enum OutputFormat {
    Parquet,
    Csv,
}

/// The length of a data frequency in seconds.
pub open spec fn data_freq_seconds(f: DataFreq) -> int {
    match f {
        DataFreq::OneMin => 60,
        DataFreq::TenMins => 600,
        DataFreq::OneHour => 3600,
        DataFreq::OneDay => 86400,
        DataFreq::CustomFreqSeconds(s) => s as int,
    }
}

/// The length of a bin in seconds.
pub open spec fn date_bin_seconds(b: SqlDateBinKind) -> int {
    match b {
        SqlDateBinKind::TenMins => 600,
        SqlDateBinKind::ThirtyMinutes => 1800,
        SqlDateBinKind::OneHour => 3600,
        SqlDateBinKind::SixHours => 21600,
    }
}

/// The length of an input unit in seconds.
pub open spec fn input_freq_seconds(f: InputDataFreq) -> int {
    match f {
        InputDataFreq::Seconds => 1,
        InputDataFreq::Minutes => 60,
        InputDataFreq::Hours => 3600,
        InputDataFreq::Days => 86400,
    }
}

/// A length of time in seconds.
#[derive(Debug, Clone, Copy)]
pub struct Seconds(pub SecondsType);

/// Two lengths are equal if they are as many seconds.
impl PartialEq for Seconds {
    fn eq(&self, other: &Self) -> (r: bool) {
        self.0 == other.0
    }
}

impl PartialEqSpecImpl for Seconds {
    open spec fn obeys_eq_spec() -> bool {
        true
    }

    open spec fn eq_spec(&self, other: &Self) -> bool {
        self.0 == other.0
    }
}

/// Lengths are ordered by their number of seconds.
impl PartialOrd for Seconds {
    fn partial_cmp(&self, other: &Self) -> (r: Option<Ordering>) {
        if self.0 < other.0 {
            Some(Ordering::Less)
        } else if self.0 == other.0 {
            Some(Ordering::Equal)
        } else {
            Some(Ordering::Greater)
        }
    }
}

impl PartialOrdSpecImpl for Seconds {
    open spec fn obeys_partial_cmp_spec() -> bool {
        true
    }

    open spec fn partial_cmp_spec(&self, other: &Self) -> Option<Ordering> {
        if self.0 < other.0 {
            Some(Ordering::Less)
        } else if self.0 == other.0 {
            Some(Ordering::Equal)
        } else {
            Some(Ordering::Greater)
        }
    }
}

/// The length of a data frequency.
impl From<DataFreq> for Seconds {
    fn from(s: DataFreq) -> (r: Seconds) {
        match s {
            DataFreq::OneMin => Seconds(60),
            DataFreq::TenMins => Seconds(60 * 10),
            DataFreq::OneHour => Seconds(60 * 60),
            DataFreq::OneDay => Seconds(60 * 60 * 24),
            DataFreq::CustomFreqSeconds(inner) => Seconds(inner),
        }
    }
}

impl FromSpecImpl<DataFreq> for Seconds {
    open spec fn obeys_from_spec() -> bool {
        true
    }

    open spec fn from_spec(s: DataFreq) -> Seconds {
        Seconds(data_freq_seconds(s) as i64)
    }
}

/// The length of a bin.
impl From<SqlDateBinKind> for Seconds {
    fn from(s: SqlDateBinKind) -> (r: Seconds) {
        match s {
            SqlDateBinKind::TenMins => Seconds(10 * 60),
            SqlDateBinKind::ThirtyMinutes => Seconds(30 * 60),
            SqlDateBinKind::OneHour => Seconds(60 * 60),
            SqlDateBinKind::SixHours => Seconds(6 * 60 * 60),
        }
    }
}

impl FromSpecImpl<SqlDateBinKind> for Seconds {
    open spec fn obeys_from_spec() -> bool {
        true
    }

    open spec fn from_spec(s: SqlDateBinKind) -> Seconds {
        Seconds(date_bin_seconds(s) as i64)
    }
}

/// The length of an input unit.
impl From<InputDataFreq> for Seconds {
    fn from(s: InputDataFreq) -> (r: Seconds) {
        match s {
            InputDataFreq::Seconds => Seconds(1),
            InputDataFreq::Minutes => Seconds(60),
            InputDataFreq::Hours => Seconds(60 * 60),
            InputDataFreq::Days => Seconds(24 * 60 * 60),
        }
    }
}

impl FromSpecImpl<InputDataFreq> for Seconds {
    open spec fn obeys_from_spec() -> bool {
        true
    }

    open spec fn from_spec(s: InputDataFreq) -> Seconds {
        Seconds(input_freq_seconds(s) as i64)
    }
}

/// The time from which bins are counted.
pub const REFERENCE_DATE: &'static str = "1900-01-01T00:00:00";

/// The name of the column that holds the start of the bin of a record.
pub const TIME_RESAMPLED_FIELD: &'static str = "time_rsmpl";

/// The name of the column by which the output is split into files.
pub const STATION_PARTITION_FIELD: &'static str = "stn_partition_id";

/// The name of the table that holds the output.
pub const ADAM_RESAMPLED_OBS_TABLE_NAME: &'static str = "adam_obs_resampled";

/// The name of the time column where the caller names none.
pub const DEFAULT_TIME_INDEX: &'static str = "time";

/// The name of the date column where the caller names none.
pub const DEFAULT_DATE_FIELD: &'static str = "date";

/// How a query writes the length of a bin.
pub open spec fn date_bin_text(b: SqlDateBinKind) -> Seq<char> {
    match b {
        SqlDateBinKind::TenMins => "10 minutes"@,
        SqlDateBinKind::ThirtyMinutes => "30 minutes"@,
        SqlDateBinKind::OneHour => "1 hour"@,
        SqlDateBinKind::SixHours => "6 hours"@,
    }
}

/// How a query writes a data frequency as the length of a bin. A frequency
/// given in seconds has no such text.
pub open spec fn interval_text(f: DataFreq) -> Seq<char> {
    match f {
        DataFreq::OneMin => "1 minute"@,
        DataFreq::TenMins => "10 minutes"@,
        DataFreq::OneHour => "1 hour"@,
        DataFreq::OneDay => "1 day"@,
        DataFreq::CustomFreqSeconds(_) => Seq::empty(),
    }
}

/// A number of gibibytes in bytes, if a `usize` holds it.
pub fn gb_to_b(gb: usize) -> (r: Option<usize>)
    ensures
        r == if gb * 1073741824 <= usize::MAX {
            Some((gb * 1073741824) as usize)
        } else {
            None::<usize>
        },
{
    gb.checked_mul(1073741824)
}

/// Gathers what a date bin is made of.
#[derive(Debug, Clone)]
pub struct ParquetDateBinBuilder {
    pub date_field: String,
    pub date_bin: SqlDateBinKind,
}

/// The column that holds the time of a record, and the length of the bins into
/// which the records are gathered.
#[derive(Debug, Clone)]
pub struct ParquetDateBin {
    pub date_field: String,
    pub date_bin: SqlDateBinKind,
}

impl ParquetDateBinBuilder {
    /// A builder for bins of one hour over the column `date`.
    pub fn default() -> (r: Self)
        ensures
            r.date_field@ == DEFAULT_DATE_FIELD@,
            r.date_bin == SqlDateBinKind::OneHour,
    {
        ParquetDateBinBuilder {
            date_field: String::from_str(DEFAULT_DATE_FIELD),
            date_bin: SqlDateBinKind::OneHour,
        }
    }

    /// The same builder over the column `date_field`.
    pub fn with_date_field(self, date_field: &str) -> (r: Self)
        ensures
            r.date_field@ == date_field@,
            r.date_bin == self.date_bin,
    {
        ParquetDateBinBuilder { date_field: String::from_str(date_field), date_bin: self.date_bin }
    }

    /// The same builder with bins of the length `date_bin`.
    pub fn with_date_bin(self, date_bin: SqlDateBinKind) -> (r: Self)
        ensures
            r.date_field == self.date_field,
            r.date_bin == date_bin,
    {
        ParquetDateBinBuilder { date_field: self.date_field, date_bin }
    }

    /// The date bin that was gathered.
    pub fn build(self) -> (r: ParquetDateBin)
        ensures
            r.date_field == self.date_field,
            r.date_bin == self.date_bin,
    {
        ParquetDateBin { date_field: self.date_field, date_bin: self.date_bin }
    }
}

impl ParquetDateBin {
    /// A builder for bins of one hour over the column `date`.
    pub fn builder(&self) -> (r: ParquetDateBinBuilder)
        ensures
            r.date_field@ == DEFAULT_DATE_FIELD@,
            r.date_bin == SqlDateBinKind::OneHour,
    {
        ParquetDateBinBuilder::default()
    }

    /// How a query writes the length `bin`.
    pub fn resample_bin_parser(&self, bin: &SqlDateBinKind) -> (r: String)
        ensures
            r@ == date_bin_text(*bin),
    {
        match bin {
            SqlDateBinKind::TenMins => String::from_str("10 minutes"),
            SqlDateBinKind::ThirtyMinutes => String::from_str("30 minutes"),
            SqlDateBinKind::OneHour => String::from_str("1 hour"),
            SqlDateBinKind::SixHours => String::from_str("6 hours"),
        }
    }

    /// The three arguments of the query function `date_bin`: the length of the
    /// bins, the column that holds the time, and the time from which bins are
    /// counted.
    pub fn construct_expr(self) -> (r: Vec<String>)
        ensures
            r@.len() == 3,
            r@[0]@ == date_bin_text(self.date_bin),
            r@[1] == self.date_field,
            r@[2]@ == REFERENCE_DATE@,
    {
        let mut r: Vec<String> = Vec::new();
        r.push(self.resample_bin_parser(&self.date_bin));
        r.push(self.date_field);
        r.push(String::from_str(REFERENCE_DATE));
        r
    }
}

/// The layout of a resampling run: where the data comes from, where it goes,
/// and how it is gathered.
#[derive(Debug)]
pub struct ParquetResampler {
    /// The address of the input data.
    pub input_store_url: String,
    /// The directory that takes the output files.
    pub output_path: String,
    pub output_format: OutputFormat,
    /// The frequency of the input data.
    pub input_data_freq: DataFreq,
    /// The length of the bins into which records are gathered.
    pub output_data_freq: DataFreq,
    pub output_file_partition: FilePartition,
    /// The columns that are averaged over each bin.
    pub agg_fields: Option<Vec<String>>,
    /// The column that holds the time of a record.
    pub time_index: Option<String>,
    /// The column that holds the station of a record.
    pub station_field: Option<String>,
    /// The stations to which the run is held; unused.
    pub include_stations: Option<Vec<String>>,
    /// The extension of the input files.
    pub input_ext: String,
    /// The most memory that the run may take, in bytes.
    pub memory_limit: Option<usize>,
}

impl ParquetResampler {
    /// The layout of a run that reads from `input_store`, or from `input_path`
    /// where no store is given. The output may not be more frequent than the
    /// input. A memory limit that no `usize` holds is no limit.
    pub fn new(
        input_store: Option<&AdamTarFileObjectStore>,
        input_path: String,
        output_path: String,
        output_format: OutputFormat,
        input_data_freq: DataFreq,
        output_data_freq: DataFreq,
        output_file_partition: FilePartition,
        time_index: Option<String>,
        station_field: Option<String>,
        agg_fields: Option<Vec<String>>,
        memory_limit_gb: Option<usize>,
    ) -> (r: Self)
        requires
            data_freq_seconds(input_data_freq) <= data_freq_seconds(output_data_freq),
        ensures
            r.input_store_url@ == if input_store is Some {
                TAR_PQ_STORE_BASE_URI@
            } else {
                input_path@
            },
            r.input_ext@ == if input_store is Some {
                PQ_EXTENSION@
            } else {
                Seq::<char>::empty()
            },
            r.output_path == output_path,
            r.output_format == output_format,
            r.input_data_freq == input_data_freq,
            r.output_data_freq == output_data_freq,
            r.output_file_partition == output_file_partition,
            r.agg_fields == agg_fields,
            r.time_index == time_index,
            r.station_field == station_field,
            r.include_stations is None,
            r.memory_limit == match memory_limit_gb {
                Some(gb) => if gb * 1073741824 <= usize::MAX {
                    Some((gb * 1073741824) as usize)
                } else {
                    None::<usize>
                },
                None => None,
            },
    {
        let input_store_url = match input_store {
            Some(_) => String::from_str(TAR_PQ_STORE_BASE_URI),
            None => input_path,
        };
        let input_ext = match input_store {
            Some(_) => String::from_str(PQ_EXTENSION),
            None => String::new(),
        };
        let memory_limit = match memory_limit_gb {
            Some(gb) => gb_to_b(gb),
            None => None,
        };
        ParquetResampler {
            input_store_url,
            output_path,
            output_format,
            input_data_freq,
            output_data_freq,
            output_file_partition,
            agg_fields,
            time_index,
            station_field,
            include_stations: None,
            input_ext,
            memory_limit,
        }
    }

    /// Whether a run may read data of the frequency `input` and write data of
    /// the frequency `output`: the output is not more frequent than the input.
    pub fn is_downsampling(input: DataFreq, output: DataFreq) -> (b: bool)
        ensures
            b == (data_freq_seconds(input) <= data_freq_seconds(output)),
    {
        Seconds::from(input) <= Seconds::from(output)
    }

    /// The name of the column that holds the time of a record.
    pub fn time_index_or_default(&self) -> (r: String)
        ensures
            r@ == match self.time_index {
                Some(t) => t@,
                None => DEFAULT_TIME_INDEX@,
            },
    {
        match &self.time_index {
            Some(t) => t.clone(),
            None => String::from_str(DEFAULT_TIME_INDEX),
        }
    }

    /// The three arguments of the query function `date_bin`: the length of the
    /// bins, the column that holds the time, and the time from which bins are
    /// counted.
    pub fn build_resample_expr(&self) -> (r: Vec<String>)
        requires
            !(self.output_data_freq is CustomFreqSeconds),
        ensures
            r@.len() == 3,
            r@[0]@ == interval_text(self.output_data_freq),
            r@[1]@ == match self.time_index {
                Some(t) => t@,
                None => DEFAULT_TIME_INDEX@,
            },
            r@[2]@ == REFERENCE_DATE@,
    {
        let interval = match self.output_data_freq {
            DataFreq::OneMin => "1 minute",
            DataFreq::TenMins => "10 minutes",
            DataFreq::OneHour => "1 hour",
            DataFreq::OneDay => "1 day",
            DataFreq::CustomFreqSeconds(_) => "",
        };
        let mut r: Vec<String> = Vec::new();
        r.push(String::from_str(interval));
        r.push(self.time_index_or_default());
        r.push(String::from_str(REFERENCE_DATE));
        r
    }

    /// The columns that the run reads: the station, the time, and then the
    /// columns that are averaged, in their order.
    pub fn columns(&self) -> (r: Vec<String>)
        requires
            self.station_field is Some,
            self.time_index is Some,
            self.agg_fields is Some,
        ensures
            r@ == seq![self.station_field->0, self.time_index->0] + self.agg_fields->0@,
    {
        let mut r: Vec<String> = Vec::new();
        match &self.station_field {
            Some(s) => r.push(s.clone()),
            None => {},
        }
        match &self.time_index {
            Some(t) => r.push(t.clone()),
            None => {},
        }
        match &self.agg_fields {
            Some(fields) => {
                let mut i: usize = 0;
                while i < fields.len()
                    invariant
                        i <= fields.len(),
                        self.agg_fields == Some(*fields),
                        r@ == seq![self.station_field->0, self.time_index->0] + fields@.subrange(
                            0,
                            i as int,
                        ),
                    decreases fields.len() - i,
                {
                    r.push(fields[i].clone());
                    i += 1;
                }
                proof {
                    assert(fields@.subrange(0, i as int) == fields@);
                }
            },
            None => {},
        }
        r
    }
}

} // verus!
