//! A read-only object store over the files of an uncompressed tar archive.
//!
//! The archive is indexed once: every entry is recorded with the byte range of
//! its payload and with the calendar date named in its path. A store is then
//! built over the entries that a caller asks for by logical location, and
//! answers range reads, metadata lookups and listings from that index alone.
//!
//! Beside the store stand the layouts of the runs that read from it: a
//! resampling run, a query over a directory of files, and the combining of the
//! files of one month.

pub mod combine;
pub mod date;
pub mod error;
pub mod location_map;
pub mod metadata_extract;
pub mod object_path;
pub mod pattern;
pub mod querier;
pub mod resampler;
pub mod tar_metadata;
pub mod tar_object_store;
pub mod text;
