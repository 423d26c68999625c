//! The ways in which an index or a store refuses a request.

use vstd::prelude::*;
use vstd::string::StringExecFns;

verus! {

/// Why a request was refused.
#[derive(Clone, Copy, Debug, PartialEq, Eq, Structural, Hash)]
pub enum TarStoreError {
    /// No entry of the archive is mapped to the location.
    NotFound,
    /// The byte range does not lie within the entry.
    OutOfRange,
    /// The store is read-only: it does not write, delete or copy.
    Unsupported,
    /// An entry of the archive names no date in its path.
    ArchiveCorrupt,
    /// No index was restored from the cache, or none could be saved.
    CacheUnavailable,
    /// A range of dates ends before it starts.
    InvalidDateRange,
}

impl TarStoreError {
    /// The text of the message for each refusal.
    pub open spec fn message_text(self) -> Seq<char> {
        match self {
            TarStoreError::NotFound => "no archive entry is mapped to this location"@,
            TarStoreError::OutOfRange => "the byte range exceeds the bounds of the entry"@,
            TarStoreError::Unsupported => "the store is read-only"@,
            TarStoreError::ArchiveCorrupt => "an archive entry names no date in its path"@,
            TarStoreError::CacheUnavailable => "no cached index is available"@,
            TarStoreError::InvalidDateRange => "the date range ends before it starts"@,
        }
    }

    /// A message for whoever reads the refusal.
    pub fn message(&self) -> (s: String)
        ensures
            s@ == self.message_text(),
    {
        match self {
            TarStoreError::NotFound => String::from_str(
                "no archive entry is mapped to this location",
            ),
            TarStoreError::OutOfRange => String::from_str(
                "the byte range exceeds the bounds of the entry",
            ),
            TarStoreError::Unsupported => String::from_str("the store is read-only"),
            TarStoreError::ArchiveCorrupt => String::from_str(
                "an archive entry names no date in its path",
            ),
            TarStoreError::CacheUnavailable => String::from_str("no cached index is available"),
            TarStoreError::InvalidDateRange => String::from_str(
                "the date range ends before it starts",
            ),
        }
    }
}

} // verus!
