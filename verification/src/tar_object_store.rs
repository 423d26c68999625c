//! The store: the mapped entries of one archive, read by location.
//!
//! A store answers from its map alone. A range read gives the window of the
//! archive file that holds the bytes asked for, and the bytes themselves where
//! the caller has the archive in memory. Nothing can be written, deleted or
//! copied.

use crate::date::{is_calendar_date, iso_text};
use crate::error::TarStoreError;
use crate::location_map::{
    distinct_keys, has_key, key_index, value_of, with_entry, EntryMetadataLocationHash,
    LocationSeq,
};
use crate::metadata_extract::{
    first_match, lemma_first_match_is_entry, matched_entry, AdamTarMetadataExtract,
    ExtractTarEntryMetadata,
};
use crate::object_path::{
    canonical_path, child_of, child_path, find_first_slash, first_segment, is_below, is_nested,
    parsed_path, remainder_below, remainder_start,
};
use crate::pattern::{lemma_location_text_is_path, lemma_location_text_tokens, location_text};
use crate::tar_metadata::{
    all_dated, all_in_bounds, collected, in_bounds, is_stable_sort_by_date, EntryMetadata,
    EntryMetadataVec, RawEntry,
};
use crate::text::{chars_of, contains_string, texts};
use vstd::prelude::*;
use vstd::string::StrSliceExecFns;

verus! {

/// The address under which a query engine registers the store.
pub const TAR_PQ_STORE_BASE_URI: &'static str = "tar+pq://";

/// The extension of the files that the store serves.
pub const PQ_EXTENSION: &'static str = ".parquet";

/// The name of the table that a query engine reads from the store.
pub const ADAM_OBS_TABLE_NAME: &'static str = "adam_obs";

/// A range of bytes, from `start` up to `end`, `end` left out.
#[derive(Clone, Copy, Debug, PartialEq, Eq, Structural, Hash)]
pub struct ByteRange {
    pub start: u64,
    pub end: u64,
}

/// What a store says of one object.
#[derive(Debug, PartialEq, Eq)]
pub struct ObjectMetadata {
    /// The location of the object.
    pub location: String,
    /// The modification time in seconds since the epoch.
    pub last_modified: u64,
    /// The length of the object in bytes.
    pub size: u64,
}

/// What a store hands out for a read: the object, and the window of the
/// archive file that holds the bytes asked for.
#[derive(Debug, PartialEq, Eq)]
pub struct GetResult {
    pub meta: ObjectMetadata,
    pub range: ByteRange,
}

/// One level of a listing: the subdirectories, and the objects that lie in the
/// directory itself.
#[derive(Debug, PartialEq, Eq)]
pub struct ListResult {
    pub common_prefixes: Vec<String>,
    pub objects: Vec<ObjectMetadata>,
}

/// Whether `meta` says of the object at `pair.0` what the entry `pair.1` holds.
pub open spec fn describes(meta: ObjectMetadata, pair: (Seq<char>, EntryMetadata)) -> bool {
    &&& meta.location@ == pair.0
    &&& meta.last_modified == pair.1.mtime
    &&& meta.size == pair.1.size
}

/// Whether `metas` describes the objects of `pairs`, one for one and in order.
pub open spec fn describe_all(metas: Seq<ObjectMetadata>, pairs: LocationSeq) -> bool {
    &&& metas.len() == pairs.len()
    &&& forall|i: int| 0 <= i < metas.len() ==> describes(#[trigger] metas[i], pairs[i])
}

/// The directory that a listing is asked for: the root where none is named.
pub open spec fn prefix_text(prefix: Option<&str>) -> Seq<char> {
    match prefix {
        Some(p) => p@,
        None => Seq::empty(),
    }
}

/// The objects of `m` that lie below the directory `prefix`, in the order of
/// `m`.
pub open spec fn objects_below(m: LocationSeq, prefix: Seq<char>) -> LocationSeq
    decreases m.len(),
{
    if m.len() == 0 {
        Seq::empty()
    } else {
        let before = objects_below(m.drop_last(), prefix);
        if is_below(m.last().0, prefix) {
            before.push(m.last())
        } else {
            before
        }
    }
}

/// Whether `location` lies in the directory `prefix` itself: below it by one
/// segment.
pub open spec fn is_direct_child(location: Seq<char>, prefix: Seq<char>) -> bool {
    is_below(location, prefix) && !is_nested(remainder_below(location, prefix).unwrap())
}

/// Whether `location` lies in a subdirectory of the directory `prefix`.
pub open spec fn is_in_subdirectory(location: Seq<char>, prefix: Seq<char>) -> bool {
    is_below(location, prefix) && is_nested(remainder_below(location, prefix).unwrap())
}

/// The subdirectory of `prefix` in which `location` lies.
pub open spec fn subdirectory_of(location: Seq<char>, prefix: Seq<char>) -> Seq<char> {
    child_path(prefix, first_segment(remainder_below(location, prefix).unwrap()))
}

/// The objects of `m` that lie in the directory `prefix` itself, in the order
/// of `m`.
pub open spec fn direct_children(m: LocationSeq, prefix: Seq<char>) -> LocationSeq
    decreases m.len(),
{
    if m.len() == 0 {
        Seq::empty()
    } else {
        let before = direct_children(m.drop_last(), prefix);
        if is_direct_child(m.last().0, prefix) {
            before.push(m.last())
        } else {
            before
        }
    }
}

/// The subdirectories of `prefix` that hold objects of `m`, each once, in the
/// order in which `m` first reaches them.
pub open spec fn subdirectories(m: LocationSeq, prefix: Seq<char>) -> Seq<Seq<char>>
    decreases m.len(),
{
    if m.len() == 0 {
        Seq::empty()
    } else {
        let before = subdirectories(m.drop_last(), prefix);
        if is_in_subdirectory(m.last().0, prefix) && !before.contains(
            subdirectory_of(m.last().0, prefix),
        ) {
            before.push(subdirectory_of(m.last().0, prefix))
        } else {
            before
        }
    }
}

/// The map of a store that was asked for `locations`: each location that is
/// served by an entry and writes an object path is mapped under that path to
/// that entry. Where two locations write one path, the first stays.
pub open spec fn served(
    locations: Seq<Seq<char>>,
    entries: Seq<EntryMetadata>,
    prefix: Seq<char>,
) -> LocationSeq
    decreases locations.len(),
{
    if locations.len() == 0 {
        Seq::empty()
    } else {
        let before = served(locations.drop_last(), entries, prefix);
        let location = locations.last();
        match (matched_entry(entries, prefix, location), parsed_path(location)) {
            (Some(e), Some(path)) => with_entry(before, path, e),
            _ => before,
        }
    }
}

/// The window of an archive that holds the bytes `range` of the entry `e`, or
/// the whole of `e` where no range is given. A range that does not lie within
/// the entry has no window.
pub open spec fn window_of(e: EntryMetadata, range: Option<ByteRange>) -> Option<ByteRange> {
    match range {
        None => Some(
            ByteRange {
                start: e.raw_file_position,
                end: (e.raw_file_position + e.size) as u64,
            },
        ),
        Some(r) => if r.start <= r.end <= e.size {
            Some(
                ByteRange {
                    start: (e.raw_file_position + r.start) as u64,
                    end: (e.raw_file_position + r.end) as u64,
                },
            )
        } else {
            None
        },
    }
}

/// A read-only store over the mapped entries of one archive.
#[derive(Debug)]
pub struct AdamTarFileObjectStore {
    tar_path: String,
    location_to_entry_map: EntryMetadataLocationHash,
    tar_metadata_all: EntryMetadataVec,
}

impl AdamTarFileObjectStore {
    /// The path of the archive file.
    pub closed spec fn spec_tar_path(&self) -> Seq<char> {
        self.tar_path@
    }

    /// The objects of the store, each with the entry that holds it.
    pub closed spec fn locations(&self) -> LocationSeq {
        self.location_to_entry_map@
    }

    /// The index of the archive.
    pub closed spec fn spec_tar_metadata_all(&self) -> EntryMetadataVec {
        self.tar_metadata_all
    }

    /// The length of the archive file in bytes.
    pub open spec fn spec_archive_len(&self) -> int {
        self.spec_tar_metadata_all().spec_archive_len()
    }

    /// No location is mapped twice, and every mapped entry lies within the
    /// archive.
    pub open spec fn wf(&self) -> bool {
        &&& distinct_keys(self.locations())
        &&& forall|i: int|
            0 <= i < self.locations().len() ==> in_bounds(
                (#[trigger] self.locations()[i]).1,
                self.spec_archive_len(),
            )
        &&& self.spec_tar_metadata_all().wf()
    }

    /// Whether the store has an object at `location`.
    pub open spec fn has(&self, location: Seq<char>) -> bool {
        has_key(self.locations(), location)
    }

    /// The entry that holds the object at `location`.
    pub open spec fn entry_at(&self, location: Seq<char>) -> EntryMetadata {
        value_of(self.locations(), location)
    }
}

/// What the store says of the object at `location`, held by the entry `e`.
fn metadata_of(location: &String, e: &EntryMetadata) -> (meta: ObjectMetadata)
    ensures
        describes(meta, (location@, *e)),
{
    ObjectMetadata { location: location.clone(), last_modified: e.mtime, size: e.size }
}

impl AdamTarFileObjectStore {
    /// A store over the archive at `tar_path` that serves `locations`.
    ///
    /// `entry_metadata` is the index that a cache gave back, or an empty one;
    /// an empty one is built from `scanned`, the headers of the archive in the
    /// order of the archive, and the build fails if a header whose payload
    /// lies within the archive names no date in its path. Each location is then
    /// matched to the first entry whose path holds the date token of the
    /// location and `prefix`. A location that no entry serves, or that writes
    /// no object path, is left out.
    pub fn new_with_locations(
        locations: Vec<String>,
        tar_path: &String,
        prefix: &String,
        entry_metadata: EntryMetadataVec,
        scanned: &Vec<RawEntry>,
    ) -> (r: Result<Self, TarStoreError>)
        requires
            entry_metadata.wf(),
        ensures
            r is Ok <==> entry_metadata.is_cached() || all_dated(
                scanned@,
                entry_metadata.spec_archive_len(),
            ),
            r matches Err(e) ==> e == TarStoreError::ArchiveCorrupt,
            r matches Ok(store) ==> {
                &&& store.wf()
                &&& store.spec_tar_path() == tar_path@
                &&& store.spec_archive_len() == entry_metadata.spec_archive_len()
                &&& all_in_bounds(store.spec_tar_metadata_all()@, store.spec_archive_len())
                &&& if entry_metadata.is_cached() {
                    store.spec_tar_metadata_all()@ == entry_metadata@
                } else {
                    is_stable_sort_by_date(
                        collected(scanned@, entry_metadata.spec_archive_len()),
                        store.spec_tar_metadata_all()@,
                    )
                }
                &&& store.locations() == served(
                    texts(locations@),
                    store.spec_tar_metadata_all()@,
                    prefix@,
                )
            },
    {
        let mut adam_tar_metadata = AdamTarMetadataExtract::new(
            tar_path.clone(),
            prefix.clone(),
            entry_metadata,
        );
        match adam_tar_metadata.extract_metadata(scanned) {
            Ok(()) => Ok(Self::from_metadata(locations, adam_tar_metadata)),
            Err(e) => Err(e),
        }
    }

    /// A store over the archive that `adam_tar_metadata` has indexed, that
    /// serves `locations`. Each location is matched to the first entry of the
    /// index whose path holds the date token of the location and the prefix. A
    /// location that no entry serves, or that writes no object path, is left
    /// out.
    pub fn from_metadata(locations: Vec<String>, metadata: AdamTarMetadataExtract) -> (store: Self)
        requires
            metadata.wf(),
        ensures
            store.wf(),
            store.spec_tar_path() == metadata.spec_tar_path(),
            store.spec_tar_metadata_all()@ == metadata.entries(),
            store.spec_archive_len() == metadata.spec_entry_metadata().spec_archive_len(),
            store.spec_tar_metadata_all().is_cached()
                == metadata.spec_entry_metadata().is_cached(),
            store.locations() == served(
                texts(locations@),
                metadata.entries(),
                metadata.spec_prefix(),
            ),
    {
        let mut adam_tar_metadata = metadata;
        let ghost tar_path = adam_tar_metadata.spec_tar_path();
        let mut location_to_entry_map = EntryMetadataLocationHash::new();
        let ghost entries = adam_tar_metadata.entries();
        let ghost prefix = adam_tar_metadata.spec_prefix();
        let ghost index = adam_tar_metadata.spec_entry_metadata();
        let ghost archive_len = adam_tar_metadata.spec_entry_metadata().spec_archive_len();
        proof {
            adam_tar_metadata.lemma_wf();
        }
        let mut i: usize = 0;
        while i < locations.len()
            invariant
                i <= locations.len(),
                adam_tar_metadata.wf(),
                adam_tar_metadata.spec_entry_metadata() == index,
                adam_tar_metadata.entries() == entries,
                adam_tar_metadata.spec_prefix() == prefix,
                adam_tar_metadata.spec_tar_path() == tar_path,
                index.spec_archive_len() == archive_len,
                all_in_bounds(entries, archive_len),
                location_to_entry_map.wf(),
                location_to_entry_map@ == served(
                    texts(locations@).subrange(0, i as int),
                    entries,
                    prefix,
                ),
                forall|k: int|
                    0 <= k < location_to_entry_map@.len() ==> in_bounds(
                        (#[trigger] location_to_entry_map@[k]).1,
                        archive_len,
                    ),
            decreases locations.len() - i,
        {
            let location = &locations[i];
            proof {
                let now = texts(locations@).subrange(0, i + 1);
                assert(now.drop_last() == texts(locations@).subrange(0, i as int));
                assert(now.last() == location@);
            }
            if adam_tar_metadata.add_entry_if_exists(location.clone()) {
                let entry = adam_tar_metadata.get_entry(location.clone());
                proof {
                    lemma_first_match_is_entry(entries, prefix, location@);
                }
                match canonical_path(location.as_str()) {
                    Some(path) => {
                        let ghost before = location_to_entry_map@;
                        location_to_entry_map.insert(path, entry.clone());
                        proof {
                            let m = location_to_entry_map@;
                            assert forall|k: int| 0 <= k < m.len() implies in_bounds(
                                (#[trigger] m[k]).1,
                                archive_len,
                            ) by {
                                if k < before.len() {
                                    assert(m[k] == before[k]);
                                }
                            }
                        }
                    },
                    None => {},
                }
            }
            i += 1;
        }
        proof {
            assert(texts(locations@).subrange(0, i as int) == texts(locations@));
        }
        let tar_metadata_all = adam_tar_metadata.entry_metadata().clone();
        AdamTarFileObjectStore {
            tar_path: adam_tar_metadata.tar_path().clone(),
            location_to_entry_map,
            tar_metadata_all,
        }
    }

    /// The path of the archive file.
    pub fn tar_path(&self) -> (r: &String)
        ensures
            r@ == self.spec_tar_path(),
    {
        &self.tar_path
    }

    /// The address under which a query engine registers the store.
    pub fn obj_store_root(&self) -> (r: &'static str)
        ensures
            r@ == TAR_PQ_STORE_BASE_URI@,
    {
        TAR_PQ_STORE_BASE_URI
    }

    /// The index of the archive: all its entries, mapped or not.
    pub fn tar_metadata_all(&self) -> (r: &EntryMetadataVec)
        ensures
            *r == self.spec_tar_metadata_all(),
    {
        &self.tar_metadata_all
    }

    /// The number of objects.
    pub fn len(&self) -> (n: usize)
        ensures
            n == self.locations().len(),
    {
        self.location_to_entry_map.len()
    }

    /// Whether the store has an object at `location`.
    pub fn contains(&self, location: &str) -> (b: bool)
        ensures
            b == self.has(location@),
    {
        self.location_to_entry_map.contains_key(location)
    }

    /// The object at `location`, and the window of the archive file that holds
    /// its bytes `range`, or all its bytes where no range is given.
    pub fn get_opts(&self, location: &str, range: Option<ByteRange>) -> (r: Result<
        GetResult,
        TarStoreError,
    >)
        requires
            self.wf(),
        ensures
            r is Ok <==> self.has(location@) && window_of(self.entry_at(location@), range) is Some,
            !self.has(location@) ==> r == Err::<GetResult, TarStoreError>(TarStoreError::NotFound),
            self.has(location@) && window_of(self.entry_at(location@), range) is None ==> r
                == Err::<GetResult, TarStoreError>(TarStoreError::OutOfRange),
            r matches Ok(got) ==> {
                &&& Some(got.range) == window_of(self.entry_at(location@), range)
                &&& describes(got.meta, (location@, self.entry_at(location@)))
                &&& got.range.start <= got.range.end
                &&& self.entry_at(location@).raw_file_position <= got.range.start
                &&& got.range.end <= self.entry_at(location@).raw_file_position + self.entry_at(
                    location@,
                ).size
                &&& got.range.end <= self.spec_archive_len()
            },
    {
        let entry = match self.location_to_entry_map.get(location) {
            Some(e) => e,
            None => {
                return Err(TarStoreError::NotFound);
            },
        };
        proof {
            let k = key_index(self.locations(), location@);
            assert(in_bounds(self.locations()[k].1, self.spec_archive_len()));
            self.tar_metadata_all.lemma_archive_len_bounds();
        }
        let window = match range {
            None => ByteRange {
                start: entry.raw_file_position,
                end: entry.raw_file_position + entry.size,
            },
            Some(r) => {
                if r.start <= r.end && r.end <= entry.size {
                    ByteRange {
                        start: entry.raw_file_position + r.start,
                        end: entry.raw_file_position + r.end,
                    }
                } else {
                    return Err(TarStoreError::OutOfRange);
                }
            },
        };
        Ok(
            GetResult {
                meta: ObjectMetadata {
                    location: location.to_owned(),
                    last_modified: entry.mtime,
                    size: entry.size,
                },
                range: window,
            },
        )
    }

    /// The window of the archive file that holds the bytes `range` of the
    /// object at `location`, or all its bytes where no range is given.
    pub fn get_range(&self, location: &str, range: Option<ByteRange>) -> (r: Result<
        ByteRange,
        TarStoreError,
    >)
        requires
            self.wf(),
        ensures
            r == if !self.has(location@) {
                Err::<ByteRange, TarStoreError>(TarStoreError::NotFound)
            } else {
                match window_of(self.entry_at(location@), range) {
                    Some(w) => Ok(w),
                    None => Err(TarStoreError::OutOfRange),
                }
            },
            r matches Ok(w) ==> w.start <= w.end <= self.spec_archive_len(),
    {
        match self.get_opts(location, range) {
            Ok(got) => Ok(got.range),
            Err(e) => Err(e),
        }
    }

    /// The bytes `range` of the object at `location`, or all its bytes where no
    /// range is given, read from `archive`, the content of the archive file. An
    /// archive of another length than the one that was indexed is refused as
    /// corrupt.
    pub fn read_range<'a>(
        &self,
        archive: &'a [u8],
        location: &str,
        range: Option<ByteRange>,
    ) -> (r: Result<&'a [u8], TarStoreError>)
        requires
            self.wf(),
        ensures
            r is Ok <==> archive@.len() == self.spec_archive_len() && self.has(location@)
                && window_of(self.entry_at(location@), range) is Some,
            r matches Ok(bytes) ==> bytes@ == archive@.subrange(
                window_of(self.entry_at(location@), range).unwrap().start as int,
                window_of(self.entry_at(location@), range).unwrap().end as int,
            ),
            r matches Err(e) ==> e == if archive@.len() != self.spec_archive_len() {
                TarStoreError::ArchiveCorrupt
            } else if !self.has(location@) {
                TarStoreError::NotFound
            } else {
                TarStoreError::OutOfRange
            },
    {
        let archive_len = self.tar_metadata_all.archive_len();
        if archive.len() as u64 != archive_len {
            return Err(TarStoreError::ArchiveCorrupt);
        }
        match self.get_range(location, range) {
            Ok(window) => Ok(
                vstd::slice::slice_subrange(archive, window.start as usize, window.end as usize),
            ),
            Err(e) => Err(e),
        }
    }

    /// What the store says of the object at `location`.
    pub fn head(&self, location: &str) -> (r: Result<ObjectMetadata, TarStoreError>)
        requires
            self.wf(),
        ensures
            r is Ok <==> self.has(location@),
            r matches Err(e) ==> e == TarStoreError::NotFound,
            r matches Ok(meta) ==> describes(meta, (location@, self.entry_at(location@))),
    {
        match self.location_to_entry_map.get(location) {
            Some(e) => Ok(
                ObjectMetadata {
                    location: location.to_owned(),
                    last_modified: e.mtime,
                    size: e.size,
                },
            ),
            None => Err(TarStoreError::NotFound),
        }
    }

    /// The objects below the directory `prefix`, or all objects where none is
    /// named, in the order of the store. An object at `prefix` itself is not
    /// among them.
    pub fn list(&self, prefix: Option<&str>) -> (r: Vec<ObjectMetadata>)
        ensures
            describe_all(r@, objects_below(self.locations(), prefix_text(prefix))),
    {
        let prefix_chars = match prefix {
            Some(p) => chars_of(p),
            None => Vec::new(),
        };
        let pairs = self.location_to_entry_map.inner();
        let ghost m = self.locations();
        let ghost p = prefix_text(prefix);
        let mut objects: Vec<ObjectMetadata> = Vec::new();
        let mut i: usize = 0;
        while i < pairs.len()
            invariant
                i <= pairs.len(),
                pairs@.len() == m.len(),
                prefix_chars@ == p,
                forall|k: int| 0 <= k < pairs@.len() ==> (#[trigger] pairs@[k]).0@ == m[k].0,
                forall|k: int| 0 <= k < pairs@.len() ==> (#[trigger] pairs@[k]).1 == m[k].1,
                describe_all(objects@, objects_below(m.subrange(0, i as int), p)),
            decreases pairs.len() - i,
        {
            let location = &pairs[i].0;
            let location_chars = chars_of(location.as_str());
            proof {
                let now = m.subrange(0, i + 1);
                assert(now.drop_last() == m.subrange(0, i as int));
                assert(now.last() == m[i as int]);
            }
            let below = match remainder_start(&location_chars, &prefix_chars) {
                Some(start) => start < location_chars.len(),
                None => false,
            };
            if below {
                objects.push(metadata_of(location, &pairs[i].1));
            }
            i += 1;
        }
        proof {
            assert(m.subrange(0, i as int) == m);
        }
        objects
    }

    /// One level of the listing of the directory `prefix`, or of the root
    /// where none is named: the objects that lie in the directory itself, in
    /// the order of the store, and the subdirectories that hold objects, each
    /// once, in the order in which the store first reaches them.
    pub fn list_with_delimiter(&self, prefix: Option<&str>) -> (r: ListResult)
        ensures
            describe_all(r.objects@, direct_children(self.locations(), prefix_text(prefix))),
            texts(r.common_prefixes@) == subdirectories(self.locations(), prefix_text(prefix)),
    {
        let prefix_str: &str = match prefix {
            Some(p) => p,
            None => "",
        };
        proof {
            reveal_strlit("");
            assert(prefix_str@ =~= prefix_text(prefix));
        }
        let prefix_chars = chars_of(prefix_str);
        let pairs = self.location_to_entry_map.inner();
        let ghost m = self.locations();
        let ghost p = prefix_text(prefix);
        let mut objects: Vec<ObjectMetadata> = Vec::new();
        let mut common_prefixes: Vec<String> = Vec::new();
        let mut i: usize = 0;
        while i < pairs.len()
            invariant
                i <= pairs.len(),
                pairs@.len() == m.len(),
                prefix_chars@ == p,
                prefix_str@ == p,
                forall|k: int| 0 <= k < pairs@.len() ==> (#[trigger] pairs@[k]).0@ == m[k].0,
                forall|k: int| 0 <= k < pairs@.len() ==> (#[trigger] pairs@[k]).1 == m[k].1,
                describe_all(objects@, direct_children(m.subrange(0, i as int), p)),
                texts(common_prefixes@) == subdirectories(m.subrange(0, i as int), p),
            decreases pairs.len() - i,
        {
            let location = &pairs[i].0;
            let location_chars = chars_of(location.as_str());
            proof {
                let now = m.subrange(0, i + 1);
                assert(now.drop_last() == m.subrange(0, i as int));
                assert(now.last() == m[i as int]);
            }
            match remainder_start(&location_chars, &prefix_chars) {
                Some(start) => {
                    if start < location_chars.len() {
                        let slash = find_first_slash(&location_chars, start);
                        if location_chars.len() - slash > 1 {
                            let part = location.as_str().substring_char(start, slash);
                            proof {
                                let rest = location@.subrange(
                                    start as int,
                                    location@.len() as int,
                                );
                                assert(part@ =~= first_segment(rest));
                            }
                            let child = child_of(prefix_str, part);
                            if !contains_string(&common_prefixes, &child) {
                                let ghost before = texts(common_prefixes@);
                                common_prefixes.push(child);
                                proof {
                                    assert(texts(common_prefixes@) =~= before.push(child@));
                                }
                            }
                        } else {
                            objects.push(metadata_of(location, &pairs[i].1));
                        }
                    }
                },
                None => {},
            }
            i += 1;
        }
        proof {
            assert(m.subrange(0, i as int) == m);
        }
        ListResult { common_prefixes, objects }
    }

    /// Refused: the store does not write.
    pub fn put(&self, location: &str, bytes: &[u8]) -> (r: Result<(), TarStoreError>)
        ensures
            r == Err::<(), TarStoreError>(TarStoreError::Unsupported),
    {
        Err(TarStoreError::Unsupported)
    }

    /// Refused: the store does not write.
    pub fn put_multipart(&self, location: &str) -> (r: Result<(), TarStoreError>)
        ensures
            r == Err::<(), TarStoreError>(TarStoreError::Unsupported),
    {
        Err(TarStoreError::Unsupported)
    }

    /// Refused: the store does not write, so it has no upload to give up.
    pub fn abort_multipart(&self, location: &str, multipart_id: &str) -> (r: Result<
        (),
        TarStoreError,
    >)
        ensures
            r == Err::<(), TarStoreError>(TarStoreError::Unsupported),
    {
        Err(TarStoreError::Unsupported)
    }

    /// Refused: the store does not delete.
    pub fn delete(&self, location: &str) -> (r: Result<(), TarStoreError>)
        ensures
            r == Err::<(), TarStoreError>(TarStoreError::Unsupported),
    {
        Err(TarStoreError::Unsupported)
    }

    /// Refused: the store does not copy.
    pub fn copy(&self, from: &str, to: &str) -> (r: Result<(), TarStoreError>)
        ensures
            r == Err::<(), TarStoreError>(TarStoreError::Unsupported),
    {
        Err(TarStoreError::Unsupported)
    }

    /// Refused: the store does not copy.
    pub fn copy_if_not_exists(&self, from: &str, to: &str) -> (r: Result<(), TarStoreError>)
        ensures
            r == Err::<(), TarStoreError>(TarStoreError::Unsupported),
    {
        Err(TarStoreError::Unsupported)
    }
}

/// Whether the location at index `i` of `locations` is served by an entry and
/// writes the object path `path`.
pub open spec fn is_served_at(
    locations: Seq<Seq<char>>,
    entries: Seq<EntryMetadata>,
    prefix: Seq<char>,
    path: Seq<char>,
    i: int,
) -> bool {
    &&& 0 <= i < locations.len()
    &&& parsed_path(locations[i]) == Some(path)
    &&& matched_entry(entries, prefix, locations[i]) is Some
}

/// A store has an object at a path if and only if one of the locations that it
/// was asked for writes that path and is served by an entry; the object is
/// then held by the entry that serves such a location. No path is mapped twice.
pub proof fn lemma_served(
    locations: Seq<Seq<char>>,
    entries: Seq<EntryMetadata>,
    prefix: Seq<char>,
    path: Seq<char>,
)
    ensures
        distinct_keys(served(locations, entries, prefix)),
        has_key(served(locations, entries, prefix), path) <==> exists|i: int|
            is_served_at(locations, entries, prefix, path, i),
        has_key(served(locations, entries, prefix), path) ==> exists|i: int|
            is_served_at(locations, entries, prefix, path, i) && matched_entry(
                entries,
                prefix,
                locations[i],
            ) == Some(value_of(served(locations, entries, prefix), path)),
    decreases locations.len(),
{
    let m = served(locations, entries, prefix);
    if locations.len() > 0 {
        let shorter = locations.drop_last();
        let before = served(shorter, entries, prefix);
        let location = locations.last();
        let last = locations.len() - 1;
        lemma_served(shorter, entries, prefix, path);
        assert forall|i: int| is_served_at(shorter, entries, prefix, path, i) implies is_served_at(
            locations,
            entries,
            prefix,
            path,
            i,
        ) by {
            assert(shorter[i] == locations[i]);
        }
        let added = matched_entry(entries, prefix, location) is Some && parsed_path(location) is Some
            && !has_key(before, parsed_path(location).unwrap());
        if added {
            let new_path = parsed_path(location).unwrap();
            let e = matched_entry(entries, prefix, location).unwrap();
            assert(m == before.push((new_path, e)));
            assert forall|a: int, b: int| 0 <= a < b < m.len() implies (#[trigger] m[a]).0 != (
            #[trigger] m[b]).0 by {
                if b == m.len() - 1 {
                    assert(m[a] == before[a]);
                } else {
                    assert(m[a] == before[a] && m[b] == before[b]);
                }
            }
        } else {
            assert(m == before);
        }
        if has_key(m, path) {
            let j = key_index(m, path);
            if j < before.len() {
                assert(m[j] == before[j]);
                assert(has_key(before, path));
                let jb = key_index(before, path);
                assert(before[jb].0 == before[j].0);
                assert(jb == j);
                let i = choose|i: int|
                    is_served_at(shorter, entries, prefix, path, i) && matched_entry(
                        entries,
                        prefix,
                        shorter[i],
                    ) == Some(value_of(before, path));
                assert(shorter[i] == locations[i]);
                assert(is_served_at(locations, entries, prefix, path, i));
            } else {
                assert(is_served_at(locations, entries, prefix, path, last));
            }
        }
        if exists|i: int| is_served_at(locations, entries, prefix, path, i) {
            let i = choose|i: int| is_served_at(locations, entries, prefix, path, i);
            if i < last {
                assert(shorter[i] == locations[i]);
                assert(is_served_at(shorter, entries, prefix, path, i));
                let jb = key_index(before, path);
                assert(m[jb] == before[jb]);
            } else if added {
                assert(m[m.len() - 1].0 == path);
            } else {
                let jb = key_index(before, path);
                assert(m[jb] == before[jb]);
            }
        }
    }
}

/// The locations of `days`.
pub open spec fn locations_of(days: Seq<(int, int, int)>) -> Seq<Seq<char>> {
    Seq::new(days.len(), |i: int| location_text(days[i]))
}

/// A store that was asked for the locations of some days has an object at the
/// location of one of these days if and only if an entry of the index holds
/// the date token of that day and the prefix in its path. The object is then
/// held by the first such entry.
pub proof fn lemma_served_days(
    days: Seq<(int, int, int)>,
    entries: Seq<EntryMetadata>,
    prefix: Seq<char>,
    k: int,
)
    requires
        forall|i: int|
            0 <= i < days.len() ==> is_calendar_date(
                (#[trigger] days[i]).0,
                days[i].1,
                days[i].2,
            ),
        0 <= k < days.len(),
    ensures
        has_key(served(locations_of(days), entries, prefix), location_text(days[k]))
            <==> first_match(entries, iso_text(days[k]), prefix) is Some,
        has_key(served(locations_of(days), entries, prefix), location_text(days[k])) ==> Some(
            value_of(served(locations_of(days), entries, prefix), location_text(days[k])),
        ) == first_match(entries, iso_text(days[k]), prefix),
{
    let locations = locations_of(days);
    let path = location_text(days[k]);
    let m = served(locations, entries, prefix);
    lemma_served(locations, entries, prefix, path);
    lemma_location_text_tokens(days[k]);
    lemma_location_text_is_path(days[k]);
    assert(locations[k] == path);
    if first_match(entries, iso_text(days[k]), prefix) is Some {
        assert(is_served_at(locations, entries, prefix, path, k));
    }
    if has_key(m, path) {
        let i = choose|i: int|
            is_served_at(locations, entries, prefix, path, i) && matched_entry(
                entries,
                prefix,
                locations[i],
            ) == Some(value_of(m, path));
        assert(is_calendar_date(days[i].0, days[i].1, days[i].2));
        lemma_location_text_is_path(days[i]);
        assert(locations[i] == location_text(days[i]));
        assert(locations[i] == path);
    }
}

/// Reading an object from its first byte to its last gives the window that
/// reading the whole object gives.
pub proof fn lemma_whole_range_is_whole_entry(e: EntryMetadata)
    ensures
        window_of(e, Some(ByteRange { start: 0, end: e.size })) == window_of(e, None),
{
}

/// A range that ends after the last byte of an object, or before its own
/// start, has no window.
pub proof fn lemma_range_outside_entry(e: EntryMetadata, range: ByteRange)
    requires
        range.end > e.size || range.start > range.end,
    ensures
        window_of(e, Some(range)) is None,
{
}

/// A window lies within the entry, and is as long as the range that was asked
/// for.
pub proof fn lemma_window_within_entry(e: EntryMetadata, range: ByteRange, archive_len: int)
    requires
        in_bounds(e, archive_len),
        archive_len <= u64::MAX,
        window_of(e, Some(range)) is Some,
    ensures
        e.raw_file_position <= window_of(e, Some(range)).unwrap().start,
        window_of(e, Some(range)).unwrap().end <= e.raw_file_position + e.size,
        window_of(e, Some(range)).unwrap().end - window_of(e, Some(range)).unwrap().start
            == range.end - range.start,
{
}

/// A listing holds the objects below the directory and no others, in the
/// order of the store. The object at the directory's own path is not among
/// them.
pub proof fn lemma_objects_below(m: LocationSeq, prefix: Seq<char>)
    ensures
        forall|j: int|
            0 <= j < objects_below(m, prefix).len() ==> {
                &&& (#[trigger] objects_below(m, prefix)[j]).0 != prefix
                &&& is_below(objects_below(m, prefix)[j].0, prefix)
                &&& m.contains(objects_below(m, prefix)[j])
            },
        forall|i: int|
            0 <= i < m.len() && is_below((#[trigger] m[i]).0, prefix) ==> objects_below(
                m,
                prefix,
            ).contains(m[i]),
        objects_below(m, prefix).len() <= m.len(),
    decreases m.len(),
{
    let listed = objects_below(m, prefix);
    if m.len() > 0 {
        let shorter = m.drop_last();
        let before = objects_below(shorter, prefix);
        lemma_objects_below(shorter, prefix);
        assert forall|j: int| 0 <= j < listed.len() implies {
            &&& (#[trigger] listed[j]).0 != prefix
            &&& is_below(listed[j].0, prefix)
            &&& m.contains(listed[j])
        } by {
            if j < before.len() {
                assert(listed[j] == before[j]);
                let i = choose|i: int| 0 <= i < shorter.len() && shorter[i] == before[j];
                assert(m[i] == before[j]);
            } else {
                assert(listed[j] == m.last());
                assert(m[m.len() - 1] == m.last());
            }
            lemma_not_below_itself(prefix);
        }
        assert forall|i: int| 0 <= i < m.len() && is_below((#[trigger] m[i]).0, prefix) implies listed.contains(
            m[i],
        ) by {
            if i < m.len() - 1 {
                assert(shorter[i] == m[i]);
                let j = choose|j: int| 0 <= j < before.len() && before[j] == shorter[i];
                assert(listed[j] == m[i]);
            } else {
                assert(listed[listed.len() - 1] == m[i]);
            }
        }
    }
}

/// No path lies below itself.
pub proof fn lemma_not_below_itself(path: Seq<char>)
    ensures
        !is_below(path, path),
{
    assert(path.is_prefix_of(path));
}

/// A listing names no object twice.
pub proof fn lemma_listings_have_distinct_keys(m: LocationSeq, prefix: Seq<char>)
    requires
        distinct_keys(m),
    ensures
        distinct_keys(objects_below(m, prefix)),
        distinct_keys(direct_children(m, prefix)),
    decreases m.len(),
{
    if m.len() > 0 {
        let shorter = m.drop_last();
        let last = m.len() - 1;
        assert forall|i: int, j: int| 0 <= i < j < shorter.len() implies (#[trigger] shorter[i]).0 != (
        #[trigger] shorter[j]).0 by {
            assert(shorter[i] == m[i] && shorter[j] == m[j]);
        }
        lemma_listings_have_distinct_keys(shorter, prefix);
        lemma_objects_below(shorter, prefix);
        lemma_one_level(shorter, prefix);
        let below = objects_below(m, prefix);
        let below_before = objects_below(shorter, prefix);
        assert forall|i: int, j: int| 0 <= i < j < below.len() implies (#[trigger] below[i]).0 != (
        #[trigger] below[j]).0 by {
            assert(below[i] == below_before[i]);
            if j < below_before.len() {
                assert(below[j] == below_before[j]);
            } else {
                assert(below[j] == m[last]);
                let k = choose|k: int| 0 <= k < shorter.len() && shorter[k] == below_before[i];
                assert(m[k] == shorter[k]);
            }
        }
        let children = direct_children(m, prefix);
        let children_before = direct_children(shorter, prefix);
        assert forall|i: int, j: int| 0 <= i < j < children.len() implies (#[trigger] children[i]).0
            != (#[trigger] children[j]).0 by {
            assert(children[i] == children_before[i]);
            if j < children_before.len() {
                assert(children[j] == children_before[j]);
            } else {
                assert(children[j] == m[last]);
                let k = choose|k: int| 0 <= k < shorter.len() && shorter[k] == children_before[i];
                assert(m[k] == shorter[k]);
            }
        }
    }
}

/// Whether the object at index `i` of `m` lies in the subdirectory
/// `subdirectory` of the directory `prefix`.
pub open spec fn holds_object_at(
    m: LocationSeq,
    prefix: Seq<char>,
    subdirectory: Seq<char>,
    i: int,
) -> bool {
    &&& 0 <= i < m.len()
    &&& is_in_subdirectory(m[i].0, prefix)
    &&& subdirectory_of(m[i].0, prefix) == subdirectory
}

/// One level of a listing accounts for every object below the directory: an
/// object that lies in the directory itself is among the objects, and an
/// object that lies deeper has its subdirectory among the subdirectories. No
/// object is both, no subdirectory is named twice, and nothing else is listed.
pub proof fn lemma_one_level(m: LocationSeq, prefix: Seq<char>)
    ensures
        forall|i: int|
            0 <= i < m.len() && is_below((#[trigger] m[i]).0, prefix) ==> {
                &&& is_direct_child(m[i].0, prefix) != is_in_subdirectory(m[i].0, prefix)
                &&& is_direct_child(m[i].0, prefix) ==> direct_children(m, prefix).contains(m[i])
                &&& is_in_subdirectory(m[i].0, prefix) ==> subdirectories(m, prefix).contains(
                    subdirectory_of(m[i].0, prefix),
                )
            },
        forall|j: int|
            0 <= j < direct_children(m, prefix).len() ==> {
                &&& is_direct_child((#[trigger] direct_children(m, prefix)[j]).0, prefix)
                &&& m.contains(direct_children(m, prefix)[j])
            },
        forall|d: Seq<char>| #[trigger]
            subdirectories(m, prefix).contains(d) ==> exists|i: int|
                holds_object_at(m, prefix, d, i),
        subdirectories(m, prefix).no_duplicates(),
    decreases m.len(),
{
    let objects = direct_children(m, prefix);
    let dirs = subdirectories(m, prefix);
    if m.len() > 0 {
        let shorter = m.drop_last();
        let objects_before = direct_children(shorter, prefix);
        let dirs_before = subdirectories(shorter, prefix);
        let last = m.len() - 1;
        lemma_one_level(shorter, prefix);
        assert(m[last] == m.last());
        assert forall|i: int| 0 <= i < m.len() && is_below((#[trigger] m[i]).0, prefix) implies {
            &&& is_direct_child(m[i].0, prefix) != is_in_subdirectory(m[i].0, prefix)
            &&& is_direct_child(m[i].0, prefix) ==> objects.contains(m[i])
            &&& is_in_subdirectory(m[i].0, prefix) ==> dirs.contains(
                subdirectory_of(m[i].0, prefix),
            )
        } by {
            if i < last {
                assert(shorter[i] == m[i]);
                if is_direct_child(m[i].0, prefix) {
                    let j = choose|j: int|
                        0 <= j < objects_before.len() && objects_before[j] == shorter[i];
                    assert(objects[j] == m[i]);
                }
                if is_in_subdirectory(m[i].0, prefix) {
                    let j = choose|j: int|
                        0 <= j < dirs_before.len() && dirs_before[j] == subdirectory_of(
                            m[i].0,
                            prefix,
                        );
                    assert(dirs[j] == dirs_before[j]);
                }
            } else {
                if is_direct_child(m[i].0, prefix) {
                    assert(objects[objects.len() - 1] == m[i]);
                }
                if is_in_subdirectory(m[i].0, prefix) {
                    let d = subdirectory_of(m[i].0, prefix);
                    if dirs_before.contains(d) {
                        let j = choose|j: int| 0 <= j < dirs_before.len() && dirs_before[j] == d;
                        assert(dirs[j] == d);
                    } else {
                        assert(dirs[dirs.len() - 1] == d);
                    }
                }
            }
        }
        assert forall|j: int| 0 <= j < objects.len() implies {
            &&& is_direct_child((#[trigger] objects[j]).0, prefix)
            &&& m.contains(objects[j])
        } by {
            if j < objects_before.len() {
                assert(objects[j] == objects_before[j]);
                let i = choose|i: int| 0 <= i < shorter.len() && shorter[i] == objects_before[j];
                assert(m[i] == objects[j]);
            } else {
                assert(objects[j] == m[last]);
            }
        }
        assert forall|a: int, b: int| 0 <= a < dirs.len() && 0 <= b < dirs.len() && a
            != b implies dirs[a] != dirs[b] by {
            if a < dirs_before.len() && b < dirs_before.len() {
                assert(dirs[a] == dirs_before[a] && dirs[b] == dirs_before[b]);
            } else if a < dirs_before.len() {
                assert(dirs[a] == dirs_before[a]);
            } else if b < dirs_before.len() {
                assert(dirs[b] == dirs_before[b]);
            }
        }
    }
    assert forall|d: Seq<char>| #[trigger] dirs.contains(d) implies exists|i: int|
        holds_object_at(m, prefix, d, i) by {
        let shorter = m.drop_last();
        let dirs_before = subdirectories(shorter, prefix);
        let j = choose|j: int| 0 <= j < dirs.len() && dirs[j] == d;
        if j < dirs_before.len() {
            assert(dirs[j] == dirs_before[j]);
            assert(dirs_before.contains(d));
            let i = choose|i: int| holds_object_at(shorter, prefix, d, i);
            assert(m[i] == shorter[i]);
            assert(holds_object_at(m, prefix, d, i));
        } else {
            assert(m[m.len() - 1] == m.last());
            assert(holds_object_at(m, prefix, d, m.len() - 1));
        }
    }
}

} // verus!
