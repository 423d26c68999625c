//! Building the index of an archive and matching logical locations to its
//! entries.

use crate::date::{
    day_number, days_after, lemma_date_is_calendar_date, lemma_day_number_order,
    lemma_next_day_is_next, lemma_next_day_number, on_or_before, Date,
};
use crate::error::TarStoreError;
use crate::location_map::{has_key, value_of, with_entry, EntryMetadataLocationHash, LocationSeq};
use crate::pattern::{find_location_token, location_of, location_text, location_token};
use crate::tar_metadata::{
    all_dated, collected, get_entry_date, entry_date, is_stable_sort_by_date, EntryMetadata,
    EntryMetadataVec, RawEntry,
};
use crate::text::{chars_of, contains_chars, is_substring};
use vstd::prelude::*;

verus! {

/// Whether the path of `e` holds both the date token and the prefix.
pub open spec fn entry_matches(e: EntryMetadata, token: Seq<char>, prefix: Seq<char>) -> bool {
    is_substring(e.path@, token) && is_substring(e.path@, prefix)
}

/// Whether the entry at index `i` is the first of `entries` that matches.
pub open spec fn is_first_match(
    entries: Seq<EntryMetadata>,
    token: Seq<char>,
    prefix: Seq<char>,
    i: int,
) -> bool {
    &&& 0 <= i < entries.len()
    &&& entry_matches(entries[i], token, prefix)
    &&& forall|j: int| 0 <= j < i ==> !entry_matches(#[trigger] entries[j], token, prefix)
}

/// The first of `entries` whose path holds both the date token and the prefix.
pub open spec fn first_match(
    entries: Seq<EntryMetadata>,
    token: Seq<char>,
    prefix: Seq<char>,
) -> Option<EntryMetadata> {
    if exists|i: int| is_first_match(entries, token, prefix, i) {
        Some(entries[choose|i: int| is_first_match(entries, token, prefix, i)])
    } else {
        None
    }
}

/// The entry that serves `location`: the first of `entries` whose path holds
/// the date token of the location and the prefix. A text that is no location
/// is served by none.
pub open spec fn matched_entry(
    entries: Seq<EntryMetadata>,
    prefix: Seq<char>,
    location: Seq<char>,
) -> Option<EntryMetadata> {
    match location_token(location) {
        Some(token) => first_match(entries, token, prefix),
        None => None,
    }
}

/// The entry that serves a location is an entry of the index, and its path
/// holds the date token of the location and the prefix.
pub proof fn lemma_first_match_is_entry(
    entries: Seq<EntryMetadata>,
    prefix: Seq<char>,
    location: Seq<char>,
)
    ensures
        matched_entry(entries, prefix, location) matches Some(e) ==> entries.contains(e)
            && entry_matches(e, location_token(location).unwrap(), prefix),
{
}

/// Whether each location of `m` is mapped to the entry of `entries` that
/// serves it.
pub open spec fn maps_matches(m: LocationSeq, entries: Seq<EntryMetadata>, prefix: Seq<char>) -> bool {
    forall|i: int|
        0 <= i < m.len() ==> matched_entry(entries, prefix, (#[trigger] m[i]).0) == Some(m[i].1)
}

/// The first of `entries` whose path holds both `token` and `prefix`.
fn find_first_match<'a>(entries: &'a Vec<EntryMetadata>, token: &str, prefix: &str) -> (r: Option<
    &'a EntryMetadata,
>)
    ensures
        match r {
            Some(e) => first_match(entries@, token@, prefix@) == Some(*e),
            None => first_match(entries@, token@, prefix@) is None,
        },
{
    let token_chars = chars_of(token);
    let prefix_chars = chars_of(prefix);
    let mut i: usize = 0;
    while i < entries.len()
        invariant
            i <= entries.len(),
            token_chars@ == token@,
            prefix_chars@ == prefix@,
            forall|j: int| 0 <= j < i ==> !entry_matches(#[trigger] entries@[j], token@, prefix@),
        decreases entries.len() - i,
    {
        let path = chars_of(entries[i].path.as_str());
        if contains_chars(&path, &token_chars) && contains_chars(&path, &prefix_chars) {
            proof {
                assert(is_first_match(entries@, token@, prefix@, i as int));
                let c = choose|c: int| is_first_match(entries@, token@, prefix@, c);
                assert(c == i) by {
                    if c < i {
                        assert(!entry_matches(entries@[c], token@, prefix@));
                    } else if i < c {
                        assert(!entry_matches(entries@[i as int], token@, prefix@));
                    }
                }
            }
            return Some(&entries[i]);
        }
        i += 1;
    }
    None
}

/// What builds the index of an archive and matches locations to its entries.
pub trait ExtractTarEntryMetadata {
    /// What holds of the value between calls.
    spec fn well_formed(&self) -> bool;

    /// Builds the index from the headers of the archive, in the order of the
    /// archive.
    fn extract_metadata(&mut self, scanned: &Vec<RawEntry>) -> (r: Result<(), TarStoreError>)
        requires
            old(self).well_formed(),
        ensures
            final(self).well_formed(),
    ;

    /// Maps `location` to the entry that serves it, and says whether there is
    /// one.
    fn add_entry_if_exists(&mut self, location: String) -> (exists: bool)
        requires
            old(self).well_formed(),
        ensures
            final(self).well_formed(),
    ;
}

/// The index of one archive, and the locations that it serves.
#[derive(Debug)]
pub struct AdamTarMetadataExtract {
    prefix: String,
    tar_path: String,
    entry_metadata: EntryMetadataVec,
    entry_location_metadata_map: EntryMetadataLocationHash,
}

impl AdamTarMetadataExtract {
    /// What the path of an entry must hold besides the date token.
    pub closed spec fn spec_prefix(&self) -> Seq<char> {
        self.prefix@
    }

    /// The path of the archive file.
    pub closed spec fn spec_tar_path(&self) -> Seq<char> {
        self.tar_path@
    }

    /// The index.
    pub closed spec fn spec_entry_metadata(&self) -> EntryMetadataVec {
        self.entry_metadata
    }

    /// The entries of the index.
    pub open spec fn entries(&self) -> Seq<EntryMetadata> {
        self.spec_entry_metadata()@
    }

    /// The locations that are mapped, each with its entry.
    pub closed spec fn locations(&self) -> LocationSeq {
        self.entry_location_metadata_map@
    }

    /// The index is in order, no location is mapped twice, and each location is
    /// mapped to the entry that serves it.
    pub closed spec fn wf(&self) -> bool {
        &&& self.entry_metadata.wf()
        &&& self.entry_location_metadata_map.wf()
        &&& maps_matches(self.locations(), self.entries(), self.spec_prefix())
    }

    /// What `wf` says.
    pub proof fn lemma_wf(&self)
        requires
            self.wf(),
        ensures
            self.spec_entry_metadata().wf(),
            crate::location_map::distinct_keys(self.locations()),
            maps_matches(self.locations(), self.entries(), self.spec_prefix()),
    {
    }

    /// An extractor for the archive at `tar_path`, over the index
    /// `entry_metadata`: an empty one, or one that a cache gave back. The path
    /// of every entry that serves a location holds `prefix`.
    pub fn new(tar_path: String, prefix: String, entry_metadata: EntryMetadataVec) -> (r: Self)
        requires
            entry_metadata.wf(),
        ensures
            r.spec_tar_path() == tar_path@,
            r.spec_prefix() == prefix@,
            r.spec_entry_metadata() == entry_metadata,
            r.locations() == LocationSeq::empty(),
            r.wf(),
    {
        AdamTarMetadataExtract {
            prefix,
            tar_path,
            entry_metadata,
            entry_location_metadata_map: EntryMetadataLocationHash::new(),
        }
    }

    /// One location for each day from `start` to `end`, both included, in the
    /// order of the days. Fails if `end` lies before `start`.
    pub fn construct_locations_from_date_range(start: &Date, end: &Date) -> (r: Result<
        Vec<String>,
        TarStoreError,
    >)
        ensures
            r is Ok <==> on_or_before(start@, end@),
            r matches Err(e) ==> e == TarStoreError::InvalidDateRange,
            r matches Ok(v) ==> {
                &&& v@.len() == day_number(end@) - day_number(start@) + 1
                &&& forall|i: int|
                    0 <= i < v@.len() ==> (#[trigger] v@[i])@ == location_text(
                        days_after(start@, i as nat),
                    )
                &&& forall|i: int|
                    0 <= i < v@.len() ==> crate::date::is_calendar_date(
                        (#[trigger] days_after(start@, i as nat)).0,
                        days_after(start@, i as nat).1,
                        days_after(start@, i as nat).2,
                    )
                &&& v@[v@.len() - 1]@ == location_text(end@)
                &&& (start@ == end@ ==> v@.len() == 1)
            },
    {
        if !start.on_or_before(end) {
            return Err(TarStoreError::InvalidDateRange);
        }
        proof {
            use_type_invariant(start);
            use_type_invariant(end);
            lemma_date_is_calendar_date(*start);
            lemma_date_is_calendar_date(*end);
            lemma_day_number_order(start@, end@);
        }
        let mut v: Vec<String> = Vec::new();
        let mut current: Date = *start;
        v.push(location_of(&current));
        while current != *end
            invariant
                1 <= v@.len(),
                current.is_valid(),
                crate::date::is_calendar_date(current@.0, current@.1, current@.2),
                crate::date::is_calendar_date(end@.0, end@.1, end@.2),
                on_or_before(current@, end@),
                current@ == days_after(start@, (v@.len() - 1) as nat),
                day_number(current@) == day_number(start@) + v@.len() - 1,
                forall|i: int|
                    0 <= i < v@.len() ==> (#[trigger] v@[i])@ == location_text(
                        days_after(start@, i as nat),
                    ),
                forall|i: int|
                    0 <= i < v@.len() ==> crate::date::is_calendar_date(
                        (#[trigger] days_after(start@, i as nat)).0,
                        days_after(start@, i as nat).1,
                        days_after(start@, i as nat).2,
                    ),
            decreases day_number(end@) - day_number(current@),
        {
            proof {
                if current@ == end@ {
                    crate::date::lemma_date_view_injective(current, *end);
                }
                lemma_next_day_is_next(current@, end@);
                lemma_next_day_number(current@);
                lemma_day_number_order(crate::date::next_day(current@), end@);
                crate::date::lemma_next_day_is_calendar_date(current@);
            }
            match current.succ_opt() {
                Some(next) => {
                    current = next;
                    v.push(location_of(&current));
                },
                None => {
                    return vstd::pervasive::unreached();
                },
            }
            proof {
                lemma_date_is_calendar_date(current);
            }
        }
        proof {
            lemma_day_number_order(current@, end@);
            lemma_day_number_order(start@, end@);
        }
        Ok(v)
    }

    /// The date that an archive path names, if it names one.
    pub fn get_entry_date(path: &String) -> (r: Option<Date>)
        ensures
            r is Some <==> entry_date(path@) is Some,
            r matches Some(d) ==> Some(d@) == entry_date(path@) && d.is_valid(),
    {
        get_entry_date(path.as_str())
    }

    /// Whether `location` is mapped.
    pub fn contains_location(&self, location: &str) -> (b: bool)
        ensures
            b == has_key(self.locations(), location@),
    {
        self.entry_location_metadata_map.contains_key(location)
    }

    /// The entry that `location` is mapped to.
    pub fn get_entry(&self, location: String) -> (e: &EntryMetadata)
        requires
            self.wf(),
            has_key(self.locations(), location@),
        ensures
            *e == value_of(self.locations(), location@),
            matched_entry(self.entries(), self.spec_prefix(), location@) == Some(*e),
    {
        proof {
            let i = crate::location_map::key_index(self.locations(), location@);
            assert(self.locations()[i].0 == location@);
        }
        match self.entry_location_metadata_map.get(location.as_str()) {
            Some(e) => e,
            None => vstd::pervasive::unreached(),
        }
    }

    /// The index.
    pub fn entry_metadata(&self) -> (r: &EntryMetadataVec)
        ensures
            *r == self.spec_entry_metadata(),
    {
        &self.entry_metadata
    }

    /// The locations that are mapped, each with its entry.
    pub fn entry_location_metadata_map(&self) -> (r: &EntryMetadataLocationHash)
        ensures
            r@ == self.locations(),
    {
        &self.entry_location_metadata_map
    }

    /// The path of the archive file.
    pub fn tar_path(&self) -> (r: &String)
        ensures
            r@ == self.spec_tar_path(),
    {
        &self.tar_path
    }

    /// What the path of an entry must hold besides the date token.
    pub fn prefix(&self) -> (r: &String)
        ensures
            r@ == self.spec_prefix(),
    {
        &self.prefix
    }
}

impl ExtractTarEntryMetadata for AdamTarMetadataExtract {
    open spec fn well_formed(&self) -> bool {
        self.wf()
    }

    /// Builds the index from the headers of the archive, unless a cache gave
    /// the index back. A header whose payload does not lie within the archive
    /// is passed over. One that names no date in its path makes the whole
    /// index fail, and nothing changes. A new index serves no location yet.
    fn extract_metadata(&mut self, scanned: &Vec<RawEntry>) -> (r: Result<(), TarStoreError>)
        ensures
            final(self).spec_tar_path() == old(self).spec_tar_path(),
            final(self).spec_prefix() == old(self).spec_prefix(),
            final(self).spec_entry_metadata().spec_archive_len() == old(
                self,
            ).spec_entry_metadata().spec_archive_len(),
            r is Ok <==> old(self).spec_entry_metadata().is_cached() || all_dated(
                scanned@,
                old(self).spec_entry_metadata().spec_archive_len(),
            ),
            r matches Err(e) ==> e == TarStoreError::ArchiveCorrupt,
            r is Err || old(self).spec_entry_metadata().is_cached() ==> {
                &&& final(self).spec_entry_metadata() == old(self).spec_entry_metadata()
                &&& final(self).locations() == old(self).locations()
            },
            r is Ok && !old(self).spec_entry_metadata().is_cached() ==> {
                &&& is_stable_sort_by_date(
                    collected(scanned@, old(self).spec_entry_metadata().spec_archive_len()),
                    final(self).entries(),
                )
                &&& !final(self).spec_entry_metadata().is_cached()
                &&& final(self).locations() == LocationSeq::empty()
            },
    {
        if self.entry_metadata.cached() {
            return Ok(());
        }
        match EntryMetadataVec::build(scanned, self.entry_metadata.archive_len()) {
            Ok(index) => {
                self.entry_metadata = index;
                self.entry_location_metadata_map = EntryMetadataLocationHash::new();
                Ok(())
            },
            Err(e) => Err(e),
        }
    }

    /// Maps `location` to the first entry of the index whose path holds the
    /// date token of the location and the prefix, unless the location is mapped
    /// already. Says whether the location is mapped afterwards.
    fn add_entry_if_exists(&mut self, location: String) -> (exists: bool)
        ensures
            final(self).spec_tar_path() == old(self).spec_tar_path(),
            final(self).spec_prefix() == old(self).spec_prefix(),
            final(self).spec_entry_metadata() == old(self).spec_entry_metadata(),
            exists == (has_key(old(self).locations(), location@) || matched_entry(
                old(self).entries(),
                old(self).spec_prefix(),
                location@,
            ) is Some),
            exists == has_key(final(self).locations(), location@),
            final(self).locations() == match matched_entry(
                old(self).entries(),
                old(self).spec_prefix(),
                location@,
            ) {
                Some(e) => with_entry(old(self).locations(), location@, e),
                None => old(self).locations(),
            },
    {
        if self.entry_location_metadata_map.contains_key(location.as_str()) {
            proof {
                let i = crate::location_map::key_index(self.locations(), location@);
                assert(self.locations()[i].0 == location@);
            }
            return true;
        }
        let found = match find_location_token(location.as_str()) {
            Some(token) => {
                match find_first_match(
                    self.entry_metadata.inner(),
                    token.as_str(),
                    self.prefix.as_str(),
                ) {
                    Some(e) => Some(e.clone()),
                    None => None,
                }
            },
            None => None,
        };
        match found {
            Some(entry) => {
                self.entry_location_metadata_map.insert(location, entry);
                proof {
                    let m = self.locations();
                    assert(m == old(self).locations().push((location@, entry)));
                    assert(m[m.len() - 1].0 == location@);
                    assert forall|i: int| 0 <= i < m.len() implies matched_entry(
                        self.entries(),
                        self.spec_prefix(),
                        (#[trigger] m[i]).0,
                    ) == Some(m[i].1) by {
                        if i < m.len() - 1 {
                            assert(m[i] == old(self).locations()[i]);
                        }
                    }
                }
                true
            },
            None => false,
        }
    }
}

} // verus!
