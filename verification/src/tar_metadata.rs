//! The index of an archive: one record for each entry, ordered by date.

use crate::date::{
    compact_text, date_of, date_of_text, lemma_date_of_view, lemma_view_of_date, on_or_before,
    Date,
};
use crate::error::TarStoreError;
use crate::pattern::{date_token, find_date_token};
use vstd::prelude::*;
use vstd::string::StringExecFns;

verus! {

/// What the header of one archive entry says.
#[derive(Debug, PartialEq, Eq)]
pub struct RawEntry {
    /// The name of the entry within the archive.
    pub path: String,
    /// Where the payload of the entry starts in the archive file.
    pub raw_file_position: u64,
    /// The length of the payload in bytes.
    pub size: u64,
    /// The modification time in seconds since the epoch.
    pub mtime: u64,
}

/// One file of the archive, as the index records it.
#[derive(Debug, PartialEq, Eq)]
pub struct EntryMetadata {
    /// Where the payload of the entry starts in the archive file.
    pub raw_file_position: u64,
    /// The length of the payload in bytes.
    pub size: u64,
    /// The name of the entry within the archive.
    pub path: String,
    /// The modification time in seconds since the epoch.
    pub mtime: u64,
    /// The date that the path names.
    pub file_date: Date,
}

impl Clone for EntryMetadata {
    fn clone(&self) -> (r: Self)
        ensures
            r == *self,
    {
        EntryMetadata {
            raw_file_position: self.raw_file_position,
            size: self.size,
            path: self.path.clone(),
            mtime: self.mtime,
            file_date: self.file_date,
        }
    }
}

/// Whether the payload of `e` lies within an archive of `archive_len` bytes.
pub open spec fn in_bounds(e: EntryMetadata, archive_len: int) -> bool {
    e.raw_file_position + e.size <= archive_len
}

/// Whether each entry of `s` lies within an archive of `archive_len` bytes.
pub open spec fn all_in_bounds(s: Seq<EntryMetadata>, archive_len: int) -> bool {
    forall|i: int| 0 <= i < s.len() ==> in_bounds(#[trigger] s[i], archive_len)
}

/// Whether the entries of `s` stand in the order of their dates.
pub open spec fn sorted_by_date(s: Seq<EntryMetadata>) -> bool {
    forall|i: int, j: int|
        0 <= i < j < s.len() ==> on_or_before(
            (#[trigger] s[i]).file_date@,
            (#[trigger] s[j]).file_date@,
        )
}

/// Whether `p` names each index below `n` once.
pub open spec fn is_index_permutation(p: Seq<int>, n: int) -> bool {
    &&& p.len() == n
    &&& forall|i: int| 0 <= i < n ==> 0 <= #[trigger] p[i] < n
    &&& forall|i: int, j: int| 0 <= i < j < n ==> #[trigger] p[i] != #[trigger] p[j]
    &&& forall|k: int| 0 <= k < n ==> #[trigger] p.contains(k)
}

/// Whether `after` holds the entries of `before` in the order of their dates,
/// entries of one date in the order they had, and `p` says for each place of
/// `after` from which place of `before` its entry comes.
pub open spec fn sorts_stably(
    p: Seq<int>,
    before: Seq<EntryMetadata>,
    after: Seq<EntryMetadata>,
) -> bool {
    &&& after.len() == before.len()
    &&& is_index_permutation(p, before.len() as int)
    &&& forall|i: int| 0 <= i < after.len() ==> #[trigger] after[i] == before[p[i]]
    &&& sorted_by_date(after)
    &&& forall|i: int, j: int|
        0 <= i < j < after.len() && after[i].file_date@ == after[j].file_date@ ==> #[trigger] p[i]
            < #[trigger] p[j]
}

/// Whether `after` is `before` sorted by date, with the order of the entries of
/// one date kept.
pub open spec fn is_stable_sort_by_date(
    before: Seq<EntryMetadata>,
    after: Seq<EntryMetadata>,
) -> bool {
    exists|p: Seq<int>| sorts_stably(p, before, after)
}

/// Two permutations that sort the same entries stably agree on the first `i`
/// places.
proof fn lemma_sorting_permutations_agree(
    perm_a: Seq<int>,
    perm_b: Seq<int>,
    before: Seq<EntryMetadata>,
    sorted_a: Seq<EntryMetadata>,
    sorted_b: Seq<EntryMetadata>,
    i: int,
)
    requires
        sorts_stably(perm_a, before, sorted_a),
        sorts_stably(perm_b, before, sorted_b),
        0 <= i <= before.len(),
    ensures
        forall|j: int| 0 <= j < i ==> perm_a[j] == perm_b[j],
    decreases i,
{
    if i > 0 {
        lemma_sorting_permutations_agree(perm_a, perm_b, before, sorted_a, sorted_b, i - 1);
        let a = perm_a[i - 1];
        let b = perm_b[i - 1];
        if a != b {
            assert(perm_b.contains(a));
            let at_b = choose|m: int| 0 <= m < perm_b.len() && perm_b[m] == a;
            assert(at_b > i - 1) by {
                if at_b < i - 1 {
                    assert(perm_a[at_b] == perm_b[at_b]);
                    assert(perm_a[at_b] != perm_a[i - 1]);
                }
            }
            assert(perm_a.contains(b));
            let at_a = choose|m: int| 0 <= m < perm_a.len() && perm_a[m] == b;
            assert(at_a > i - 1) by {
                if at_a < i - 1 {
                    assert(perm_a[at_a] == perm_b[at_a]);
                    assert(perm_b[at_a] != perm_b[i - 1]);
                }
            }
            assert(sorted_b[i - 1] == before[b] && sorted_b[at_b] == before[a]);
            assert(sorted_a[i - 1] == before[a] && sorted_a[at_a] == before[b]);
            assert(on_or_before(sorted_b[i - 1].file_date@, sorted_b[at_b].file_date@));
            assert(on_or_before(sorted_a[i - 1].file_date@, sorted_a[at_a].file_date@));
            assert(before[a].file_date@ == before[b].file_date@);
            assert(perm_b[i - 1] < perm_b[at_b]);
            assert(perm_a[i - 1] < perm_a[at_a]);
        }
    }
}

/// Sorting by date, with the order of the entries of one date kept, has one
/// result.
pub proof fn lemma_stable_sort_is_unique(
    before: Seq<EntryMetadata>,
    sorted_a: Seq<EntryMetadata>,
    sorted_b: Seq<EntryMetadata>,
)
    requires
        is_stable_sort_by_date(before, sorted_a),
        is_stable_sort_by_date(before, sorted_b),
    ensures
        sorted_a == sorted_b,
{
    let perm_a = choose|p: Seq<int>| sorts_stably(p, before, sorted_a);
    let perm_b = choose|p: Seq<int>| sorts_stably(p, before, sorted_b);
    lemma_sorting_permutations_agree(perm_a, perm_b, before, sorted_a, sorted_b, before.len() as int);
    assert forall|i: int| 0 <= i < sorted_a.len() implies sorted_a[i] == sorted_b[i] by {
        assert(perm_a[i] == perm_b[i]);
    }
    assert(sorted_a =~= sorted_b);
}

/// Sorts `v` by date. Entries of one date keep their order.
pub fn sort_entries_by_date(v: &mut Vec<EntryMetadata>)
    ensures
        is_stable_sort_by_date(old(v)@, final(v)@),
{
    let ghost before = v@;
    let ghost mut perm: Seq<int> = Seq::new(v.len() as nat, |k: int| k);
    let n = v.len();
    let mut i: usize = 0;
    proof {
        assert forall|k: int| 0 <= k < n implies #[trigger] perm.contains(k) by {
            assert(perm[k] == k);
        }
    }
    while i < n
        invariant
            i <= n,
            n == v.len(),
            n == before.len(),
            is_index_permutation(perm, n as int),
            forall|k: int| 0 <= k < n ==> #[trigger] v@[k] == before[perm[k]],
            forall|k: int| i <= k < n ==> #[trigger] perm[k] == k,
            forall|k: int| 0 <= k < i ==> #[trigger] perm[k] < i,
            forall|a: int, b: int|
                0 <= a < b < i ==> on_or_before(
                    (#[trigger] v@[a]).file_date@,
                    (#[trigger] v@[b]).file_date@,
                ),
            forall|a: int, b: int|
                0 <= a < b < i && v@[a].file_date@ == v@[b].file_date@ ==> #[trigger] perm[a]
                    < #[trigger] perm[b],
        decreases n - i,
    {
        let mut j: usize = i;
        while j > 0 && !v[j - 1].file_date.on_or_before(&v[i].file_date)
            invariant
                j <= i < n,
                n == v.len(),
                forall|k: int|
                    j <= k < i ==> !on_or_before(
                        (#[trigger] v@[k]).file_date@,
                        v@[i as int].file_date@,
                    ),
            decreases j,
        {
            j -= 1;
        }
        let ghost prev = v@;
        let ghost prev_perm = perm;
        let e = v.remove(i);
        v.insert(j, e);
        proof {
            perm =
            Seq::new(
                n as nat,
                |k: int|
                    if k < j {
                        prev_perm[k]
                    } else if k == j {
                        i as int
                    } else if k <= i {
                        prev_perm[k - 1]
                    } else {
                        prev_perm[k]
                    },
            );
            assert forall|k: int| 0 <= k < n implies #[trigger] v@[k] == before[perm[k]] by {
                if k < j {
                    assert(v@[k] == prev[k]);
                } else if k == j {
                    assert(v@[k] == prev[i as int]);
                } else if k <= i {
                    assert(v@[k] == prev[k - 1]);
                } else {
                    assert(v@[k] == prev[k]);
                }
            }
            assert forall|a: int, b: int| 0 <= a < b < n implies #[trigger] perm[a]
                != #[trigger] perm[b] by {
                let pa = if a < j {
                    a
                } else if a == j {
                    i as int
                } else if a <= i {
                    a - 1
                } else {
                    a
                };
                let pb = if b < j {
                    b
                } else if b == j {
                    i as int
                } else if b <= i {
                    b - 1
                } else {
                    b
                };
                assert(perm[a] == prev_perm[pa]);
                assert(perm[b] == prev_perm[pb]);
                assert(pa != pb);
                if pa < pb {
                    assert(prev_perm[pa] != prev_perm[pb]);
                } else {
                    assert(prev_perm[pb] != prev_perm[pa]);
                }
            }
            assert forall|k: int| 0 <= k < n implies #[trigger] perm.contains(k) by {
                assert(prev_perm.contains(k));
                let was = choose|w: int| 0 <= w < prev_perm.len() && prev_perm[w] == k;
                let now = if was < j {
                    was
                } else if was == i {
                    j as int
                } else if was < i {
                    was + 1
                } else {
                    was
                };
                assert(perm[now] == k);
            }
            assert forall|a: int, b: int| 0 <= a < b < i + 1 implies on_or_before(
                (#[trigger] v@[a]).file_date@,
                (#[trigger] v@[b]).file_date@,
            ) by {
                let pa = if a < j {
                    a
                } else if a == j {
                    i as int
                } else {
                    a - 1
                };
                let pb = if b < j {
                    b
                } else if b == j {
                    i as int
                } else {
                    b - 1
                };
                assert(v@[a] == prev[pa]);
                assert(v@[b] == prev[pb]);
                if b == j {
                    if j > 0 {
                        assert(on_or_before(prev[j - 1].file_date@, prev[i as int].file_date@));
                        if a < j - 1 {
                            assert(on_or_before(prev[a].file_date@, prev[j - 1].file_date@));
                        }
                    }
                } else if a == j {
                    assert(!on_or_before(prev[pb].file_date@, prev[i as int].file_date@));
                } else {
                    assert(on_or_before(prev[pa].file_date@, prev[pb].file_date@));
                }
            }
            assert forall|a: int, b: int|
                0 <= a < b < i + 1 && v@[a].file_date@ == v@[b].file_date@ implies #[trigger] perm[a]
                < #[trigger] perm[b] by {
                let pa = if a < j {
                    a
                } else if a == j {
                    i as int
                } else {
                    a - 1
                };
                let pb = if b < j {
                    b
                } else if b == j {
                    i as int
                } else {
                    b - 1
                };
                assert(v@[a] == prev[pa]);
                assert(v@[b] == prev[pb]);
                assert(perm[a] == prev_perm[pa]);
                assert(perm[b] == prev_perm[pb]);
                if b == j {
                    assert(prev_perm[pa] < i);
                } else if a == j {
                    assert(!on_or_before(prev[pb].file_date@, prev[i as int].file_date@));
                } else {
                    assert(prev_perm[pa] < prev_perm[pb]);
                }
            }
        }
        i += 1;
    }
    proof {
        assert(sorts_stably(perm, before, v@));
    }
}

/// The date that the archive path `path` names: the one that its date token
/// writes.
pub open spec fn entry_date(path: Seq<char>) -> Option<(int, int, int)> {
    match date_token(path) {
        Some(token) => date_of_text(token),
        None => None,
    }
}

/// The date that an archive path names, if it names one.
pub fn get_entry_date(path: &str) -> (r: Option<Date>)
    ensures
        r is Some <==> entry_date(path@) is Some,
        r matches Some(d) ==> Some(d@) == entry_date(path@) && d.is_valid(),
{
    match find_date_token(path) {
        Some(token) => Date::parse_iso(token.as_str()),
        None => None,
    }
}

/// Whether the payload that `r` announces lies within an archive of
/// `archive_len` bytes.
pub open spec fn raw_in_bounds(r: RawEntry, archive_len: int) -> bool {
    r.raw_file_position + r.size <= archive_len
}

/// The record that the index keeps of the header `r`.
pub open spec fn entry_of(r: RawEntry) -> EntryMetadata {
    EntryMetadata {
        raw_file_position: r.raw_file_position,
        size: r.size,
        path: r.path,
        mtime: r.mtime,
        file_date: date_of(entry_date(r.path@).unwrap()),
    }
}

/// The record of a header that names a date has that date, and the path, the
/// place and the size that the header gives.
pub proof fn lemma_entry_of(r: RawEntry)
    requires
        entry_date(r.path@) is Some,
    ensures
        entry_of(r).file_date@ == entry_date(r.path@).unwrap(),
        entry_of(r).file_date.is_valid(),
        entry_of(r).path == r.path,
        entry_of(r).raw_file_position == r.raw_file_position,
        entry_of(r).size == r.size,
        entry_of(r).mtime == r.mtime,
{
    lemma_view_of_date(entry_date(r.path@).unwrap());
}

/// The records of the headers in `scanned` whose payload lies within the
/// archive, in the order of the archive.
pub open spec fn collected(scanned: Seq<RawEntry>, archive_len: int) -> Seq<EntryMetadata>
    decreases scanned.len(),
{
    if scanned.len() == 0 {
        Seq::empty()
    } else {
        let before = collected(scanned.drop_last(), archive_len);
        if raw_in_bounds(scanned.last(), archive_len) {
            before.push(entry_of(scanned.last()))
        } else {
            before
        }
    }
}

/// Whether every header in `scanned` whose payload lies within the archive
/// names a date in its path.
pub open spec fn all_dated(scanned: Seq<RawEntry>, archive_len: int) -> bool {
    forall|i: int|
        0 <= i < scanned.len() && raw_in_bounds(#[trigger] scanned[i], archive_len) ==> entry_date(
            scanned[i].path@,
        ) is Some
}

/// The directory that holds cached indexes where the caller names none.
pub const DEFAULT_CACHE_PATH: &'static str = "/tmp/tarpq_cache/.tarpq_s";

/// The directory that holds cached indexes.
pub open spec fn cache_dir_text(cache_path: Option<Seq<char>>) -> Seq<char> {
    match cache_path {
        Some(dir) => dir,
        None => DEFAULT_CACHE_PATH@,
    }
}

/// The name of the file that caches the index on the day `today`:
/// `<directory>/<YYYYMMDD>.json`.
pub open spec fn cache_file_text(cache_path: Option<Seq<char>>, today: (int, int, int)) -> Seq<
    char,
> {
    cache_dir_text(cache_path) + "/"@ + compact_text(today) + ".json"@
}

/// Whether `entries` can be the index of an archive of `archive_len` bytes:
/// each lies within the archive, and they stand in the order of their dates.
pub open spec fn is_index_of(entries: Seq<EntryMetadata>, archive_len: int) -> bool {
    all_in_bounds(entries, archive_len) && sorted_by_date(entries)
}

/// The entries that a cache gives back for an archive of `archive_len` bytes,
/// where `loaded` is what its file held. There are none where no file was read
/// or where what it held cannot be the index of the archive.
pub open spec fn restored(loaded: Option<Vec<EntryMetadata>>, archive_len: int) -> Option<
    Seq<EntryMetadata>,
> {
    match loaded {
        Some(v) => if is_index_of(v@, archive_len) {
            Some(v@)
        } else {
            None
        },
        None => None,
    }
}

/// Whether `entries` can be the index of an archive of `archive_len` bytes.
fn check_index(entries: &Vec<EntryMetadata>, archive_len: u64) -> (b: bool)
    ensures
        b == is_index_of(entries@, archive_len as int),
{
    let mut i: usize = 0;
    while i < entries.len()
        invariant
            i <= entries.len(),
            all_in_bounds(entries@.subrange(0, i as int), archive_len as int),
            sorted_by_date(entries@.subrange(0, i as int)),
        decreases entries.len() - i,
    {
        let e = &entries[i];
        let fits = match e.raw_file_position.checked_add(e.size) {
            Some(end) => end <= archive_len,
            None => false,
        };
        if !fits {
            assert(!in_bounds(entries@[i as int], archive_len as int));
            return false;
        }
        if i > 0 && !entries[i - 1].file_date.on_or_before(&e.file_date) {
            assert(!on_or_before(entries@[i - 1].file_date@, entries@[i as int].file_date@));
            return false;
        }
        proof {
            let now = entries@.subrange(0, i + 1);
            let was = entries@.subrange(0, i as int);
            assert forall|k: int| 0 <= k < now.len() implies in_bounds(
                #[trigger] now[k],
                archive_len as int,
            ) by {
                if k < i {
                    assert(now[k] == was[k]);
                }
            }
            assert forall|a: int, b: int| 0 <= a < b < now.len() implies on_or_before(
                (#[trigger] now[a]).file_date@,
                (#[trigger] now[b]).file_date@,
            ) by {
                if b < i {
                    assert(now[a] == was[a] && now[b] == was[b]);
                } else if a < i - 1 {
                    assert(now[a] == was[a] && was[i - 1] == now[i - 1]);
                    assert(on_or_before(was[a].file_date@, was[i - 1].file_date@));
                }
            }
        }
        i += 1;
    }
    proof {
        assert(entries@.subrange(0, i as int) == entries@);
    }
    true
}

/// The index of an archive: its entries, in the order of their dates.
#[derive(Debug)]
pub struct EntryMetadataVec {
    inner: Vec<EntryMetadata>,
    archive_len: u64,
    cached: bool,
    cache_path: Option<String>,
}

impl View for EntryMetadataVec {
    type V = Seq<EntryMetadata>;

    /// The entries.
    closed spec fn view(&self) -> Seq<EntryMetadata> {
        self.inner@
    }
}

impl Clone for EntryMetadataVec {
    fn clone(&self) -> (r: Self)
        ensures
            r@ == self@,
            r.spec_archive_len() == self.spec_archive_len(),
            r.is_cached() == self.is_cached(),
            r.cache_path_text() == self.cache_path_text(),
    {
        let mut inner: Vec<EntryMetadata> = Vec::new();
        let mut i: usize = 0;
        while i < self.inner.len()
            invariant
                i <= self.inner.len(),
                inner@ == self.inner@.subrange(0, i as int),
            decreases self.inner.len() - i,
        {
            inner.push(self.inner[i].clone());
            i += 1;
        }
        let cache_path = match &self.cache_path {
            Some(p) => Some(p.clone()),
            None => None,
        };
        EntryMetadataVec { inner, archive_len: self.archive_len, cached: self.cached, cache_path }
    }
}

impl EntryMetadataVec {
    /// The length in bytes of the archive that the index speaks of.
    pub closed spec fn spec_archive_len(&self) -> int {
        self.archive_len as int
    }

    /// The length of the archive is that of a file.
    pub proof fn lemma_archive_len_bounds(&self)
        ensures
            0 <= self.spec_archive_len() <= u64::MAX,
    {
    }

    /// Whether the entries were restored from a cache.
    pub closed spec fn is_cached(&self) -> bool {
        self.cached
    }

    /// Where the index was restored from or saved to, if it was.
    pub closed spec fn cache_path_text(&self) -> Option<Seq<char>> {
        self.cache_path.deep_view()
    }

    /// Every entry lies within the archive.
    pub open spec fn bounded(&self) -> bool {
        all_in_bounds(self@, self.spec_archive_len())
    }

    /// Every entry lies within the archive, and the entries stand in the order
    /// of their dates.
    pub open spec fn wf(&self) -> bool {
        is_index_of(self@, self.spec_archive_len())
    }

    /// The entries of an index that was saved come back from the cache of the
    /// same archive as they were: as many, the same, in the same order.
    pub proof fn lemma_cache_round_trip(&self, saved: Vec<EntryMetadata>)
        requires
            self.wf(),
            saved@ == self@,
        ensures
            restored(Some(saved), self.spec_archive_len()) == Some(self@),
    {
    }

    /// An index without entries, for an archive of `archive_len` bytes.
    pub fn new(archive_len: u64) -> (r: Self)
        ensures
            r@ == Seq::<EntryMetadata>::empty(),
            r.spec_archive_len() == archive_len,
            !r.is_cached(),
            r.cache_path_text() is None,
            r.wf(),
    {
        EntryMetadataVec { inner: Vec::new(), archive_len, cached: false, cache_path: None }
    }

    /// The length in bytes of the archive that the index speaks of.
    pub fn archive_len(&self) -> (n: u64)
        ensures
            n == self.spec_archive_len(),
    {
        self.archive_len
    }

    /// Whether the entries were restored from a cache.
    pub fn cached(&self) -> (b: bool)
        ensures
            b == self.is_cached(),
    {
        self.cached
    }

    /// Where the index was restored from or saved to, if it was.
    pub fn cache_path(&self) -> (p: Option<String>)
        ensures
            p.deep_view() == self.cache_path_text(),
    {
        match &self.cache_path {
            Some(p) => Some(p.clone()),
            None => None,
        }
    }

    /// The entries.
    pub fn inner(&self) -> (v: &Vec<EntryMetadata>)
        ensures
            v@ == self@,
    {
        &self.inner
    }

    /// Adds `e` after the entries that the index has.
    pub fn push(&mut self, e: EntryMetadata)
        requires
            old(self).bounded(),
            in_bounds(e, old(self).spec_archive_len()),
        ensures
            final(self)@ == old(self)@.push(e),
            final(self).spec_archive_len() == old(self).spec_archive_len(),
            final(self).is_cached() == old(self).is_cached(),
            final(self).cache_path_text() == old(self).cache_path_text(),
            final(self).bounded(),
    {
        self.inner.push(e);
    }

    /// Sorts the entries by date. Entries of one date keep their order.
    pub fn sort_by_date(&mut self)
        requires
            old(self).bounded(),
        ensures
            is_stable_sort_by_date(old(self)@, final(self)@),
            final(self).spec_archive_len() == old(self).spec_archive_len(),
            final(self).is_cached() == old(self).is_cached(),
            final(self).cache_path_text() == old(self).cache_path_text(),
            final(self).wf(),
    {
        sort_entries_by_date(&mut self.inner);
        proof {
            let p = choose|p: Seq<int>| sorts_stably(p, old(self)@, self@);
            assert forall|i: int| 0 <= i < self@.len() implies in_bounds(
                #[trigger] self@[i],
                self.spec_archive_len(),
            ) by {
                assert(self@[i] == old(self)@[p[i]]);
            }
        }
    }

    /// The name of the file that caches an index on the day `today`, in the
    /// directory `cache_path` or, where none is given, in the default one.
    pub fn cache_file_path(cache_path: &Option<String>, today: &Date) -> (file: String)
        ensures
            file@ == cache_file_text(cache_path.deep_view(), today@),
    {
        let mut file = match cache_path {
            Some(dir) => dir.clone(),
            None => String::from_str(DEFAULT_CACHE_PATH),
        };
        file.append("/");
        file.append(today.compact_string().as_str());
        file.append(".json");
        file
    }

    /// The index that a cache gave back. `loaded` holds the entries that were
    /// read from the cache file, or nothing where no file could be read. They
    /// are taken if each lies within the archive and they stand in the order of
    /// their dates. Else the index is empty, as after a miss.
    pub fn try_from_cache(
        cache_path: Option<String>,
        loaded: Option<Vec<EntryMetadata>>,
        archive_len: u64,
    ) -> (r: Self)
        ensures
            r.spec_archive_len() == archive_len,
            r.wf(),
            r.is_cached() == restored(loaded, archive_len as int) is Some,
            r@ == match restored(loaded, archive_len as int) {
                Some(entries) => entries,
                None => Seq::empty(),
            },
            r.cache_path_text() == if r.is_cached() {
                Some(cache_dir_text(cache_path.deep_view()))
            } else {
                None
            },
    {
        match loaded {
            Some(entries) => {
                if check_index(&entries, archive_len) {
                    let dir = match cache_path {
                        Some(dir) => dir,
                        None => String::from_str(DEFAULT_CACHE_PATH),
                    };
                    EntryMetadataVec {
                        inner: entries,
                        archive_len,
                        cached: true,
                        cache_path: Some(dir),
                    }
                } else {
                    EntryMetadataVec::new(archive_len)
                }
            },
            None => EntryMetadataVec::new(archive_len),
        }
    }

    /// Records how saving the index to the cache went. The file is the one that
    /// `cache_file_path` names for `cache_path` and `today`. `written` says
    /// whether it was written. If it was, the index remembers the file and the
    /// result names it. If it was not, the cache is unavailable and the index
    /// stays as it is.
    pub fn to_cache(&mut self, cache_path: Option<String>, today: &Date, written: bool) -> (r:
        Result<String, TarStoreError>)
        ensures
            final(self)@ == old(self)@,
            final(self).spec_archive_len() == old(self).spec_archive_len(),
            final(self).is_cached() == old(self).is_cached(),
            r is Ok <==> written,
            r matches Ok(file) ==> file@ == cache_file_text(cache_path.deep_view(), today@),
            r matches Err(e) ==> e == TarStoreError::CacheUnavailable,
            final(self).cache_path_text() == if written {
                Some(cache_file_text(cache_path.deep_view(), today@))
            } else {
                old(self).cache_path_text()
            },
    {
        if written {
            let file = Self::cache_file_path(&cache_path, today);
            self.cache_path = Some(file.clone());
            Ok(file)
        } else {
            Err(TarStoreError::CacheUnavailable)
        }
    }

    /// The index of an archive of `archive_len` bytes whose headers are
    /// `scanned`, in the order of the archive. A header whose payload does not
    /// lie within the archive is passed over. One that names no date in its
    /// path makes the whole index fail.
    pub fn build(scanned: &Vec<RawEntry>, archive_len: u64) -> (r: Result<Self, TarStoreError>)
        ensures
            r is Ok <==> all_dated(scanned@, archive_len as int),
            r matches Ok(index) ==> {
                &&& is_stable_sort_by_date(collected(scanned@, archive_len as int), index@)
                &&& index.spec_archive_len() == archive_len
                &&& all_in_bounds(index@, archive_len as int)
                &&& index.wf()
                &&& !index.is_cached()
                &&& index.cache_path_text() is None
            },
            r matches Err(e) ==> e == TarStoreError::ArchiveCorrupt,
    {
        let mut index = EntryMetadataVec::new(archive_len);
        let mut i: usize = 0;
        while i < scanned.len()
            invariant
                i <= scanned.len(),
                index@ == collected(scanned@.subrange(0, i as int), archive_len as int),
                all_dated(scanned@.subrange(0, i as int), archive_len as int),
                index.spec_archive_len() == archive_len,
                index.bounded(),
                !index.is_cached(),
                index.cache_path_text() is None,
            decreases scanned.len() - i,
        {
            let raw = &scanned[i];
            proof {
                assert(scanned@.subrange(0, i + 1).drop_last() == scanned@.subrange(0, i as int));
                assert(scanned@.subrange(0, i + 1).last() == scanned@[i as int]);
            }
            let fits = match raw.raw_file_position.checked_add(raw.size) {
                Some(end) => end <= archive_len,
                None => false,
            };
            if fits {
                match get_entry_date(raw.path.as_str()) {
                    Some(date) => {
                        proof {
                            lemma_date_of_view(date);
                        }
                        index.push(
                            EntryMetadata {
                                raw_file_position: raw.raw_file_position,
                                size: raw.size,
                                path: raw.path.clone(),
                                mtime: raw.mtime,
                                file_date: date,
                            },
                        );
                    },
                    None => {
                        return Err(TarStoreError::ArchiveCorrupt);
                    },
                }
            }
            proof {
                assert forall|k: int|
                    0 <= k < i + 1 && raw_in_bounds(
                        #[trigger] scanned@.subrange(0, i + 1)[k],
                        archive_len as int,
                    ) implies entry_date(scanned@.subrange(0, i + 1)[k].path@) is Some by {
                    if k < i {
                        assert(scanned@.subrange(0, i as int)[k] == scanned@[k]);
                    }
                }
            }
            i += 1;
        }
        proof {
            assert(scanned@.subrange(0, i as int) == scanned@);
        }
        index.sort_by_date();
        Ok(index)
    }
}

/// The sum of the sizes of `s` in bytes.
pub open spec fn total_size(s: Seq<EntryMetadata>) -> int
    decreases s.len(),
{
    if s.len() == 0 {
        0
    } else {
        total_size(s.drop_last()) + s.last().size
    }
}

/// What is said of an index before it is used.
#[derive(Debug, PartialEq, Eq)]
pub struct MetadataStats {
    /// The number of entries.
    pub total_entries: usize,
    /// The sum of the sizes of the entries, in whole mebibytes.
    pub total_size_mb: u128,
    /// The date of the first and of the last entry, where there is an entry.
    pub date_range: Option<(Date, Date)>,
}

/// The number of entries, their size in whole mebibytes, and the dates of the
/// first and the last entry.
pub fn adam_metadata_stats(metadata: &Vec<EntryMetadata>) -> (stats: MetadataStats)
    ensures
        stats.total_entries == metadata@.len(),
        stats.total_size_mb == total_size(metadata@) / 1048576,
        stats.date_range == if metadata@.len() == 0 {
            None
        } else {
            Some((metadata@[0].file_date, metadata@[metadata@.len() - 1].file_date))
        },
{
    let mut sum: u128 = 0;
    let mut i: usize = 0;
    while i < metadata.len()
        invariant
            i <= metadata.len(),
            sum == total_size(metadata@.subrange(0, i as int)),
            sum <= i * u64::MAX,
        decreases metadata.len() - i,
    {
        proof {
            assert(metadata@.subrange(0, i + 1).drop_last() == metadata@.subrange(0, i as int));
            assert(i * u64::MAX + u64::MAX == (i + 1) * u64::MAX) by (nonlinear_arith);
            assert((i + 1) * u64::MAX <= usize::MAX * u64::MAX) by (nonlinear_arith)
                requires
                    i + 1 <= usize::MAX,
            ;
            assert(usize::MAX * u64::MAX <= u64::MAX * u64::MAX) by (nonlinear_arith)
                requires
                    usize::MAX <= u64::MAX,
            ;
        }
        sum = sum + metadata[i].size as u128;
        i += 1;
    }
    proof {
        assert(metadata@.subrange(0, i as int) == metadata@);
    }
    let date_range = if metadata.len() == 0 {
        None
    } else {
        Some((metadata[0].file_date, metadata[metadata.len() - 1].file_date))
    };
    MetadataStats { total_entries: metadata.len(), total_size_mb: sum / 1048576, date_range }
}

} // verus!
