//! The map from logical locations to archive entries.
//!
//! The map keeps its locations in the order in which they came. A location is
//! mapped once: the entry that it got first stays.

use crate::tar_metadata::EntryMetadata;
use vstd::prelude::*;

verus! {

/// A map from locations to entries, as the sequence of its pairs.
pub type LocationSeq = Seq<(Seq<char>, EntryMetadata)>;

/// Whether `m` maps the location `k`.
pub open spec fn has_key(m: LocationSeq, k: Seq<char>) -> bool {
    exists|i: int| 0 <= i < m.len() && (#[trigger] m[i]).0 == k
}

/// The place of the location `k` in `m`.
pub open spec fn key_index(m: LocationSeq, k: Seq<char>) -> int {
    choose|i: int| 0 <= i < m.len() && (#[trigger] m[i]).0 == k
}

/// The entry that `m` maps the location `k` to.
pub open spec fn value_of(m: LocationSeq, k: Seq<char>) -> EntryMetadata {
    m[key_index(m, k)].1
}

/// Whether no location occurs twice in `m`.
pub open spec fn distinct_keys(m: LocationSeq) -> bool {
    forall|i: int, j: int| 0 <= i < j < m.len() ==> (#[trigger] m[i]).0 != (#[trigger] m[j]).0
}

/// `m` with `k` mapped to `e`, unless `m` maps `k` already.
pub open spec fn with_entry(m: LocationSeq, k: Seq<char>, e: EntryMetadata) -> LocationSeq {
    if has_key(m, k) {
        m
    } else {
        m.push((k, e))
    }
}

/// A map from logical locations to archive entries.
#[derive(Debug)]
pub struct EntryMetadataLocationHash {
    inner: Vec<(String, EntryMetadata)>,
}

impl View for EntryMetadataLocationHash {
    type V = LocationSeq;

    /// The pairs of the map, in the order in which they came.
    closed spec fn view(&self) -> LocationSeq {
        Seq::new(self.inner@.len(), |i: int| (self.inner@[i].0@, self.inner@[i].1))
    }
}

impl EntryMetadataLocationHash {
    /// No location occurs twice.
    pub open spec fn wf(&self) -> bool {
        distinct_keys(self@)
    }

    /// A map without locations.
    pub fn new() -> (r: Self)
        ensures
            r@ == LocationSeq::empty(),
            r.wf(),
    {
        EntryMetadataLocationHash { inner: Vec::new() }
    }

    /// The number of locations.
    pub fn len(&self) -> (n: usize)
        ensures
            n == self@.len(),
    {
        self.inner.len()
    }

    /// The pairs of the map, in the order in which they came.
    pub fn inner(&self) -> (v: &Vec<(String, EntryMetadata)>)
        ensures
            v@.len() == self@.len(),
            forall|i: int| 0 <= i < v@.len() ==> (#[trigger] v@[i]).0@ == self@[i].0,
            forall|i: int| 0 <= i < v@.len() ==> (#[trigger] v@[i]).1 == self@[i].1,
    {
        &self.inner
    }

    /// The place of `location` in the map, if it is mapped.
    pub fn position(&self, location: &str) -> (r: Option<usize>)
        ensures
            r is Some <==> has_key(self@, location@),
            r matches Some(i) ==> i < self@.len() && self@[i as int].0 == location@,
    {
        let needle = location.to_owned();
        let mut i: usize = 0;
        while i < self.inner.len()
            invariant
                i <= self.inner.len(),
                needle@ == location@,
                forall|k: int| 0 <= k < i ==> (#[trigger] self@[k]).0 != location@,
            decreases self.inner.len() - i,
        {
            if self.inner[i].0 == needle {
                assert(self@[i as int].0 == location@);
                return Some(i);
            }
            i += 1;
        }
        None
    }

    /// Whether `location` is mapped.
    pub fn contains_key(&self, location: &str) -> (b: bool)
        ensures
            b == has_key(self@, location@),
    {
        self.position(location).is_some()
    }

    /// The entry that `location` is mapped to, if it is mapped.
    pub fn get(&self, location: &str) -> (r: Option<&EntryMetadata>)
        requires
            self.wf(),
        ensures
            r is Some <==> has_key(self@, location@),
            r matches Some(e) ==> *e == value_of(self@, location@),
    {
        match self.position(location) {
            Some(i) => {
                proof {
                    let j = key_index(self@, location@);
                    assert(self@[i as int].0 == self@[j].0);
                }
                Some(&self.inner[i].1)
            },
            None => None,
        }
    }

    /// Maps `location` to `entry`, unless the map has `location` already.
    pub fn insert(&mut self, location: String, entry: EntryMetadata)
        requires
            old(self).wf(),
        ensures
            final(self)@ == with_entry(old(self)@, location@, entry),
            final(self).wf(),
    {
        if !self.contains_key(location.as_str()) {
            self.inner.push((location, entry));
            proof {
                assert(self@ =~= old(self)@.push((location@, entry)));
            }
        }
    }
}

} // verus!
