//! The blob-parse cache: memoizes the located entities extracted from one
//! `(path, blob)` pair, so that the change attributor and the presence
//! sweep parse every blob at most once. The all-zero blob id — the
//! sentinel for a missing diff side — never reaches a parser: it always
//! stands for the empty entity list.

use vstd::prelude::*;

use crate::ir::LocEntity;
use crate::ir::spec_is_zero_sha1;

verus! {

/// One memoized parse result.
#[derive(Debug)]
pub struct CacheEntry {
    pub path: String,
    pub blob: String,
    pub entities: Vec<LocEntity>,
}

/// What the cache knows about a blob.
#[derive(Debug)]
pub enum BlobEntities {
    /// The blob side does not exist; its entity list is empty.
    Missing,
    /// Parsed before; the index of the cache entry.
    Cached(usize),
    /// Never seen; the caller must parse and store the result.
    NeedsParse,
}

/// The blob-parse cache.
#[derive(Debug)]
pub struct ParseCache {
    pub entries: Vec<CacheEntry>,
}

impl ParseCache {
    /// The `(path, blob)` keys of all entries, in insertion order.
    pub open spec fn key_views(self) -> Seq<(Seq<char>, Seq<char>)> {
        Seq::new(self.entries@.len(), |i: int| (self.entries@[i].path@, self.entries@[i].blob@))
    }

    /// No key is memoized twice.
    pub open spec fn wf(self) -> bool {
        forall|i: int, j: int|
            0 <= i < self.key_views().len() && 0 <= j < self.key_views().len() && i != j
                ==> self.key_views()[i] != self.key_views()[j]
    }

    /// Whether the pair is memoized.
    pub open spec fn spec_contains(self, path: Seq<char>, blob: Seq<char>) -> bool {
        self.key_views().contains((path, blob))
    }

    pub fn new() -> (c: ParseCache)
        ensures
            c.wf(),
            c.key_views() =~= Seq::<(Seq<char>, Seq<char>)>::empty(),
    {
        ParseCache { entries: Vec::new() }
    }

    /// The index memoized for the pair, if any.
    pub fn find(&self, path: &str, blob: &str) -> (r: Option<usize>)
        requires
            self.wf(),
        ensures
            match r {
                Some(ix) => ix < self.entries@.len() && self.key_views()[ix as int] == (
                    path@,
                    blob@,
                ),
                None => !self.spec_contains(path@, blob@),
            },
    {
        let n = self.entries.len();
        for i in 0..n
            invariant
                n == self.entries@.len(),
                forall|j: int| 0 <= j < i ==> self.key_views()[j] != (path@, blob@),
            decreases n - i,
        {
            if crate::entity::str_eq(self.entries[i].path.as_str(), path) && crate::entity::str_eq(
                self.entries[i].blob.as_str(),
                blob,
            ) {
                proof {
                    assert(self.key_views()[i as int] == (path@, blob@));
                }
                return Some(i);
            }
        }
        None
    }

    /// The memoized entity list of entry `ix`.
    pub fn entities_at(&self, ix: usize) -> (r: &Vec<LocEntity>)
        requires
            ix < self.entries@.len(),
        ensures
            r == &self.entries@[ix as int].entities,
    {
        &self.entries[ix].entities
    }

    /// Classifies a blob before parsing: a missing side never parses, a
    /// memoized pair is handed back, anything else must be parsed once.
    pub fn classify(&self, path: &str, blob: &str) -> (r: BlobEntities)
        requires
            self.wf(),
        ensures
            match r {
                BlobEntities::Missing => spec_is_zero_sha1(blob@),
                BlobEntities::Cached(ix) => !spec_is_zero_sha1(blob@) && ix < self.entries@.len()
                    && self.key_views()[ix as int] == (path@, blob@),
                BlobEntities::NeedsParse => !spec_is_zero_sha1(blob@) && !self.spec_contains(
                    path@,
                    blob@,
                ),
            },
    {
        if crate::ir::is_zero_sha1_str(blob) {
            return BlobEntities::Missing;
        }
        match self.find(path, blob) {
            Some(ix) => BlobEntities::Cached(ix),
            None => BlobEntities::NeedsParse,
        }
    }

    /// Memoizes one parse result. A pair already memoized keeps its first
    /// result, as a cache must; the index of the surviving entry is
    /// returned.
    pub fn store(&mut self, path: String, blob: String, entities: Vec<LocEntity>) -> (ix: usize)
        requires
            old(self).wf(),
        ensures
            final(self).wf(),
            ix < final(self).entries@.len(),
            final(self).key_views()[ix as int] == (path@, blob@),
            old(self).spec_contains(path@, blob@) ==> *final(self) == *old(self),
            !old(self).spec_contains(path@, blob@) ==> {
                &&& final(self).entries@.len() == old(self).entries@.len() + 1
                &&& (forall|j: int|
                    0 <= j < old(self).entries@.len() ==> final(self).entries@[j] == old(
                        self,
                    ).entries@[j])
                &&& final(self).entries@.last().path@ == path@
                &&& final(self).entries@.last().blob@ == blob@
                &&& final(self).entries@.last().entities@ == entities@
            },
    {
        match self.find(path.as_str(), blob.as_str()) {
            Some(ix) => ix,
            None => {
                let ghost before = self.key_views();
                let ghost pv = path@;
                let ghost bv = blob@;
                let n = self.entries.len();
                self.entries.push(CacheEntry { path, blob, entities });
                proof {
                    assert(self.key_views() =~= before.push((pv, bv)));
                    assert forall|i: int, j: int|
                        0 <= i < self.key_views().len() && 0 <= j < self.key_views().len() && i
                            != j implies self.key_views()[i] != self.key_views()[j] by {
                        if i < before.len() && j < before.len() {
                            assert(before[i] == self.key_views()[i]);
                            assert(before[j] == self.key_views()[j]);
                        }
                    }
                }
                n
            },
        }
    }
}

} // verus!
