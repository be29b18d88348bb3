//! Natural keys and extra payloads of the six relational tables. Each key
//! type abstracts to a mathematical view and can be compared for view
//! equality, which is what the virtual tables deduplicate on.

use vstd::prelude::*;

use crate::ir::ChangeKind;
use crate::ir::CommitInfo;
use crate::vtable::TableKey;

verus! {

/// Row id assigned by a virtual table.
pub type Id = usize;

/// Extra payload of tables that carry nothing besides their key.
#[derive(Clone, Copy, Debug, PartialEq, Eq, Structural)]
pub struct NullExtra;

// ---------------------------------------------------------------------
// entities
// ---------------------------------------------------------------------
/// Natural key of an entity row: the id of the parent row (none for a file
/// root) plus the segment's name and kind.
#[derive(Debug)]
pub struct EntityKey {
    pub parent_id: Option<Id>,
    pub name: String,
    pub kind: String,
}

/// Mathematical view of an [`EntityKey`].
pub struct EntityKeyV {
    pub parent_id: Option<Id>,
    pub name: Seq<char>,
    pub kind: Seq<char>,
}

impl EntityKey {
    pub fn new(parent_id: Option<Id>, name: String, kind: String) -> (k: EntityKey)
        ensures
            k.deep_view() == (EntityKeyV { parent_id, name: name@, kind: kind@ }),
    {
        EntityKey { parent_id, name, kind }
    }
}

impl DeepView for EntityKey {
    type V = EntityKeyV;

    open spec fn deep_view(&self) -> EntityKeyV {
        EntityKeyV { parent_id: self.parent_id, name: self.name@, kind: self.kind@ }
    }
}

impl TableKey for EntityKey {
    fn key_eq(&self, other: &Self) -> (r: bool)
        ensures
            r == (self.deep_view() == other.deep_view()),
    {
        let parent_eq = match (self.parent_id, other.parent_id) {
            (None, None) => true,
            (Some(a), Some(b)) => a == b,
            _ => false,
        };
        let r = parent_eq && self.name.eq(&other.name) && self.kind.eq(&other.kind);
        proof {
            if r {
                assert(self.deep_view() == other.deep_view());
            } else {
                assert(self.deep_view() != other.deep_view());
            }
        }
        r
    }
}

// ---------------------------------------------------------------------
// commits
// ---------------------------------------------------------------------
/// Natural key of a commit row: its hash.
#[derive(Debug)]
pub struct CommitKey {
    pub sha1: String,
}

impl CommitKey {
    pub fn new(sha1: String) -> (k: CommitKey)
        ensures
            k.deep_view() == sha1@,
    {
        CommitKey { sha1 }
    }
}

impl DeepView for CommitKey {
    type V = Seq<char>;

    open spec fn deep_view(&self) -> Seq<char> {
        self.sha1@
    }
}

impl TableKey for CommitKey {
    fn key_eq(&self, other: &Self) -> (r: bool)
        ensures
            r == (self.deep_view() == other.deep_view()),
    {
        self.sha1.eq(&other.sha1)
    }
}

/// Payload of a commit row: everything but the hash.
#[derive(Clone, Copy, Debug, PartialEq, Eq, Structural)]
pub struct CommitExtra {
    pub is_merge: bool,
    pub author_time: i64,
    pub commit_time: i64,
    pub commit_info: CommitInfo,
}

impl CommitExtra {
    pub fn new(is_merge: bool, author_time: i64, commit_time: i64, commit_info: CommitInfo) -> (e:
        CommitExtra)
        ensures
            e == (CommitExtra { is_merge, author_time, commit_time, commit_info }),
    {
        CommitExtra { is_merge, author_time, commit_time, commit_info }
    }
}

// ---------------------------------------------------------------------
// refs
// ---------------------------------------------------------------------
/// Natural key of a reference row: its full name.
#[derive(Debug)]
pub struct RefKey {
    pub name: String,
}

impl RefKey {
    pub fn new(name: String) -> (k: RefKey)
        ensures
            k.deep_view() == name@,
    {
        RefKey { name }
    }
}

impl DeepView for RefKey {
    type V = Seq<char>;

    open spec fn deep_view(&self) -> Seq<char> {
        self.name@
    }
}

impl TableKey for RefKey {
    fn key_eq(&self, other: &Self) -> (r: bool)
        ensures
            r == (self.deep_view() == other.deep_view()),
    {
        self.name.eq(&other.name)
    }
}

/// Payload of a reference row: the id of the commit it points at.
#[derive(Clone, Copy, Debug, PartialEq, Eq, Structural)]
pub struct RefExtra {
    pub commit_id: Id,
}

impl RefExtra {
    pub fn new(commit_id: Id) -> (e: RefExtra)
        ensures
            e.commit_id == commit_id,
    {
        RefExtra { commit_id }
    }
}

// ---------------------------------------------------------------------
// changes
// ---------------------------------------------------------------------
/// Natural key of a change row; unique per commit and entity.
#[derive(Clone, Copy, Debug, PartialEq, Eq, Structural)]
pub struct ChangeKey {
    pub commit_id: Id,
    pub entity_id: Id,
}

impl ChangeKey {
    pub fn new(commit_id: Id, entity_id: Id) -> (k: ChangeKey)
        ensures
            k == (ChangeKey { commit_id, entity_id }),
    {
        ChangeKey { commit_id, entity_id }
    }
}

impl DeepView for ChangeKey {
    type V = ChangeKey;

    open spec fn deep_view(&self) -> ChangeKey {
        *self
    }
}

impl TableKey for ChangeKey {
    fn key_eq(&self, other: &Self) -> (r: bool)
        ensures
            r == (self.deep_view() == other.deep_view()),
    {
        self.commit_id == other.commit_id && self.entity_id == other.entity_id
    }
}

/// Payload of a change row.
#[derive(Clone, Copy, Debug, PartialEq, Eq, Structural)]
pub struct ChangeExtra {
    pub kind: ChangeKind,
    pub adds: usize,
    pub dels: usize,
}

impl ChangeExtra {
    pub fn new(kind: ChangeKind, adds: usize, dels: usize) -> (e: ChangeExtra)
        ensures
            e == (ChangeExtra { kind, adds, dels }),
    {
        ChangeExtra { kind, adds, dels }
    }
}

// ---------------------------------------------------------------------
// presence
// ---------------------------------------------------------------------
/// Natural key of a presence row; unique per commit and entity.
#[derive(Clone, Copy, Debug, PartialEq, Eq, Structural)]
pub struct PresenceKey {
    pub commit_id: Id,
    pub entity_id: Id,
}

impl PresenceKey {
    pub fn new(commit_id: Id, entity_id: Id) -> (k: PresenceKey)
        ensures
            k == (PresenceKey { commit_id, entity_id }),
    {
        PresenceKey { commit_id, entity_id }
    }
}

impl DeepView for PresenceKey {
    type V = PresenceKey;

    open spec fn deep_view(&self) -> PresenceKey {
        *self
    }
}

impl TableKey for PresenceKey {
    fn key_eq(&self, other: &Self) -> (r: bool)
        ensures
            r == (self.deep_view() == other.deep_view()),
    {
        self.commit_id == other.commit_id && self.entity_id == other.entity_id
    }
}

/// Payload of a presence row: the row span the entity covers.
#[derive(Clone, Copy, Debug, PartialEq, Eq, Structural)]
pub struct PresenceExtra {
    pub start_row: usize,
    pub end_row: usize,
}

impl PresenceExtra {
    pub fn new(start_row: usize, end_row: usize) -> (e: PresenceExtra)
        ensures
            e == (PresenceExtra { start_row, end_row }),
    {
        PresenceExtra { start_row, end_row }
    }
}

// ---------------------------------------------------------------------
// reachability
// ---------------------------------------------------------------------
/// Natural key of a reachability row: an ordered pair of commit ids.
#[derive(Clone, Copy, Debug, PartialEq, Eq, Structural)]
pub struct ReachabilityKey {
    pub source_id: Id,
    pub target_id: Id,
}

impl ReachabilityKey {
    pub fn new(source_id: Id, target_id: Id) -> (k: ReachabilityKey)
        ensures
            k == (ReachabilityKey { source_id, target_id }),
    {
        ReachabilityKey { source_id, target_id }
    }
}

impl DeepView for ReachabilityKey {
    type V = ReachabilityKey;

    open spec fn deep_view(&self) -> ReachabilityKey {
        *self
    }
}

impl TableKey for ReachabilityKey {
    fn key_eq(&self, other: &Self) -> (r: bool)
        ensures
            r == (self.deep_view() == other.deep_view()),
    {
        self.source_id == other.source_id && self.target_id == other.target_id
    }
}

// ---------------------------------------------------------------------
// dependencies
// ---------------------------------------------------------------------
/// Natural key of a dependency row: source and target entity within a
/// commit, plus the dependency kind.
#[derive(Debug)]
pub struct DepKey {
    pub commit_id: Id,
    pub src_id: Id,
    pub tgt_id: Id,
    pub kind: String,
}

/// Mathematical view of a [`DepKey`].
pub struct DepKeyV {
    pub commit_id: Id,
    pub src_id: Id,
    pub tgt_id: Id,
    pub kind: Seq<char>,
}

impl DepKey {
    pub fn new(commit_id: Id, src_id: Id, tgt_id: Id, kind: String) -> (k: DepKey)
        ensures
            k.deep_view() == (DepKeyV { commit_id, src_id, tgt_id, kind: kind@ }),
    {
        DepKey { commit_id, src_id, tgt_id, kind }
    }
}

impl DeepView for DepKey {
    type V = DepKeyV;

    open spec fn deep_view(&self) -> DepKeyV {
        DepKeyV {
            commit_id: self.commit_id,
            src_id: self.src_id,
            tgt_id: self.tgt_id,
            kind: self.kind@,
        }
    }
}

impl TableKey for DepKey {
    fn key_eq(&self, other: &Self) -> (r: bool)
        ensures
            r == (self.deep_view() == other.deep_view()),
    {
        let r = self.commit_id == other.commit_id && self.src_id == other.src_id && self.tgt_id
            == other.tgt_id && self.kind.eq(&other.kind);
        proof {
            if r {
                assert(self.deep_view() == other.deep_view());
            } else {
                assert(self.deep_view() != other.deep_view());
            }
        }
        r
    }
}

/// Payload of a dependency row: the source line the dependency is used at.
#[derive(Clone, Copy, Debug, PartialEq, Eq, Structural)]
pub struct DepExtra {
    pub line: usize,
}

impl DepExtra {
    pub fn new(line: usize) -> (e: DepExtra)
        ensures
            e.line == line,
    {
        DepExtra { line }
    }
}

} // verus!
