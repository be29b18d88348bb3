//! The record types that flow through the pipeline: commits, hunks, located
//! entities, changes, references, diffed files and presence facts.

use vstd::prelude::*;

use crate::entity::Entity;
use crate::interval::Interval;
use crate::time_adapter::DateTime;

verus! {

/// Length of a commit hash in hexadecimal characters.
pub const SHA1_HEX_LEN: usize = 40;

/// Whether `c` is a lower-case hexadecimal digit.
pub open spec fn spec_is_hex_digit(c: char) -> bool {
    ('0' <= c && c <= '9') || ('a' <= c && c <= 'f')
}

/// Whether `s` is a well-formed commit or blob hash: exactly 40 lower-case
/// hexadecimal characters.
pub open spec fn spec_is_sha1(s: Seq<char>) -> bool {
    s.len() == SHA1_HEX_LEN && forall|i: int| 0 <= i < s.len() ==> spec_is_hex_digit(#[trigger] s[i])
}

/// Whether `s` is the all-zero hash, the sentinel for a missing blob side.
pub open spec fn spec_is_zero_sha1(s: Seq<char>) -> bool {
    s.len() == SHA1_HEX_LEN && forall|i: int| 0 <= i < s.len() ==> #[trigger] s[i] == '0'
}

/// Checks that a string is exactly 40 lower-case hexadecimal characters.
pub fn is_sha1_str(s: &str) -> (r: bool)
    ensures
        r == spec_is_sha1(s@),
{
    let len = s.unicode_len();
    if len != SHA1_HEX_LEN {
        return false;
    }
    for i in 0..len
        invariant
            len == s@.len(),
            len == SHA1_HEX_LEN,
            forall|j: int| 0 <= j < i ==> spec_is_hex_digit(#[trigger] s@[j]),
        decreases len - i,
    {
        let c = s.get_char(i);
        if !(('0' <= c && c <= '9') || ('a' <= c && c <= 'f')) {
            return false;
        }
    }
    true
}

/// Checks that a string is the all-zero 40-character hash.
pub fn is_zero_sha1_str(s: &str) -> (r: bool)
    ensures
        r == spec_is_zero_sha1(s@),
{
    let len = s.unicode_len();
    if len != SHA1_HEX_LEN {
        return false;
    }
    for i in 0..len
        invariant
            len == s@.len(),
            len == SHA1_HEX_LEN,
            forall|j: int| 0 <= j < i ==> #[trigger] s@[j] == '0',
        decreases len - i,
    {
        if s.get_char(i) != '0' {
            return false;
        }
    }
    true
}

/// A commit of the mined repository.
#[derive(Debug)]
pub struct Commit {
    /// Hexadecimal commit hash, always 40 lower-case hex characters.
    pub sha1: String,
    /// Whether the commit has more than one parent.
    pub is_merge: bool,
    pub author_date: DateTime,
    pub commit_date: DateTime,
}

impl Commit {
    /// Structural invariant: the hash is well-formed.
    pub open spec fn wf(self) -> bool {
        spec_is_sha1(self.sha1@)
    }

    pub fn new(sha1: String, is_merge: bool, author_date: DateTime, commit_date: DateTime) -> (c:
        Commit)
        requires
            spec_is_sha1(sha1@),
        ensures
            c.sha1@ == sha1@,
            c.is_merge == is_merge,
            c.author_date == author_date,
            c.commit_date == commit_date,
            c.wf(),
    {
        Commit { sha1, is_merge, author_date, commit_date }
    }
}

impl Clone for Commit {
    fn clone(&self) -> (r: Self)
        ensures
            r.sha1@ == self.sha1@,
            r.is_merge == self.is_merge,
            r.author_date == self.author_date,
            r.commit_date == self.commit_date,
    {
        Commit {
            sha1: self.sha1.clone(),
            is_merge: self.is_merge,
            author_date: self.author_date,
            commit_date: self.commit_date,
        }
    }
}

/// An entity located in one concrete blob: the entity identity plus the row
/// interval it spans there.
#[derive(Debug)]
pub struct LocEntity {
    pub entity: Entity,
    pub loc: Interval,
}

impl LocEntity {
    pub open spec fn wf(self) -> bool {
        self.entity.wf()
    }

    pub fn new(entity: Entity, loc: Interval) -> (r: LocEntity)
        ensures
            r.entity == entity,
            r.loc == loc,
    {
        LocEntity { entity, loc }
    }
}

impl Clone for LocEntity {
    fn clone(&self) -> (r: Self)
        ensures
            r.entity.names@ == self.entity.names@,
            r.entity.kinds@ == self.entity.kinds@,
            r.loc == self.loc,
    {
        LocEntity {
            entity: Entity {
                names: crate::entity::clone_strings(&self.entity.names),
                kinds: crate::entity::clone_strings(&self.entity.kinds),
            },
            loc: self.loc,
        }
    }
}

/// One contiguous change region of a diff: the rows it covers on the old
/// side and on the new side.
#[derive(Clone, Copy, Debug, PartialEq, Eq, Structural)]
pub struct Hunk {
    pub old_interval: Interval,
    pub new_interval: Interval,
}

impl Hunk {
    pub fn new(old_interval: Interval, new_interval: Interval) -> (h: Hunk)
        ensures
            h.old_interval == old_interval,
            h.new_interval == new_interval,
    {
        Hunk { old_interval, new_interval }
    }

    /// Builds a hunk from the raw values of a diff hunk header: 1-based
    /// start rows and line counts for both sides. The stored upper bounds
    /// are `start + count`; fails only when such a sum does not fit the
    /// machine word.
    pub fn from_counts(old_start: u32, old_lines: u32, new_start: u32, new_lines: u32) -> (r:
        Option<Hunk>)
        ensures
            r matches Some(h) ==> {
                &&& h.old_interval.0 == old_start
                &&& h.old_interval.1 == old_start + old_lines
                &&& h.new_interval.0 == new_start
                &&& h.new_interval.1 == new_start + new_lines
            },
            r is None ==> old_start + old_lines > usize::MAX || new_start + new_lines
                > usize::MAX,
    {
        let old_end = (old_start as usize).checked_add(old_lines as usize)?;
        let new_end = (new_start as usize).checked_add(new_lines as usize)?;
        Some(
            Hunk {
                old_interval: Interval(old_start as usize, old_end),
                new_interval: Interval(new_start as usize, new_end),
            },
        )
    }
}

/// How a change touched an entity.
#[derive(Clone, Copy, Debug, PartialEq, Eq, Structural)]
pub enum ChangeKind {
    Added,
    Modified,
    Deleted,
}

impl ChangeKind {
    /// The single-character code stored in the relational store. Always one
    /// of `A`, `M` and `D`.
    pub fn to_char(&self) -> (r: char)
        ensures
            r == self.spec_char(),
            r == 'A' || r == 'M' || r == 'D',
    {
        match self {
            ChangeKind::Added => 'A',
            ChangeKind::Modified => 'M',
            ChangeKind::Deleted => 'D',
        }
    }

    /// The code as a character.
    pub open spec fn spec_char(self) -> char {
        match self {
            ChangeKind::Added => 'A',
            ChangeKind::Modified => 'M',
            ChangeKind::Deleted => 'D',
        }
    }

    /// The single-character code as an owned string.
    pub fn to_string(&self) -> (r: String)
        ensures
            r@ =~= seq![self.spec_char()],
    {
        let r = match self {
            ChangeKind::Added => "A",
            ChangeKind::Modified => "M",
            ChangeKind::Deleted => "D",
        };
        proof {
            reveal_strlit("A");
            reveal_strlit("M");
            reveal_strlit("D");
        }
        r.to_owned()
    }
}

impl Default for ChangeKind {
    /// An entity touched by hunks on both sides defaults to `Modified`.
    fn default() -> (r: Self)
        ensures
            r == ChangeKind::Modified,
    {
        ChangeKind::Modified
    }
}

/// The aggregated delta of one entity in one commit.
#[derive(Debug)]
pub struct Change {
    pub entity: Entity,
    pub commit: Commit,
    pub kind: ChangeKind,
    pub adds: usize,
    pub dels: usize,
}

impl Change {
    pub open spec fn wf(self) -> bool {
        self.entity.wf() && self.commit.wf()
    }
}

/// A named reference (branch, tag, remote-tracking branch or `HEAD`)
/// together with the commit it points at.
#[derive(Debug)]
pub struct Ref {
    pub commit: Commit,
    pub name: String,
}

impl Ref {
    pub open spec fn wf(self) -> bool {
        self.commit.wf()
    }

    pub fn new(commit: Commit, name: String) -> (r: Ref)
        ensures
            r.commit == commit,
            r.name@ == name@,
    {
        Ref { commit, name }
    }
}

/// All hunks of one file path within one commit, together with the blob ids
/// of the two sides. An all-zero blob id marks a side that does not exist
/// (file added or deleted).
#[derive(Debug)]
pub struct DiffedFile {
    pub filename: String,
    pub commit: Commit,
    pub old_file: String,
    pub new_file: String,
    pub hunks: Vec<Hunk>,
}

impl DiffedFile {
    pub open spec fn wf(self) -> bool {
        self.commit.wf() && spec_is_sha1(self.old_file@) && spec_is_sha1(self.new_file@)
    }

    pub fn new(
        filename: String,
        commit: Commit,
        old_file: String,
        new_file: String,
        hunks: Vec<Hunk>,
    ) -> (r: DiffedFile)
        ensures
            r.filename@ == filename@,
            r.commit == commit,
            r.old_file@ == old_file@,
            r.new_file@ == new_file@,
            r.hunks@ == hunks@,
    {
        DiffedFile { filename, commit, old_file, new_file, hunks }
    }
}

/// The fact that an entity is present, over a known row span, in the
/// snapshot a reference tip points at.
#[derive(Debug)]
pub struct Presence {
    pub loc_entity: LocEntity,
    pub commit: Commit,
}

impl Presence {
    pub open spec fn wf(self) -> bool {
        self.loc_entity.wf() && self.commit.wf()
    }

    pub fn new(loc_entity: LocEntity, commit: Commit) -> (r: Presence)
        ensures
            r.loc_entity == loc_entity,
            r.commit == commit,
    {
        Presence { loc_entity, commit }
    }
}

/// Which derived analyses have been populated for a commit. The current
/// pipeline records none; the flags are reserved for extension and are
/// written out as three false columns.
#[derive(Clone, Copy, Debug, PartialEq, Eq, Structural)]
pub struct CommitInfo {
    pub changes: bool,
    pub presence: bool,
    pub reachability: bool,
}

impl CommitInfo {
    /// The value with no analysis recorded.
    pub fn empty() -> (r: CommitInfo)
        ensures
            r.changes == false,
            r.presence == false,
            r.reachability == false,
    {
        CommitInfo { changes: false, presence: false, reachability: false }
    }
}

impl Default for CommitInfo {
    fn default() -> (r: Self)
        ensures
            r.changes == false,
            r.presence == false,
            r.reachability == false,
    {
        CommitInfo { changes: false, presence: false, reachability: false }
    }
}

} // verus!
