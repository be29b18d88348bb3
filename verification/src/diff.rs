//! The diff collector's decision logic: which commits are diffed at all,
//! which deltas are taken, the single path of a delta, the case-blind
//! suffix filter, and the grouping of hunks into per-`(path, commit)`
//! diffed files.

use vstd::prelude::*;

use crate::ir::Commit;
use crate::ir::DiffedFile;
use crate::ir::Hunk;
use crate::ir::spec_is_sha1;

verus! {

/// How one commit is diffed.
#[derive(Clone, Copy, Debug, PartialEq, Eq, Structural)]
pub enum DiffPlan {
    /// A root commit: its tree is diffed against the empty tree.
    AgainstEmpty,
    /// An ordinary commit: diffed against its single parent.
    AgainstParent,
    /// A merge commit: recorded but never diffed.
    SkipMerge,
}

/// Merge commits are recorded but not diffed; root commits are diffed
/// against the empty tree.
pub fn diff_plan(parent_count: usize) -> (r: DiffPlan)
    ensures
        parent_count == 0 ==> r == DiffPlan::AgainstEmpty,
        parent_count == 1 ==> r == DiffPlan::AgainstParent,
        parent_count > 1 ==> r == DiffPlan::SkipMerge,
{
    if parent_count == 0 {
        DiffPlan::AgainstEmpty
    } else if parent_count == 1 {
        DiffPlan::AgainstParent
    } else {
        DiffPlan::SkipMerge
    }
}

/// The status of a diff delta, as the underlying diff reports it.
#[derive(Clone, Copy, Debug, PartialEq, Eq, Structural)]
pub enum DeltaStatus {
    Added,
    Deleted,
    Modified,
    /// Renames, copies, type changes and anything else.
    Other,
}

/// Only plain additions, deletions and modifications carry co-change
/// information; every other delta is skipped with a warning.
pub fn status_supported(status: DeltaStatus) -> (r: bool)
    ensures
        r == (status == DeltaStatus::Added || status == DeltaStatus::Deleted || status
            == DeltaStatus::Modified),
{
    match status {
        DeltaStatus::Added => true,
        DeltaStatus::Deleted => true,
        DeltaStatus::Modified => true,
        DeltaStatus::Other => false,
    }
}

/// Why a delta has no usable path.
#[derive(Clone, Copy, Debug, PartialEq, Eq, Structural)]
pub enum DeltaPathError {
    /// Neither side of the delta names a file.
    BothMissing,
    /// The two sides name different files: renames and moves are refused.
    Renamed,
}

/// The single path of a delta: the side that exists, or the shared path
/// when both sides exist and agree. A disagreement is a rename or move,
/// which the pipeline refuses.
pub fn delta_path(old_path: Option<String>, new_path: Option<String>) -> (r: Result<
    String,
    DeltaPathError,
>)
    ensures
        match r {
            Ok(p) => {
                ||| (old_path matches Some(op) && op@ == p@)
                ||| (old_path is None && (new_path matches Some(np) && np@ == p@))
            },
            Err(DeltaPathError::BothMissing) => old_path is None && new_path is None,
            Err(DeltaPathError::Renamed) => old_path matches Some(op) && new_path matches Some(np)
                && op@ != np@,
        },
        r is Ok <==> !(old_path is None && new_path is None) && !(old_path matches Some(op)
            && new_path matches Some(np) && op@ != np@),
{
    match (old_path, new_path) {
        (None, None) => Err(DeltaPathError::BothMissing),
        (None, Some(p)) => Ok(p),
        (Some(p), None) => Ok(p),
        (Some(op), Some(np)) => {
            if op.eq(&np) {
                Ok(op)
            } else {
                Err(DeltaPathError::Renamed)
            }
        },
    }
}

/// The lower-case form of an ASCII letter; other characters are kept.
pub open spec fn spec_lower_char(c: char) -> char {
    if 'A' <= c && c <= 'Z' {
        ((c as u8) + 32) as char
    } else {
        c
    }
}

/// Whether the name, lowered character by character, ends with the suffix.
pub open spec fn spec_suffix_match(name: Seq<char>, suffix: Seq<char>) -> bool {
    name.len() >= suffix.len() && forall|i: int|
        0 <= i < suffix.len() ==> spec_lower_char(name[name.len() - suffix.len() + i])
            == #[trigger] suffix[i]
}

/// Case-blind suffix filter: whether the file name ends with the
/// configured extension, ASCII case ignored.
pub fn suffix_matches(name: &str, suffix: &str) -> (r: bool)
    ensures
        r == spec_suffix_match(name@, suffix@),
{
    let nl = name.unicode_len();
    let sl = suffix.unicode_len();
    if nl < sl {
        return false;
    }
    let base = nl - sl;
    for i in 0..sl
        invariant
            nl == name@.len(),
            sl == suffix@.len(),
            base == nl - sl,
            forall|j: int|
                0 <= j < i ==> spec_lower_char(name@[base + j]) == #[trigger] suffix@[j],
        decreases sl - i,
    {
        let c = name.get_char(base + i);
        let lc: char = if 'A' <= c && c <= 'Z' {
            ((c as u8) + 32) as char
        } else {
            c
        };
        if lc != suffix.get_char(i) {
            return false;
        }
    }
    true
}

/// The diffed files accumulated for one run, grouped by `(path, commit)`.
/// Hunks of one file within one commit gather in one record, in the order
/// the diff produced them.
#[derive(Debug)]
pub struct DiffedFileSet {
    pub files: Vec<DiffedFile>,
}

impl DiffedFileSet {
    /// The `(path, commit hash)` keys of the records, in creation order.
    pub open spec fn key_views(self) -> Seq<(Seq<char>, Seq<char>)> {
        Seq::new(
            self.files@.len(),
            |i: int| (self.files@[i].filename@, self.files@[i].commit.sha1@),
        )
    }

    /// One record per `(path, commit)`.
    pub open spec fn wf(self) -> bool {
        forall|i: int, j: int|
            0 <= i < self.key_views().len() && 0 <= j < self.key_views().len() && i != j
                ==> self.key_views()[i] != self.key_views()[j]
    }

    pub fn new() -> (s: DiffedFileSet)
        ensures
            s.wf(),
            s.key_views() =~= Seq::<(Seq<char>, Seq<char>)>::empty(),
    {
        DiffedFileSet { files: Vec::new() }
    }

    /// The index of the record for the pair, if one exists.
    pub fn find(&self, filename: &str, commit_sha1: &str) -> (r: Option<usize>)
        ensures
            match r {
                Some(ix) => ix < self.files@.len() && self.key_views()[ix as int] == (
                    filename@,
                    commit_sha1@,
                ),
                None => !self.key_views().contains((filename@, commit_sha1@)),
            },
    {
        let n = self.files.len();
        for i in 0..n
            invariant
                n == self.files@.len(),
                forall|j: int| 0 <= j < i ==> self.key_views()[j] != (filename@, commit_sha1@),
            decreases n - i,
        {
            if crate::entity::str_eq(self.files[i].filename.as_str(), filename)
                && crate::entity::str_eq(self.files[i].commit.sha1.as_str(), commit_sha1) {
                proof {
                    assert(self.key_views()[i as int] == (filename@, commit_sha1@));
                }
                return Some(i);
            }
        }
        None
    }

    /// Appends one hunk to the record of `(filename, commit)`, creating
    /// the record — with the delta's two blob ids — when the pair is new.
    /// No other record changes.
    pub fn add_hunk(
        &mut self,
        filename: &String,
        commit: &Commit,
        old_file: &String,
        new_file: &String,
        hunk: Hunk,
    )
        requires
            old(self).wf(),
            commit.wf(),
            spec_is_sha1(old_file@),
            spec_is_sha1(new_file@),
        ensures
            final(self).wf(),
            old(self).key_views().contains((filename@, commit.sha1@)) ==> {
                &&& final(self).files@.len() == old(self).files@.len()
                &&& exists|ix: int|
                    {
                        &&& 0 <= ix < old(self).files@.len()
                        &&& old(self).key_views()[ix] == (filename@, commit.sha1@)
                        &&& (#[trigger] final(self).files@[ix]).hunks@ == old(self).files@[
                            ix
                        ].hunks@.push(hunk)
                        &&& final(self).files@[ix].filename@ == old(self).files@[ix].filename@
                        &&& final(self).files@[ix].commit == old(self).files@[ix].commit
                        &&& final(self).files@[ix].old_file@ == old(self).files@[ix].old_file@
                        &&& final(self).files@[ix].new_file@ == old(self).files@[ix].new_file@
                        &&& (forall|j: int|
                            0 <= j < old(self).files@.len() && j != ix ==> final(self).files@[j]
                                == old(self).files@[j])
                    }
            },
            !old(self).key_views().contains((filename@, commit.sha1@)) ==> {
                &&& final(self).files@.len() == old(self).files@.len() + 1
                &&& (forall|j: int|
                    0 <= j < old(self).files@.len() ==> final(self).files@[j] == old(
                        self,
                    ).files@[j])
                &&& final(self).files@.last().filename@ == filename@
                &&& final(self).files@.last().commit.sha1@ == commit.sha1@
                &&& final(self).files@.last().old_file@ == old_file@
                &&& final(self).files@.last().new_file@ == new_file@
                &&& final(self).files@.last().hunks@ =~= seq![hunk]
            },
    {
        let found = self.find(filename.as_str(), commit.sha1.as_str());
        match found {
            Some(ix) => {
                let ghost before = self.files@;
                self.files[ix].hunks.push(hunk);
                proof {
                    assert(self.files@[ix as int].hunks@ == before[ix as int].hunks@.push(hunk));
                    assert(forall|j: int|
                        0 <= j < before.len() && j != ix ==> self.files@[j] == before[j]);
                    assert(self.key_views() =~= old(self).key_views());
                }
            },
            None => {
                let ghost before = self.key_views();
                let mut hunks: Vec<Hunk> = Vec::new();
                hunks.push(hunk);
                let df = DiffedFile::new(
                    crate::entity::clone_string(filename),
                    commit.clone(),
                    crate::entity::clone_string(old_file),
                    crate::entity::clone_string(new_file),
                    hunks,
                );
                self.files.push(df);
                proof {
                    assert(self.key_views() =~= before.push((filename@, commit.sha1@)));
                    assert forall|i: int, j: int|
                        0 <= i < self.key_views().len() && 0 <= j < self.key_views().len() && i
                            != j implies self.key_views()[i] != self.key_views()[j] by {
                        if i < before.len() && j < before.len() {
                            assert(before[i] == self.key_views()[i]);
                            assert(before[j] == self.key_views()[j]);
                        }
                    }
                }
            },
        }
    }
}

} // verus!
