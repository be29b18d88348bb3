//! Change attribution: for one diffed file, derive per-entity `{adds,
//! dels, kind}` by intersecting the hunk intervals with the entity spans
//! parsed from the two blob sides.
//!
//! An entity receives a change row when hunks touch it on either side or
//! when it exists on exactly one side; an entity on the old side only is
//! `Deleted`, one on the new side only is `Added`, anything else touched is
//! `Modified`. When one identity spans several located occurrences, the
//! occurrence latest in parse order that hunks touch decides the count.

use vstd::prelude::*;

use crate::entity::Entity;
use crate::interval::Interval;
use crate::interval::spec_intersect;
use crate::ir::Change;
use crate::ir::ChangeKind;
use crate::ir::Commit;
use crate::ir::Hunk;
use crate::ir::LocEntity;

verus! {

/// A root-to-leaf entity identity.
pub type EntityPath = Seq<(Seq<char>, Seq<char>)>;

/// The interval of a hunk on the requested side.
pub open spec fn spec_side(h: Hunk, old_side: bool) -> Interval {
    if old_side {
        h.old_interval
    } else {
        h.new_interval
    }
}

/// Total overlap of all hunks (on one side) with a located span.
pub open spec fn spec_sum(hs: Seq<Hunk>, loc: Interval, old_side: bool) -> int
    decreases hs.len(),
{
    if hs.len() == 0 {
        0
    } else {
        spec_sum(hs.drop_last(), loc, old_side) + spec_intersect(
            spec_side(hs.last(), old_side),
            loc,
        )
    }
}

/// A prefix never overlaps more than the whole sequence of hunks.
pub proof fn lemma_sum_prefix_le(hs: Seq<Hunk>, loc: Interval, old_side: bool, k: int)
    requires
        0 <= k <= hs.len(),
    ensures
        spec_sum(hs.take(k), loc, old_side) <= spec_sum(hs, loc, old_side),
    decreases hs.len(),
{
    if k < hs.len() {
        assert(hs.drop_last().take(k) =~= hs.take(k));
        lemma_sum_prefix_le(hs.drop_last(), loc, old_side, k);
        crate::interval::lemma_intersect_nonneg(spec_side(hs.last(), old_side), loc);
    } else {
        assert(hs.take(k) =~= hs);
    }
}

/// A hunk whose side interval lies entirely outside a span contributes
/// nothing to the span's total.
pub proof fn lemma_disjoint_hunk_adds_nothing(
    hs: Seq<Hunk>,
    h: Hunk,
    loc: Interval,
    old_side: bool,
)
    requires
        spec_side(h, old_side).1 <= loc.0 || loc.1 <= spec_side(h, old_side).0,
    ensures
        spec_sum(hs.push(h), loc, old_side) == spec_sum(hs, loc, old_side),
{
    crate::interval::lemma_intersect_disjoint(spec_side(h, old_side), loc);
    assert(hs.push(h).drop_last() =~= hs);
    assert(hs.push(h).last() == h);
}

/// Whether some located entity of `v` has the identity `p`.
pub open spec fn spec_path_in(v: Seq<LocEntity>, p: EntityPath) -> bool {
    exists|i: int| 0 <= i < v.len() && (#[trigger] v[i]).entity.path() == p
}

/// Whether some entity of `es` has the identity `p`.
pub open spec fn spec_epath_in(es: Seq<Entity>, p: EntityPath) -> bool {
    exists|i: int| 0 <= i < es.len() && (#[trigger] es[i]).path() == p
}

/// Whether some change of `r` is for identity `p`.
pub open spec fn spec_change_for(r: Seq<Change>, p: EntityPath) -> bool {
    exists|i: int| 0 <= i < r.len() && (#[trigger] r[i]).entity.path() == p
}

/// The count recorded for identity `p` from side `old_side`: the hunk
/// overlap of the latest occurrence of `p` that hunks touch, or zero when
/// no occurrence is touched.
pub open spec fn spec_recorded(v: Seq<LocEntity>, hs: Seq<Hunk>, p: EntityPath, old_side: bool) -> int
    decreases v.len(),
{
    if v.len() == 0 {
        0
    } else {
        if v.last().entity.path() == p && spec_sum(hs, v.last().loc, old_side) > 0 {
            spec_sum(hs, v.last().loc, old_side)
        } else {
            spec_recorded(v.drop_last(), hs, p, old_side)
        }
    }
}

/// Whether identity `p` receives a change row at all: it is touched by
/// hunks on some side, or it exists on exactly one side.
pub open spec fn spec_has_entry(
    oldv: Seq<LocEntity>,
    newv: Seq<LocEntity>,
    hs: Seq<Hunk>,
    p: EntityPath,
) -> bool {
    ||| spec_recorded(oldv, hs, p, true) > 0
    ||| spec_recorded(newv, hs, p, false) > 0
    ||| (spec_path_in(oldv, p) && !spec_path_in(newv, p))
    ||| (spec_path_in(newv, p) && !spec_path_in(oldv, p))
}

/// The kind recorded for identity `p`: `Deleted` when it vanished from the
/// new side, `Added` when it is new, `Modified` otherwise.
pub open spec fn spec_kind_for(oldv: Seq<LocEntity>, newv: Seq<LocEntity>, p: EntityPath) -> ChangeKind {
    if spec_path_in(oldv, p) && !spec_path_in(newv, p) {
        ChangeKind::Deleted
    } else if spec_path_in(newv, p) && !spec_path_in(oldv, p) {
        ChangeKind::Added
    } else {
        ChangeKind::Modified
    }
}

/// One change row is fully determined by the two parsed sides, the hunks
/// and the commit.
pub open spec fn change_ok(
    c: Change,
    oldv: Seq<LocEntity>,
    newv: Seq<LocEntity>,
    hs: Seq<Hunk>,
    commit: Commit,
) -> bool {
    &&& c.entity.wf()
    &&& c.commit.sha1@ == commit.sha1@
    &&& c.commit.is_merge == commit.is_merge
    &&& c.commit.author_date == commit.author_date
    &&& c.commit.commit_date == commit.commit_date
    &&& spec_has_entry(oldv, newv, hs, c.entity.path())
    &&& c.dels == spec_recorded(oldv, hs, c.entity.path(), true)
    &&& c.adds == spec_recorded(newv, hs, c.entity.path(), false)
    &&& c.kind == spec_kind_for(oldv, newv, c.entity.path())
}

/// Only identities present on a side can collect a count from it.
pub proof fn lemma_recorded_only_for_present(
    v: Seq<LocEntity>,
    hs: Seq<Hunk>,
    p: EntityPath,
    old_side: bool,
)
    requires
        !spec_path_in(v, p),
    ensures
        spec_recorded(v, hs, p, old_side) == 0,
    decreases v.len(),
{
    if v.len() > 0 {
        assert(v[v.len() - 1].entity.path() != p);
        assert forall|i: int| 0 <= i < v.len() - 1 implies (#[trigger] v.drop_last()[i]).entity.path()
            != p by {
            assert(v.drop_last()[i] == v[i]);
        }
        lemma_recorded_only_for_present(v.drop_last(), hs, p, old_side);
    }
}

/// A row recorded as `Deleted` carries no additions, and one recorded as
/// `Added` carries no deletions: counts come only from the side the
/// identity exists on.
pub proof fn lemma_one_sided_rows_count_one_side(
    oldv: Seq<LocEntity>,
    newv: Seq<LocEntity>,
    hs: Seq<Hunk>,
    p: EntityPath,
)
    ensures
        spec_kind_for(oldv, newv, p) == ChangeKind::Deleted ==> spec_recorded(newv, hs, p, false)
            == 0,
        spec_kind_for(oldv, newv, p) == ChangeKind::Added ==> spec_recorded(oldv, hs, p, true)
            == 0,
{
    if spec_kind_for(oldv, newv, p) == ChangeKind::Deleted {
        lemma_recorded_only_for_present(newv, hs, p, false);
    }
    if spec_kind_for(oldv, newv, p) == ChangeKind::Added {
        lemma_recorded_only_for_present(oldv, hs, p, true);
    }
}

/// Against an empty old side — the diff of a root commit against the empty
/// tree — nothing is recorded as deleted, and every identity of the new
/// side that receives a row receives it as `Added`.
pub proof fn lemma_root_commit_all_added(
    oldv: Seq<LocEntity>,
    newv: Seq<LocEntity>,
    hs: Seq<Hunk>,
    p: EntityPath,
)
    requires
        oldv.len() == 0,
        spec_path_in(newv, p),
    ensures
        spec_recorded(oldv, hs, p, true) == 0,
        spec_kind_for(oldv, newv, p) == ChangeKind::Added,
{
}

/// Sums the overlap of every hunk (on one side) with a located span.
pub fn sum_side(hunks: &Vec<Hunk>, loc: Interval, old_side: bool) -> (r: usize)
    requires
        spec_sum(hunks@, loc, old_side) <= usize::MAX,
    ensures
        r == spec_sum(hunks@, loc, old_side),
{
    let mut total: usize = 0;
    let n = hunks.len();
    proof {
        assert(hunks@.take(0) =~= Seq::<Hunk>::empty());
    }
    for i in 0..n
        invariant
            n == hunks@.len(),
            spec_sum(hunks@, loc, old_side) <= usize::MAX,
            total == spec_sum(hunks@.take(i as int), loc, old_side),
        decreases n - i,
    {
        let h = hunks[i];
        let d = if old_side {
            h.old_interval.intersect(&loc)
        } else {
            h.new_interval.intersect(&loc)
        };
        proof {
            assert(hunks@.take(i + 1).drop_last() =~= hunks@.take(i as int));
            assert(hunks@.take(i + 1).last() == hunks@[i as int]);
            lemma_sum_prefix_le(hunks@, loc, old_side, i + 1);
        }
        total = total + d;
    }
    proof {
        assert(hunks@.take(n as int) =~= hunks@);
    }
    total
}

/// The count recorded for `ent`'s identity from one side; scans the
/// occurrences latest-first, as the recording rule demands.
pub fn recorded_sum(v: &Vec<LocEntity>, hunks: &Vec<Hunk>, ent: &Entity, old_side: bool) -> (r:
    usize)
    requires
        ent.wf(),
        forall|k: int| 0 <= k < v@.len() ==> (#[trigger] v@[k]).wf(),
        forall|k: int|
            0 <= k < v@.len() ==> spec_sum(hunks@, (#[trigger] v@[k]).loc, old_side) <= usize::MAX,
    ensures
        r == spec_recorded(v@, hunks@, ent.path(), old_side),
{
    let mut i = v.len();
    proof {
        assert(v@.take(v@.len() as int) =~= v@);
    }
    while i > 0
        invariant
            i <= v@.len(),
            ent.wf(),
            forall|k: int| 0 <= k < v@.len() ==> (#[trigger] v@[k]).wf(),
            forall|k: int|
                0 <= k < v@.len() ==> spec_sum(hunks@, (#[trigger] v@[k]).loc, old_side)
                    <= usize::MAX,
            spec_recorded(v@, hunks@, ent.path(), old_side) == spec_recorded(
                v@.take(i as int),
                hunks@,
                ent.path(),
                old_side,
            ),
        decreases i,
    {
        i = i - 1;
        proof {
            assert(v@.take(i + 1).drop_last() =~= v@.take(i as int));
            assert(v@.take(i + 1).last() == v@[i as int]);
        }
        if v[i].entity.same_identity(ent) {
            let s = sum_side(hunks, v[i].loc, old_side);
            if s > 0 {
                proof {
                    assert(spec_recorded(v@.take(i + 1), hunks@, ent.path(), old_side) == s);
                }
                return s;
            }
        }
    }
    proof {
        assert(v@.take(0) =~= Seq::<LocEntity>::empty());
    }
    0
}

/// Whether some located entity of `v` shares `ent`'s identity.
pub fn contains_path(v: &Vec<LocEntity>, ent: &Entity) -> (r: bool)
    requires
        ent.wf(),
        forall|k: int| 0 <= k < v@.len() ==> (#[trigger] v@[k]).wf(),
    ensures
        r == spec_path_in(v@, ent.path()),
{
    let n = v.len();
    for i in 0..n
        invariant
            n == v@.len(),
            ent.wf(),
            forall|k: int| 0 <= k < v@.len() ==> (#[trigger] v@[k]).wf(),
            forall|k: int| 0 <= k < i ==> (#[trigger] v@[k]).entity.path() != ent.path(),
        decreases n - i,
    {
        if v[i].entity.same_identity(ent) {
            proof {
                assert(v@[i as int].entity.path() == ent.path());
            }
            return true;
        }
    }
    false
}

/// Appends a copy of `ent` unless an entity of the same identity is
/// already present. Existing entries are never disturbed and stay
/// pairwise distinct.
fn push_if_absent(r: &mut Vec<Entity>, ent: &Entity)
    requires
        ent.wf(),
        forall|j: int| 0 <= j < old(r)@.len() ==> (#[trigger] old(r)@[j]).wf(),
        forall|j1: int, j2: int|
            0 <= j1 < old(r)@.len() && 0 <= j2 < old(r)@.len() && j1 != j2 ==> (#[trigger] old(r)@[j1]).path() != (#[trigger] old(r)@[j2]).path(),
    ensures
        forall|j: int| 0 <= j < final(r)@.len() ==> (#[trigger] final(r)@[j]).wf(),
        forall|j1: int, j2: int|
            0 <= j1 < final(r)@.len() && 0 <= j2 < final(r)@.len() && j1 != j2 ==> (#[trigger] final(r)@[j1]).path() != (#[trigger] final(r)@[j2]).path(),
        forall|p: EntityPath| #[trigger] spec_epath_in(old(r)@, p) ==> spec_epath_in(final(r)@, p),
        spec_epath_in(final(r)@, ent.path()),
        forall|j: int|
            0 <= j < final(r)@.len() ==> spec_epath_in(old(r)@, (#[trigger] final(r)@[j]).path())
                || final(r)@[j].path() == ent.path(),
{
    let n = r.len();
    for i in 0..n
        invariant
            ent.wf(),
            n == r@.len(),
            *r == *old(r),
            forall|j: int| 0 <= j < old(r)@.len() ==> (#[trigger] old(r)@[j]).wf(),
            forall|j1: int, j2: int|
                0 <= j1 < old(r)@.len() && 0 <= j2 < old(r)@.len() && j1 != j2 ==> (#[trigger] old(
                r)@[j1]).path() != (#[trigger] old(r)@[j2]).path(),
            forall|j: int| 0 <= j < i ==> (#[trigger] r@[j]).path() != ent.path(),
        decreases n - i,
    {
        if r[i].same_identity(ent) {
            proof {
                assert(r@[i as int].path() == ent.path());
                assert(spec_epath_in(r@, ent.path()));
                assert(forall|p: EntityPath|
                    #[trigger] spec_epath_in(old(r)@, p) ==> spec_epath_in(r@, p));
                assert(forall|j: int|
                    0 <= j < r@.len() ==> spec_epath_in(old(r)@, (#[trigger] r@[j]).path()));
            }
            return ;
        }
    }
    let ghost before = r@;
    let copy = ent.clone();
    proof {
        assert(copy.path() =~= ent.path());
    }
    r.push(copy);
    proof {
        assert(r@.last().path() == ent.path());
        assert(spec_epath_in(r@, ent.path()));
        assert forall|p: EntityPath| #[trigger] spec_epath_in(before, p) implies spec_epath_in(
            r@,
            p,
        ) by {
            let i = choose|i: int| 0 <= i < before.len() && (#[trigger] before[i]).path() == p;
            assert(r@[i].path() == p);
        }
        assert forall|j1: int, j2: int|
            0 <= j1 < r@.len() && 0 <= j2 < r@.len() && j1 != j2 implies (#[trigger] r@[j1]).path()
            != (#[trigger] r@[j2]).path() by {
            if j1 < before.len() && j2 < before.len() {
                assert(before[j1] == r@[j1]);
                assert(before[j2] == r@[j2]);
            } else if j1 < before.len() {
                assert(before[j1].path() != ent.path());
            } else if j2 < before.len() {
                assert(before[j2].path() != ent.path());
            }
        }
        assert forall|j: int| 0 <= j < r@.len() implies spec_epath_in(
            before,
            (#[trigger] r@[j]).path(),
        ) || r@[j].path() == ent.path() by {
            if j < before.len() {
                assert(before[j].path() == r@[j].path());
                assert(spec_epath_in(before, before[j].path()));
            }
        }
    }
}

/// Collects one entity per distinct identity occurring on either side, in
/// order of first occurrence, old side first.
fn collect_entities(oldv: &Vec<LocEntity>, newv: &Vec<LocEntity>) -> (r: Vec<Entity>)
    requires
        forall|k: int| 0 <= k < oldv@.len() ==> (#[trigger] oldv@[k]).wf(),
        forall|k: int| 0 <= k < newv@.len() ==> (#[trigger] newv@[k]).wf(),
    ensures
        forall|j: int| 0 <= j < r@.len() ==> (#[trigger] r@[j]).wf(),
        forall|j1: int, j2: int|
            0 <= j1 < r@.len() && 0 <= j2 < r@.len() && j1 != j2 ==> (#[trigger] r@[j1]).path()
                != (#[trigger] r@[j2]).path(),
        forall|k: int|
            0 <= k < oldv@.len() ==> spec_epath_in(r@, (#[trigger] oldv@[k]).entity.path()),
        forall|k: int|
            0 <= k < newv@.len() ==> spec_epath_in(r@, (#[trigger] newv@[k]).entity.path()),
        forall|j: int|
            0 <= j < r@.len() ==> spec_path_in(oldv@, (#[trigger] r@[j]).path()) || spec_path_in(
                newv@,
                r@[j].path(),
            ),
{
    let mut r: Vec<Entity> = Vec::new();
    let n = oldv.len();
    for k in 0..n
        invariant
            n == oldv@.len(),
            forall|j: int| 0 <= j < oldv@.len() ==> (#[trigger] oldv@[j]).wf(),
            forall|j: int| 0 <= j < r@.len() ==> (#[trigger] r@[j]).wf(),
            forall|j1: int, j2: int|
                0 <= j1 < r@.len() && 0 <= j2 < r@.len() && j1 != j2 ==> (#[trigger] r@[j1]).path()
                    != (#[trigger] r@[j2]).path(),
            forall|j: int|
                0 <= j < k ==> spec_epath_in(r@, (#[trigger] oldv@[j]).entity.path()),
            forall|j: int|
                0 <= j < r@.len() ==> spec_path_in(oldv@, (#[trigger] r@[j]).path()),
        decreases n - k,
    {
        let ghost before = r@;
        push_if_absent(&mut r, &oldv[k].entity);
        proof {
            assert(spec_epath_in(r@, oldv@[k as int].entity.path()));
            assert forall|j: int| 0 <= j < r@.len() implies spec_path_in(
                oldv@,
                (#[trigger] r@[j]).path(),
            ) by {
                if spec_epath_in(before, r@[j].path()) {
                    let i = choose|i: int|
                        0 <= i < before.len() && (#[trigger] before[i]).path() == r@[j].path();
                } else {
                    assert(r@[j].path() == oldv@[k as int].entity.path());
                    assert(oldv@[k as int].entity.path() == oldv@[k as int].entity.path());
                }
            }
        }
    }
    let m = newv.len();
    for k in 0..m
        invariant
            m == newv@.len(),
            forall|j: int| 0 <= j < newv@.len() ==> (#[trigger] newv@[j]).wf(),
            forall|j: int| 0 <= j < r@.len() ==> (#[trigger] r@[j]).wf(),
            forall|j1: int, j2: int|
                0 <= j1 < r@.len() && 0 <= j2 < r@.len() && j1 != j2 ==> (#[trigger] r@[j1]).path()
                    != (#[trigger] r@[j2]).path(),
            forall|j: int|
                0 <= j < oldv@.len() ==> spec_epath_in(r@, (#[trigger] oldv@[j]).entity.path()),
            forall|j: int|
                0 <= j < k ==> spec_epath_in(r@, (#[trigger] newv@[j]).entity.path()),
            forall|j: int|
                0 <= j < r@.len() ==> spec_path_in(oldv@, (#[trigger] r@[j]).path()) || spec_path_in(
                    newv@,
                    r@[j].path(),
                ),
        decreases m - k,
    {
        let ghost before = r@;
        push_if_absent(&mut r, &newv[k].entity);
        proof {
            assert(spec_epath_in(r@, newv@[k as int].entity.path()));
            assert forall|j: int|
                0 <= j < oldv@.len() implies spec_epath_in(
                r@,
                (#[trigger] oldv@[j]).entity.path(),
            ) by {
                assert(spec_epath_in(before, oldv@[j].entity.path()));
            }
            assert forall|j: int| 0 <= j < r@.len() implies spec_path_in(
                oldv@,
                (#[trigger] r@[j]).path(),
            ) || spec_path_in(newv@, r@[j].path()) by {
                if spec_epath_in(before, r@[j].path()) {
                    let i = choose|i: int|
                        0 <= i < before.len() && (#[trigger] before[i]).path() == r@[j].path();
                } else {
                    assert(r@[j].path() == newv@[k as int].entity.path());
                }
            }
        }
    }
    r
}

/// Derives the change rows of one diffed file from the entities parsed on
/// its two blob sides and its hunks. Exactly the identities that hunks
/// touch, or that exist on only one side, receive a row; counts and kind
/// follow the recording rules above; no identity receives two rows.
pub fn get_changes(
    old_entities: &Vec<LocEntity>,
    new_entities: &Vec<LocEntity>,
    hunks: &Vec<Hunk>,
    commit: &Commit,
) -> (r: Vec<Change>)
    requires
        commit.wf(),
        forall|k: int| 0 <= k < old_entities@.len() ==> (#[trigger] old_entities@[k]).wf(),
        forall|k: int| 0 <= k < new_entities@.len() ==> (#[trigger] new_entities@[k]).wf(),
        forall|k: int|
            0 <= k < old_entities@.len() ==> spec_sum(hunks@, (#[trigger] old_entities@[k]).loc, true)
                <= usize::MAX,
        forall|k: int|
            0 <= k < new_entities@.len() ==> spec_sum(
                hunks@,
                (#[trigger] new_entities@[k]).loc,
                false,
            ) <= usize::MAX,
    ensures
        forall|i: int|
            0 <= i < r@.len() ==> change_ok(
                #[trigger] r@[i],
                old_entities@,
                new_entities@,
                hunks@,
                *commit,
            ),
        forall|i: int, j: int|
            0 <= i < r@.len() && 0 <= j < r@.len() && i != j ==> (#[trigger] r@[i]).entity.path()
                != (#[trigger] r@[j]).entity.path(),
        forall|k: int|
            0 <= k < old_entities@.len() && spec_has_entry(
                old_entities@,
                new_entities@,
                hunks@,
                (#[trigger] old_entities@[k]).entity.path(),
            ) ==> spec_change_for(r@, old_entities@[k].entity.path()),
        forall|k: int|
            0 <= k < new_entities@.len() && spec_has_entry(
                old_entities@,
                new_entities@,
                hunks@,
                (#[trigger] new_entities@[k]).entity.path(),
            ) ==> spec_change_for(r@, new_entities@[k].entity.path()),
{
    let ents = collect_entities(old_entities, new_entities);
    let mut r: Vec<Change> = Vec::new();
    let n = ents.len();
    for t in 0..n
        invariant
            n == ents@.len(),
            commit.wf(),
            forall|k: int| 0 <= k < old_entities@.len() ==> (#[trigger] old_entities@[k]).wf(),
            forall|k: int| 0 <= k < new_entities@.len() ==> (#[trigger] new_entities@[k]).wf(),
            forall|k: int|
                0 <= k < old_entities@.len() ==> spec_sum(
                    hunks@,
                    (#[trigger] old_entities@[k]).loc,
                    true,
                ) <= usize::MAX,
            forall|k: int|
                0 <= k < new_entities@.len() ==> spec_sum(
                    hunks@,
                    (#[trigger] new_entities@[k]).loc,
                    false,
                ) <= usize::MAX,
            forall|j: int| 0 <= j < ents@.len() ==> (#[trigger] ents@[j]).wf(),
            forall|j1: int, j2: int|
                0 <= j1 < ents@.len() && 0 <= j2 < ents@.len() && j1 != j2 ==> (
                #[trigger] ents@[j1]).path() != (#[trigger] ents@[j2]).path(),
            forall|k: int|
                0 <= k < old_entities@.len() ==> spec_epath_in(
                    ents@,
                    (#[trigger] old_entities@[k]).entity.path(),
                ),
            forall|k: int|
                0 <= k < new_entities@.len() ==> spec_epath_in(
                    ents@,
                    (#[trigger] new_entities@[k]).entity.path(),
                ),
            forall|i: int|
                0 <= i < r@.len() ==> change_ok(
                    #[trigger] r@[i],
                    old_entities@,
                    new_entities@,
                    hunks@,
                    *commit,
                ),
            forall|i: int, j: int|
                0 <= i < r@.len() && 0 <= j < r@.len() && i != j ==> (
                #[trigger] r@[i]).entity.path() != (#[trigger] r@[j]).entity.path(),
            forall|j: int|
                0 <= j < t ==> (spec_has_entry(
                    old_entities@,
                    new_entities@,
                    hunks@,
                    (#[trigger] ents@[j]).path(),
                ) <==> spec_change_for(r@, ents@[j].path())),
            forall|i: int|
                0 <= i < r@.len() ==> spec_epath_in(
                    ents@.take(t as int),
                    (#[trigger] r@[i]).entity.path(),
                ),
        decreases n - t,
    {
        let ghost r_before = r@;
        let ent = &ents[t];
        let dels = recorded_sum(old_entities, hunks, ent, true);
        let adds = recorded_sum(new_entities, hunks, ent, false);
        let in_old = contains_path(old_entities, ent);
        let in_new = contains_path(new_entities, ent);
        let owed = dels > 0 || adds > 0 || (in_old && !in_new) || (in_new && !in_old);
        if owed {
            let kind = if in_old && !in_new {
                ChangeKind::Deleted
            } else if in_new && !in_old {
                ChangeKind::Added
            } else {
                ChangeKind::Modified
            };
            let c = Change { entity: ent.clone(), commit: commit.clone(), kind, adds, dels };
            proof {
                assert(c.entity.path() =~= ents@[t as int].path());
                assert(change_ok(c, old_entities@, new_entities@, hunks@, *commit));
            }
            r.push(c);
            proof {
                assert(r@.last() == c);
                assert(r@.last().entity.path() == ents@[t as int].path());
                assert(spec_change_for(r@, ents@[t as int].path()));
                assert(spec_has_entry(old_entities@, new_entities@, hunks@, ents@[t as int].path()));
                assert(forall|i: int| 0 <= i < r_before.len() ==> r@[i] == r_before[i]);
                // earlier identities gained no second row
                assert forall|j: int| 0 <= j < t implies (spec_change_for(
                    r@,
                    (#[trigger] ents@[j]).path(),
                ) <==> spec_change_for(r_before, ents@[j].path())) by {
                    if spec_change_for(r@, ents@[j].path()) {
                        let i = choose|i: int|
                            0 <= i < r@.len() && (#[trigger] r@[i]).entity.path()
                                == ents@[j].path();
                        if i == r@.len() - 1 {
                            assert(ents@[j].path() != ents@[t as int].path());
                            assert(false);
                        } else {
                            assert(r_before[i].entity.path() == ents@[j].path());
                        }
                    } else {
                        if spec_change_for(r_before, ents@[j].path()) {
                            let i = choose|i: int|
                                0 <= i < r_before.len() && (#[trigger] r_before[i]).entity.path()
                                    == ents@[j].path();
                            assert(r@[i].entity.path() == ents@[j].path());
                            assert(false);
                        }
                    }
                }
                // the new row's identity is distinct from every earlier row's
                assert forall|i: int, j: int|
                    0 <= i < r@.len() && 0 <= j < r@.len() && i != j implies (
                #[trigger] r@[i]).entity.path() != (#[trigger] r@[j]).entity.path() by {
                    if i < r_before.len() && j < r_before.len() {
                        assert(r@[i] == r_before[i]);
                        assert(r@[j] == r_before[j]);
                    } else if i < r_before.len() {
                        assert(spec_epath_in(ents@.take(t as int), r_before[i].entity.path()));
                        let ghost ji = choose|jj: int|
                            0 <= jj < ents@.take(t as int).len() && (#[trigger] ents@.take(
                                t as int,
                            )[jj]).path() == r_before[i].entity.path();
                        assert(ents@[ji].path() != ents@[t as int].path());
                    } else if j < r_before.len() {
                        assert(spec_epath_in(ents@.take(t as int), r_before[j].entity.path()));
                        let ghost jj2 = choose|jj: int|
                            0 <= jj < ents@.take(t as int).len() && (#[trigger] ents@.take(
                                t as int,
                            )[jj]).path() == r_before[j].entity.path();
                        assert(ents@[jj2].path() != ents@[t as int].path());
                    }
                }
                // every row is for an identity handled by now
                assert forall|i: int| 0 <= i < r@.len() implies spec_epath_in(
                    ents@.take(t + 1),
                    (#[trigger] r@[i]).entity.path(),
                ) by {
                    if i < r_before.len() {
                        assert(spec_epath_in(ents@.take(t as int), r_before[i].entity.path()));
                        let j = choose|j: int|
                            0 <= j < ents@.take(t as int).len() && (#[trigger] ents@.take(
                                t as int,
                            )[j]).path() == r_before[i].entity.path();
                        assert(ents@.take(t + 1)[j].path() == r@[i].entity.path());
                    } else {
                        assert(ents@.take(t + 1)[t as int].path() == r@[i].entity.path());
                    }
                }
            }
        } else {
            proof {
                assert(!spec_has_entry(
                    old_entities@,
                    new_entities@,
                    hunks@,
                    ents@[t as int].path(),
                ));
                // the untouched identity has no row either
                if spec_change_for(r@, ents@[t as int].path()) {
                    let i = choose|i: int|
                        0 <= i < r@.len() && (#[trigger] r@[i]).entity.path() == ents@[
                            t as int
                        ].path();
                    assert(spec_epath_in(ents@.take(t as int), r@[i].entity.path()));
                    let j = choose|j: int|
                        0 <= j < ents@.take(t as int).len() && (#[trigger] ents@.take(
                            t as int,
                        )[j]).path() == r@[i].entity.path();
                    assert(ents@[j].path() == ents@[t as int].path());
                    assert(false);
                }
                assert forall|i: int| 0 <= i < r@.len() implies spec_epath_in(
                    ents@.take(t + 1),
                    (#[trigger] r@[i]).entity.path(),
                ) by {
                    assert(spec_epath_in(ents@.take(t as int), r@[i].entity.path()));
                    let j = choose|j: int|
                        0 <= j < ents@.take(t as int).len() && (#[trigger] ents@.take(
                            t as int,
                        )[j]).path() == r@[i].entity.path();
                    assert(ents@.take(t + 1)[j].path() == r@[i].entity.path());
                }
            }
        }
    }
    proof {
        assert forall|k: int|
            0 <= k < old_entities@.len() && spec_has_entry(
                old_entities@,
                new_entities@,
                hunks@,
                (#[trigger] old_entities@[k]).entity.path(),
            ) implies spec_change_for(r@, old_entities@[k].entity.path()) by {
            let p = old_entities@[k].entity.path();
            assert(spec_epath_in(ents@, p));
            let j = choose|j: int| 0 <= j < ents@.len() && (#[trigger] ents@[j]).path() == p;
            assert(spec_has_entry(old_entities@, new_entities@, hunks@, ents@[j].path()));
        }
        assert forall|k: int|
            0 <= k < new_entities@.len() && spec_has_entry(
                old_entities@,
                new_entities@,
                hunks@,
                (#[trigger] new_entities@[k]).entity.path(),
            ) implies spec_change_for(r@, new_entities@[k].entity.path()) by {
            let p = new_entities@[k].entity.path();
            assert(spec_epath_in(ents@, p));
            let j = choose|j: int| 0 <= j < ents@.len() && (#[trigger] ents@[j]).path() == p;
            assert(spec_has_entry(old_entities@, new_entities@, hunks@, ents@[j].path()));
        }
    }
    r
}

} // verus!
