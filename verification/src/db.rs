//! The in-memory relational image of one extraction run: six virtual
//! tables, one per store table, with the insertion helpers that keep their
//! cross-table invariants — dense ids, parents before children in the
//! entity table, the `file` kind exactly at roots, and well-formed hashes
//! in the commit table.

use vstd::prelude::*;

use crate::entity::Entity;
use crate::entity::file_kind;
use crate::ir::Change;
use crate::ir::Commit;
use crate::ir::CommitInfo;
use crate::ir::Presence;
use crate::ir::Ref;
use crate::ir::spec_is_sha1;
use crate::keys::ChangeExtra;
use crate::keys::ChangeKey;
use crate::keys::CommitExtra;
use crate::keys::CommitKey;
use crate::keys::DepExtra;
use crate::keys::DepKey;
use crate::keys::EntityKey;
use crate::keys::EntityKeyV;
use crate::keys::Id;
use crate::keys::NullExtra;
use crate::keys::PresenceExtra;
use crate::keys::PresenceKey;
use crate::keys::ReachabilityKey;
use crate::keys::RefExtra;
use crate::keys::RefKey;
use crate::vtable::VirtualTable;
use crate::vtable::spec_insert_id;
use crate::vtable::spec_inserted;

verus! {

pub type EntityVirtualTable = VirtualTable<EntityKey, NullExtra>;

pub type CommitVirtualTable = VirtualTable<CommitKey, CommitExtra>;

pub type RefVirtualTable = VirtualTable<RefKey, RefExtra>;

pub type ChangeVirtualTable = VirtualTable<ChangeKey, ChangeExtra>;

pub type PresenceVirtualTable = VirtualTable<PresenceKey, PresenceExtra>;

pub type ReachabilityVirtualTable = VirtualTable<ReachabilityKey, NullExtra>;

pub type DepVirtualTable = VirtualTable<DepKey, DepExtra>;

/// Row `i` of the entity table is internally consistent: a root row has
/// kind `file` and no parent, every other row points to a parent with a
/// strictly smaller id and has some other kind.
pub open spec fn entity_row_ok(s: Seq<EntityKeyV>, i: int) -> bool {
    match s[i].parent_id {
        Option::None => s[i].kind == file_kind(),
        Option::Some(p) => p < i && s[i].kind != file_kind(),
    }
}

/// Every row of the entity table is internally consistent.
pub open spec fn entity_rows_wf(s: Seq<EntityKeyV>) -> bool {
    forall|i: int| 0 <= i < s.len() ==> #[trigger] entity_row_ok(s, i)
}

/// Every key of the commit table is a well-formed 40-character hash.
pub open spec fn commit_rows_wf(s: Seq<Seq<char>>) -> bool {
    forall|i: int| 0 <= i < s.len() ==> spec_is_sha1(#[trigger] s[i])
}

/// The root-to-leaf `(name, kind)` path of entity row `i`, recovered by
/// following parent links. Parents have smaller ids, so the recursion
/// descends.
pub open spec fn row_path(s: Seq<EntityKeyV>, i: int) -> Seq<(Seq<char>, Seq<char>)>
    decreases i,
{
    if 0 <= i < s.len() {
        match s[i].parent_id {
            Option::None => seq![(s[i].name, s[i].kind)],
            Option::Some(p) => {
                if p < i {
                    row_path(s, p as int).push((s[i].name, s[i].kind))
                } else {
                    seq![(s[i].name, s[i].kind)]
                }
            },
        }
    } else {
        Seq::empty()
    }
}

/// Appending a row does not disturb the recovered path of any earlier row.
pub proof fn lemma_row_path_push(s: Seq<EntityKeyV>, x: EntityKeyV, i: int)
    requires
        0 <= i < s.len(),
    ensures
        row_path(s.push(x), i) == row_path(s, i),
    decreases i,
{
    assert(s.push(x)[i] == s[i]);
    match s[i].parent_id {
        Option::None => {
        },
        Option::Some(p) => {
            if p < i {
                lemma_row_path_push(s, x, p as int);
            }
        },
    }
}

/// An in-bounds row always recovers a non-empty path.
pub proof fn lemma_row_path_len(s: Seq<EntityKeyV>, i: int)
    requires
        0 <= i < s.len(),
    ensures
        row_path(s, i).len() >= 1,
        row_path(s, i).last() == (s[i].name, s[i].kind),
{
}

/// For every entity row, the kind is `file` exactly when the parent id is
/// missing.
pub proof fn lemma_entity_file_iff_root(s: Seq<EntityKeyV>, i: int)
    requires
        entity_rows_wf(s),
        0 <= i < s.len(),
    ensures
        s[i].kind == file_kind() <==> s[i].parent_id is None,
{
    assert(entity_row_ok(s, i));
}

/// For every entity row with a parent, the parent's id is strictly smaller
/// than the row's own id.
pub proof fn lemma_entity_parent_precedes(s: Seq<EntityKeyV>, i: int, p: Id)
    requires
        entity_rows_wf(s),
        0 <= i < s.len(),
        s[i].parent_id == Some(p),
    ensures
        p < i,
{
    assert(entity_row_ok(s, i));
}

/// Whether some row of the entity table recovers exactly this path.
pub open spec fn spec_path_present(s: Seq<EntityKeyV>, p: Seq<(Seq<char>, Seq<char>)>) -> bool {
    exists|c: int| 0 <= c < s.len() && #[trigger] row_path(s, c) == p
}

/// Every prefix of a recovered path is itself recovered by some row: the
/// ancestors of a row carry the ancestors of its path.
pub proof fn lemma_row_path_take(s: Seq<EntityKeyV>, i: int, d: int)
    requires
        entity_rows_wf(s),
        0 <= i < s.len(),
        1 <= d <= row_path(s, i).len(),
    ensures
        spec_path_present(s, row_path(s, i).take(d)),
    decreases row_path(s, i).len(),
{
    assert(entity_row_ok(s, i));
    lemma_row_path_len(s, i);
    let full = row_path(s, i);
    if d == full.len() {
        assert(full.take(d) =~= full);
        assert(row_path(s, i) == full.take(d));
    } else {
        match s[i].parent_id {
            Option::None => {
                assert(full.len() == 1);
                assert(false);
            },
            Option::Some(p) => {
                assert(row_path(s, p as int) =~= full.drop_last());
                assert(row_path(s, p as int).take(d) =~= full.take(d));
                lemma_row_path_take(s, p as int, d);
                let c = choose|c: int|
                    0 <= c < s.len() && #[trigger] row_path(s, c) == row_path(s, p as int).take(d);
                assert(row_path(s, c) == full.take(d));
            },
        }
    }
}

/// Two distinct rows of a well-formed entity table never recover the same
/// path: the flattened root-to-leaf identity determines the dense id.
pub proof fn lemma_row_path_injective(s: Seq<EntityKeyV>, i: int, j: int)
    requires
        entity_rows_wf(s),
        forall|a: int, b: int|
            0 <= a < s.len() && 0 <= b < s.len() && a != b ==> #[trigger] s[a] != #[trigger] s[b],
        0 <= i < s.len(),
        0 <= j < s.len(),
        row_path(s, i) == row_path(s, j),
    ensures
        i == j,
    decreases i + j,
{
    assert(entity_row_ok(s, i));
    assert(entity_row_ok(s, j));
    lemma_row_path_len(s, i);
    lemma_row_path_len(s, j);
    assert((s[i].name, s[i].kind) == (s[j].name, s[j].kind));
    match s[i].parent_id {
        Option::None => {
            match s[j].parent_id {
                Option::None => {
                    if i != j {
                        assert(s[i] == s[j]) by {
                            assert(s[i].parent_id == s[j].parent_id);
                            assert(s[i].name == s[j].name);
                            assert(s[i].kind == s[j].kind);
                        }
                        assert(false);
                    }
                },
                Option::Some(q) => {
                    lemma_row_path_len(s, q as int);
                    assert(row_path(s, j).len() >= 2);
                    assert(row_path(s, i).len() == 1);
                    assert(false);
                },
            }
        },
        Option::Some(p) => {
            match s[j].parent_id {
                Option::None => {
                    lemma_row_path_len(s, p as int);
                    assert(row_path(s, i).len() >= 2);
                    assert(row_path(s, j).len() == 1);
                    assert(false);
                },
                Option::Some(q) => {
                    assert(row_path(s, p as int) =~= row_path(s, i).drop_last());
                    assert(row_path(s, q as int) =~= row_path(s, j).drop_last());
                    lemma_row_path_injective(s, p as int, q as int);
                    if i != j {
                        assert(s[i] == s[j]) by {
                            assert(s[i].parent_id == s[j].parent_id);
                            assert(s[i].name == s[j].name);
                            assert(s[i].kind == s[j].kind);
                        }
                        assert(false);
                    }
                },
            }
        },
    }
}

/// In a well-formed commit table, the hash is unique across rows and every
/// hash is exactly 40 hexadecimal characters.
pub proof fn lemma_commit_sha1_unique_and_hex(t: CommitVirtualTable, i: int, j: int)
    requires
        t.wf(),
        commit_rows_wf(t.key_views()),
        0 <= i < t.key_views().len(),
        0 <= j < t.key_views().len(),
    ensures
        i != j ==> t.key_views()[i] != t.key_views()[j],
        spec_is_sha1(t.key_views()[i]),
{
}

/// In a well-formed change table, `(commit_id, entity_id)` is unique across
/// rows; likewise for the presence table.
pub proof fn lemma_change_key_unique(t: ChangeVirtualTable, i: int, j: int)
    requires
        t.wf(),
        0 <= i < t.key_views().len(),
        0 <= j < t.key_views().len(),
        i != j,
    ensures
        t.key_views()[i] != t.key_views()[j],
{
}

/// See [`lemma_change_key_unique`]: the same uniqueness for presence rows.
pub proof fn lemma_presence_key_unique(t: PresenceVirtualTable, i: int, j: int)
    requires
        t.wf(),
        0 <= i < t.key_views().len(),
        0 <= j < t.key_views().len(),
        i != j,
    ensures
        t.key_views()[i] != t.key_views()[j],
{
}

/// All virtual tables of one extraction run.
#[derive(Debug)]
pub struct VirtualDb {
    pub entity_vt: EntityVirtualTable,
    pub commit_vt: CommitVirtualTable,
    pub ref_vt: RefVirtualTable,
    pub change_vt: ChangeVirtualTable,
    pub presence_vt: PresenceVirtualTable,
    pub reachability_vt: ReachabilityVirtualTable,
}

impl VirtualDb {
    /// All tables well-formed, entity rows linked to earlier parents, and
    /// commit hashes well-formed.
    pub open spec fn wf(self) -> bool {
        &&& self.entity_vt.wf()
        &&& entity_rows_wf(self.entity_vt.key_views())
        &&& self.commit_vt.wf()
        &&& commit_rows_wf(self.commit_vt.key_views())
        &&& self.ref_vt.wf()
        &&& self.change_vt.wf()
        &&& self.presence_vt.wf()
        &&& self.reachability_vt.wf()
    }

    /// Creates the empty database image.
    pub fn new() -> (db: VirtualDb)
        ensures
            db.wf(),
            db.entity_vt.key_views().len() == 0,
            db.commit_vt.key_views().len() == 0,
            db.ref_vt.key_views().len() == 0,
            db.change_vt.key_views().len() == 0,
            db.presence_vt.key_views().len() == 0,
            db.reachability_vt.key_views().len() == 0,
    {
        VirtualDb {
            entity_vt: VirtualTable::new(),
            commit_vt: VirtualTable::new(),
            ref_vt: VirtualTable::new(),
            change_vt: VirtualTable::new(),
            presence_vt: VirtualTable::new(),
            reachability_vt: VirtualTable::new(),
        }
    }
}

/// Inserts an entity by walking its path from the file root to the leaf.
/// Every segment becomes one row keyed by the id of the segment above it;
/// rows that already exist are reused, so equal paths receive equal ids.
/// Returns the id of the leaf row.
pub fn insert_entity(db: &mut VirtualDb, entity: &Entity) -> (id: Id)
    requires
        old(db).wf(),
        entity.wf(),
    ensures
        final(db).wf(),
        final(db).commit_vt == old(db).commit_vt,
        final(db).ref_vt == old(db).ref_vt,
        final(db).change_vt == old(db).change_vt,
        final(db).presence_vt == old(db).presence_vt,
        final(db).reachability_vt == old(db).reachability_vt,
        old(db).entity_vt.key_views().is_prefix_of(final(db).entity_vt.key_views()),
        id < final(db).entity_vt.key_views().len(),
        row_path(final(db).entity_vt.key_views(), id as int) == entity.path(),
        spec_path_present(old(db).entity_vt.key_views(), entity.path()) ==> final(db).entity_vt
            == old(db).entity_vt,
{
    let ghost orig = old(db).entity_vt.key_views();
    let n = entity.depth();
    let mut prev: Option<Id> = None;
    for i in 0..n
        invariant
            entity.wf(),
            n == entity.path().len(),
            db.wf(),
            db.commit_vt == old(db).commit_vt,
            db.ref_vt == old(db).ref_vt,
            db.change_vt == old(db).change_vt,
            db.presence_vt == old(db).presence_vt,
            db.reachability_vt == old(db).reachability_vt,
            orig == old(db).entity_vt.key_views(),
            orig.is_prefix_of(db.entity_vt.key_views()),
            i == 0 ==> prev is None,
            i > 0 ==> (prev matches Some(p) && p < db.entity_vt.key_views().len() && row_path(
                db.entity_vt.key_views(),
                p as int,
            ) == entity.path().take(i as int)),
            spec_path_present(orig, entity.path()) ==> db.entity_vt == old(db).entity_vt,
        decreases n - i,
    {
        let ghost pre_views = db.entity_vt.key_views();
        let ghost pre_table = db.entity_vt;
        let name = entity.names[i].clone();
        let kind = entity.kinds[i].clone();
        let key = EntityKey::new(prev, name, kind);
        let ghost kv = key.deep_view();
        proof {
            assert(kv.name == entity.path()[i as int].0);
            assert(kv.kind == entity.path()[i as int].1);
            // when the whole path is already present, so is this segment's
            // row, with exactly this key
            if spec_path_present(orig, entity.path()) {
                let eid = choose|c: int|
                    0 <= c < orig.len() && #[trigger] row_path(orig, c) == entity.path();
                lemma_row_path_len(pre_views, eid);
                assert(row_path(pre_views, eid).len() == entity.path().len());
                lemma_row_path_take(pre_views, eid, i + 1);
                let c = choose|c: int|
                    0 <= c < pre_views.len() && #[trigger] row_path(pre_views, c) == row_path(
                        pre_views,
                        eid,
                    ).take(i + 1);
                assert(row_path(pre_views, eid).take(i + 1) =~= entity.path().take(i + 1));
                lemma_row_path_len(pre_views, c);
                assert(row_path(pre_views, c).last() == (pre_views[c].name, pre_views[c].kind));
                assert(entity.path().take(i + 1).last() == entity.path()[i as int]);
                assert(pre_views[c].name == kv.name);
                assert(pre_views[c].kind == kv.kind);
                assert(entity_row_ok(pre_views, c));
                if i == 0 {
                    match pre_views[c].parent_id {
                        Option::None => {},
                        Option::Some(q) => {
                            lemma_row_path_len(pre_views, q as int);
                            assert(row_path(pre_views, c).len() >= 2);
                            assert(false);
                        },
                    }
                    assert(pre_views[c] == kv);
                } else {
                    let cprev = prev->Some_0;
                    match pre_views[c].parent_id {
                        Option::None => {
                            assert(row_path(pre_views, c).len() == 1);
                            assert(false);
                        },
                        Option::Some(q) => {
                            assert(row_path(pre_views, q as int) =~= row_path(
                                pre_views,
                                c,
                            ).drop_last());
                            assert(row_path(pre_views, q as int) =~= entity.path().take(i as int));
                            lemma_row_path_injective(pre_views, q as int, cprev as int);
                            assert(q == cprev);
                        },
                    }
                    assert(pre_views[c] == kv);
                }
                assert(pre_views.contains(kv));
            }
        }
        let this_id = db.entity_vt.insert(key, NullExtra);
        proof {
            let views = db.entity_vt.key_views();
            if pre_views.contains(kv) {
                assert(views == pre_views);
                assert(views[this_id as int] == kv);
                assert(entity_row_ok(views, this_id as int));
                if i == 0 {
                    assert(kv.parent_id is None);
                    assert(row_path(views, this_id as int) =~= entity.path().take(1));
                } else {
                    let p = prev->Some_0;
                    assert(kv.parent_id == Some(p));
                    assert(p < this_id as int);
                    assert(row_path(views, this_id as int) =~= row_path(views, p as int).push(
                        (kv.name, kv.kind),
                    ));
                    assert(entity.path().take(i + 1 as int) =~= entity.path().take(i as int).push(
                        entity.path()[i as int],
                    ));
                }
            } else {
                assert(views =~= pre_views.push(kv));
                assert(this_id == pre_views.len());
                assert(views[this_id as int] == kv);
                // the new row is internally consistent
                if i == 0 {
                    assert(entity.kinds@[0]@ == file_kind());
                    assert(entity_row_ok(views, this_id as int));
                    assert(row_path(views, this_id as int) =~= entity.path().take(1));
                } else {
                    let p = prev->Some_0;
                    assert(entity.kinds@[i as int]@ != file_kind());
                    assert(entity_row_ok(views, this_id as int));
                    lemma_row_path_push(pre_views, kv, p as int);
                    assert(row_path(views, p as int) == row_path(pre_views, p as int));
                    assert(row_path(views, this_id as int) =~= row_path(views, p as int).push(
                        (kv.name, kv.kind),
                    ));
                    assert(entity.path().take(i + 1 as int) =~= entity.path().take(i as int).push(
                        entity.path()[i as int],
                    ));
                }
                // every earlier row is still internally consistent
                assert forall|r: int| 0 <= r < views.len() implies #[trigger] entity_row_ok(
                    views,
                    r,
                ) by {
                    if r < pre_views.len() {
                        assert(entity_row_ok(pre_views, r));
                        assert(views[r] == pre_views[r]);
                    }
                }
                assert(orig.is_prefix_of(views));
            }
            assert(row_path(db.entity_vt.key_views(), this_id as int) == entity.path().take(
                i + 1 as int,
            ));
            if spec_path_present(orig, entity.path()) {
                assert(pre_views.contains(kv));
                assert(db.entity_vt == pre_table);
            }
        }
        prev = Some(this_id);
    }
    proof {
        assert(entity.path().take(n as int) =~= entity.path());
    }
    match prev {
        Some(id) => id,
        None => {
            proof {
                assert(false);
            }
            0
        },
    }
}

/// Inserts a commit keyed by its hash. The payload records the merge flag,
/// both timestamps as epoch seconds, and empty analysis flags.
pub fn insert_commit(db: &mut VirtualDb, commit: &Commit) -> (id: Id)
    requires
        old(db).wf(),
        commit.wf(),
    ensures
        final(db).wf(),
        final(db).entity_vt == old(db).entity_vt,
        final(db).ref_vt == old(db).ref_vt,
        final(db).change_vt == old(db).change_vt,
        final(db).presence_vt == old(db).presence_vt,
        final(db).reachability_vt == old(db).reachability_vt,
        final(db).commit_vt.key_views() =~= spec_inserted(
            old(db).commit_vt.key_views(),
            commit.sha1@,
        ),
        id == spec_insert_id(old(db).commit_vt.key_views(), commit.sha1@),
        id < final(db).commit_vt.key_views().len(),
        final(db).commit_vt.key_views()[id as int] == commit.sha1@,
        !old(db).commit_vt.spec_contains(commit.sha1@) ==> final(db).commit_vt.extra_seq() == old(db).commit_vt.extra_seq().push(
            CommitExtra {
                is_merge: commit.is_merge,
                author_time: commit.author_date.unix_seconds,
                commit_time: commit.commit_date.unix_seconds,
                commit_info: CommitInfo { changes: false, presence: false, reachability: false },
            },
        ),
        old(db).commit_vt.spec_contains(commit.sha1@) ==> final(db).commit_vt.extra_seq() == old(db).commit_vt.extra_seq(),
    {
    let key = CommitKey::new(commit.sha1.clone());
    let extra = CommitExtra::new(
        commit.is_merge,
        commit.author_date.unix_timestamp(),
        commit.commit_date.unix_timestamp(),
        CommitInfo::empty(),
    );
    let ghost pre_views = db.commit_vt.key_views();
    let id = db.commit_vt.insert(key, extra);
    proof {
        let views = db.commit_vt.key_views();
        assert forall|r: int| 0 <= r < views.len() implies spec_is_sha1(#[trigger] views[r]) by {
            if r < pre_views.len() {
                assert(views[r] == pre_views[r]);
            } else {
                assert(views[r] == commit.sha1@);
            }
        }
    }
    id
}

/// Inserts a change row. The referenced commit and entity are inserted (or
/// found) first, and the row is keyed by their ids, so one commit holds at
/// most one change row per entity.
pub fn insert_change(db: &mut VirtualDb, change: &Change) -> (id: Id)
    requires
        old(db).wf(),
        change.wf(),
    ensures
        final(db).wf(),
        final(db).ref_vt == old(db).ref_vt,
        final(db).presence_vt == old(db).presence_vt,
        final(db).reachability_vt == old(db).reachability_vt,
        old(db).entity_vt.key_views().is_prefix_of(final(db).entity_vt.key_views()),
        spec_path_present(old(db).entity_vt.key_views(), change.entity.path()) ==> final(db).entity_vt == old(db).entity_vt,
        final(db).commit_vt.key_views() =~= spec_inserted(
            old(db).commit_vt.key_views(),
            change.commit.sha1@,
        ),
        exists|eid: Id|
            {
                &&& eid < final(db).entity_vt.key_views().len()
                &&& row_path(final(db).entity_vt.key_views(), eid as int) == change.entity.path()
                &&& {
                    let ck = ChangeKey {
                        commit_id: spec_insert_id(
                            old(db).commit_vt.key_views(),
                            change.commit.sha1@,
                        ) as Id,
                        entity_id: eid,
                    };
                    &&& final(db).change_vt.key_views() =~= spec_inserted(
                        old(db).change_vt.key_views(),
                        ck,
                    )
                    &&& id == spec_insert_id(old(db).change_vt.key_views(), ck)
                    &&& (!old(db).change_vt.spec_contains(ck) ==> final(db).change_vt.extra_seq()
                        == old(db).change_vt.extra_seq().push(
                        ChangeExtra { kind: change.kind, adds: change.adds, dels: change.dels },
                    ))
                    &&& (old(db).change_vt.spec_contains(ck) ==> final(db).change_vt.extra_seq()
                        == old(db).change_vt.extra_seq())
                }
            },
{
    let commit_id = insert_commit(db, &change.commit);
    let entity_id = insert_entity(db, &change.entity);
    let change_key = ChangeKey::new(commit_id, entity_id);
    let change_extra = ChangeExtra::new(change.kind, change.adds, change.dels);
    let id = db.change_vt.insert(change_key, change_extra);
    proof {
        assert(exists|eid: Id|
            {
                &&& eid < final(db).entity_vt.key_views().len()
                &&& row_path(final(db).entity_vt.key_views(), eid as int) == change.entity.path()
                &&& {
                    let ck = ChangeKey {
                        commit_id: spec_insert_id(
                            old(db).commit_vt.key_views(),
                            change.commit.sha1@,
                        ) as Id,
                        entity_id: eid,
                    };
                    &&& final(db).change_vt.key_views() =~= spec_inserted(
                        old(db).change_vt.key_views(),
                        ck,
                    )
                    &&& id == spec_insert_id(old(db).change_vt.key_views(), ck)
                    &&& (!old(db).change_vt.spec_contains(ck) ==> final(db).change_vt.extra_seq()
                        == old(db).change_vt.extra_seq().push(
                        ChangeExtra { kind: change.kind, adds: change.adds, dels: change.dels },
                    ))
                    &&& (old(db).change_vt.spec_contains(ck) ==> final(db).change_vt.extra_seq()
                        == old(db).change_vt.extra_seq())
                }
            }) by {
            assert(entity_id < final(db).entity_vt.key_views().len());
        }
    }
    id
}

/// Inserts a presence row. As for changes, the commit and the entity are
/// inserted first and the row is keyed by their ids; the payload is the row
/// span of the located entity.
pub fn insert_presence(db: &mut VirtualDb, presence: &Presence) -> (id: Id)
    requires
        old(db).wf(),
        presence.wf(),
    ensures
        final(db).wf(),
        final(db).ref_vt == old(db).ref_vt,
        final(db).change_vt == old(db).change_vt,
        final(db).reachability_vt == old(db).reachability_vt,
        old(db).entity_vt.key_views().is_prefix_of(final(db).entity_vt.key_views()),
        spec_path_present(old(db).entity_vt.key_views(), presence.loc_entity.entity.path())
            ==> final(db).entity_vt == old(db).entity_vt,
        final(db).commit_vt.key_views() =~= spec_inserted(
            old(db).commit_vt.key_views(),
            presence.commit.sha1@,
        ),
        exists|eid: Id|
            {
                &&& eid < final(db).entity_vt.key_views().len()
                &&& row_path(final(db).entity_vt.key_views(), eid as int)
                    == presence.loc_entity.entity.path()
                &&& {
                    let pk = PresenceKey {
                        commit_id: spec_insert_id(
                            old(db).commit_vt.key_views(),
                            presence.commit.sha1@,
                        ) as Id,
                        entity_id: eid,
                    };
                    &&& final(db).presence_vt.key_views() =~= spec_inserted(
                        old(db).presence_vt.key_views(),
                        pk,
                    )
                    &&& id == spec_insert_id(old(db).presence_vt.key_views(), pk)
                    &&& (!old(db).presence_vt.spec_contains(pk) ==> final(db).presence_vt.extra_seq() == old(db).presence_vt.extra_seq().push(
                        PresenceExtra {
                            start_row: presence.loc_entity.loc.0,
                            end_row: presence.loc_entity.loc.1,
                        },
                    ))
                    &&& (old(db).presence_vt.spec_contains(pk) ==> final(db).presence_vt.extra_seq() == old(db).presence_vt.extra_seq())
                }
            },
{
    let commit_id = insert_commit(db, &presence.commit);
    let entity_id = insert_entity(db, &presence.loc_entity.entity);
    let interval = presence.loc_entity.loc;
    let presence_key = PresenceKey::new(commit_id, entity_id);
    let presence_extra = PresenceExtra::new(interval.0, interval.1);
    let id = db.presence_vt.insert(presence_key, presence_extra);
    proof {
        assert(entity_id < final(db).entity_vt.key_views().len());
    }
    id
}

/// Inserts a reference row keyed by the reference name; the payload is the
/// id of the commit the reference points at.
pub fn insert_ref(db: &mut VirtualDb, r: &Ref) -> (id: Id)
    requires
        old(db).wf(),
        r.wf(),
    ensures
        final(db).wf(),
        final(db).entity_vt == old(db).entity_vt,
        final(db).change_vt == old(db).change_vt,
        final(db).presence_vt == old(db).presence_vt,
        final(db).reachability_vt == old(db).reachability_vt,
        final(db).commit_vt.key_views() =~= spec_inserted(
            old(db).commit_vt.key_views(),
            r.commit.sha1@,
        ),
        final(db).ref_vt.key_views() =~= spec_inserted(old(db).ref_vt.key_views(), r.name@),
        id == spec_insert_id(old(db).ref_vt.key_views(), r.name@),
        !old(db).ref_vt.spec_contains(r.name@) ==> final(db).ref_vt.extra_seq() == old(db).ref_vt.extra_seq().push(
            RefExtra {
                commit_id: spec_insert_id(old(db).commit_vt.key_views(), r.commit.sha1@) as Id,
            },
        ),
        old(db).ref_vt.spec_contains(r.name@) ==> final(db).ref_vt.extra_seq() == old(db).ref_vt.extra_seq(),
{
    let commit_id = insert_commit(db, &r.commit);
    let ref_key = RefKey::new(r.name.clone());
    let ref_extra = RefExtra::new(commit_id);
    db.ref_vt.insert(ref_key, ref_extra)
}


} // verus!
