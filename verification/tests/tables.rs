use cochange::db::VirtualDb;
use cochange::db::insert_change;
use cochange::db::insert_commit;
use cochange::db::insert_entity;
use cochange::db::insert_presence;
use cochange::db::insert_ref;
use cochange::entity::Entity;
use cochange::interval::Interval;
use cochange::ir::Change;
use cochange::ir::ChangeKind;
use cochange::ir::Commit;
use cochange::ir::LocEntity;
use cochange::ir::Presence;
use cochange::ir::Ref;
use cochange::keys::CommitKey;
use cochange::keys::NullExtra;
use cochange::time_adapter::DateTime;
use cochange::vtable::VirtualTable;

fn sha(fill: char) -> String {
    fill.to_string().repeat(40)
}

fn commit(fill: char, is_merge: bool, secs: i64) -> Commit {
    let d = DateTime { unix_seconds: secs, offset_seconds: 0 };
    Commit::new(sha(fill), is_merge, d, d)
}

fn method_entity(file: &str, name: &str) -> Entity {
    let root = Entity::new_root(file.to_string(), "file".to_string());
    Entity::new(&root, name.to_string(), "method".to_string())
}

#[test]
fn reinserting_a_key_returns_the_same_id_and_keeps_the_extra() {
    let mut t: VirtualTable<CommitKey, u32> = VirtualTable::new();
    let a = t.insert(CommitKey::new(sha('a')), 7);
    let b = t.insert(CommitKey::new(sha('b')), 8);
    let a_again = t.insert(CommitKey::new(sha('a')), 99);
    assert_eq!(a, 0);
    assert_eq!(b, 1);
    assert_eq!(a_again, a);
    assert_eq!(t.len(), 2);
    assert_eq!(t.extra_rows()[0], 7);
    assert_eq!(t.get_id(&CommitKey::new(sha('b'))), Some(1));
    assert_eq!(t.get_id(&CommitKey::new(sha('c'))), None);
}

#[test]
fn entity_rows_have_file_kind_exactly_at_roots() {
    let mut db = VirtualDb::new();
    let m = method_entity("a/b/C.java", "foo");
    let n = method_entity("a/b/C.java", "bar");
    insert_entity(&mut db, &m);
    insert_entity(&mut db, &n);
    for key in db.entity_vt.key_rows() {
        assert_eq!(key.kind == "file", key.parent_id.is_none());
    }
}

#[test]
fn entity_parent_ids_strictly_precede_their_children() {
    let mut db = VirtualDb::new();
    insert_entity(&mut db, &method_entity("a/b/C.java", "foo"));
    insert_entity(&mut db, &method_entity("d/E.java", "baz"));
    for (row, key) in db.entity_vt.key_rows().iter().enumerate() {
        if let Some(p) = key.parent_id {
            assert!(p < row);
        }
    }
}

#[test]
fn equal_entity_paths_deduplicate_to_the_same_id() {
    let mut db = VirtualDb::new();
    let a = insert_entity(&mut db, &method_entity("a/b/C.java", "foo"));
    let b = insert_entity(&mut db, &method_entity("a/b/C.java", "foo"));
    assert_eq!(a, b);
    // root and leaf for one path
    assert_eq!(db.entity_vt.key_rows().len(), 2);
}

#[test]
fn commit_rows_are_unique_by_sha1() {
    let mut db = VirtualDb::new();
    let c1 = insert_commit(&mut db, &commit('a', false, 100));
    let c2 = insert_commit(&mut db, &commit('b', true, 200));
    let c1_again = insert_commit(&mut db, &commit('a', false, 100));
    assert_eq!(c1, c1_again);
    assert_ne!(c1, c2);
    assert_eq!(db.commit_vt.key_rows().len(), 2);
    for key in db.commit_vt.key_rows() {
        assert_eq!(key.sha1.len(), 40);
        assert!(key.sha1.chars().all(|c| c.is_ascii_hexdigit()));
    }
    let extras = db.commit_vt.extra_rows();
    assert!(!extras[0].is_merge);
    assert!(extras[1].is_merge);
    assert_eq!(extras[1].author_time, 200);
}

#[test]
fn change_rows_are_unique_per_commit_and_entity() {
    let mut db = VirtualDb::new();
    let change = Change {
        entity: method_entity("a/b/C.java", "foo"),
        commit: commit('a', false, 100),
        kind: ChangeKind::Added,
        adds: 11,
        dels: 0,
    };
    let again = Change {
        entity: method_entity("a/b/C.java", "foo"),
        commit: commit('a', false, 100),
        kind: ChangeKind::Deleted,
        adds: 0,
        dels: 5,
    };
    let id1 = insert_change(&mut db, &change);
    let id2 = insert_change(&mut db, &again);
    assert_eq!(id1, id2);
    assert_eq!(db.change_vt.key_rows().len(), 1);
    // the first insertion decided the payload
    assert_eq!(db.change_vt.extra_rows()[0].kind, ChangeKind::Added);
    assert_eq!(db.change_vt.extra_rows()[0].adds, 11);
}

#[test]
fn presence_rows_are_unique_per_commit_and_entity() {
    let mut db = VirtualDb::new();
    let p = Presence::new(
        LocEntity::new(method_entity("pkg/A.java", "m"), Interval(10, 21)),
        commit('a', false, 100),
    );
    let q = Presence::new(
        LocEntity::new(method_entity("pkg/A.java", "m"), Interval(10, 21)),
        commit('a', false, 100),
    );
    let id1 = insert_presence(&mut db, &p);
    let id2 = insert_presence(&mut db, &q);
    assert_eq!(id1, id2);
    assert_eq!(db.presence_vt.key_rows().len(), 1);
    assert_eq!(db.presence_vt.extra_rows()[0].start_row, 10);
    assert_eq!(db.presence_vt.extra_rows()[0].end_row, 21);
}

#[test]
fn refs_are_keyed_by_name_and_point_at_their_commit() {
    let mut db = VirtualDb::new();
    let r = Ref::new(commit('a', false, 100), "refs/heads/main".to_string());
    let id = insert_ref(&mut db, &r);
    assert_eq!(id, 0);
    assert_eq!(db.ref_vt.key_rows()[0].name, "refs/heads/main");
    let commit_id = db.ref_vt.extra_rows()[0].commit_id;
    assert_eq!(db.commit_vt.key_rows()[commit_id].sha1, sha('a'));
}

#[test]
fn null_extra_rows_compare_equal() {
    assert_eq!(NullExtra, NullExtra);
}

#[test]
fn merge_commits_are_recorded_but_produce_no_change_rows() {
    let mut db = VirtualDb::new();
    // a merge commit reachable from the walk is inserted with its flag,
    // but since merges are never diffed, no change row references it
    let merge = commit('c', true, 300);
    let id = insert_commit(&mut db, &merge);
    assert!(db.commit_vt.extra_rows()[id].is_merge);
    assert!(db.change_vt.key_rows().is_empty());
}
