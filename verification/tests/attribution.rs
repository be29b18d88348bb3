use cochange::attrib::get_changes;
use cochange::entity::Entity;
use cochange::interval::Interval;
use cochange::ir::Change;
use cochange::ir::ChangeKind;
use cochange::ir::Commit;
use cochange::ir::Hunk;
use cochange::ir::LocEntity;
use cochange::time_adapter::DateTime;

fn commit() -> Commit {
    let d = DateTime { unix_seconds: 1_700_000_000, offset_seconds: 0 };
    Commit::new("a".repeat(40), false, d, d)
}

fn file_entity(name: &str) -> Entity {
    Entity::new_root(name.to_string(), "file".to_string())
}

fn child(parent: &Entity, name: &str, kind: &str) -> Entity {
    Entity::new(parent, name.to_string(), kind.to_string())
}

fn find<'a>(changes: &'a [Change], leaf: &str) -> &'a Change {
    changes
        .iter()
        .find(|c| c.entity.names.last().map(|n| n.as_str()) == Some(leaf))
        .expect("a change for the entity")
}

#[test]
fn root_commit_reports_everything_added_without_deletions() {
    // a new file a/b/C.java with a method foo spanning new-file lines 10..20,
    // one hunk: old side empty, new side rows 1..25
    let file = file_entity("a/b/C.java");
    let foo = child(&file, "foo", "method");
    let old_entities: Vec<LocEntity> = Vec::new();
    let new_entities = vec![
        LocEntity::new(file.clone(), Interval(1, 26)),
        LocEntity::new(foo.clone(), Interval(10, 21)),
    ];
    let hunks = vec![Hunk::new(Interval(1, 1), Interval(1, 26))];
    let changes = get_changes(&old_entities, &new_entities, &hunks, &commit());

    assert_eq!(changes.len(), 2);
    for c in &changes {
        assert_eq!(c.kind, ChangeKind::Added);
        assert_eq!(c.dels, 0);
    }
    assert_eq!(find(&changes, "a/b/C.java").adds, 25);
    assert_eq!(find(&changes, "foo").adds, 11);
}

#[test]
fn rewriting_three_lines_of_a_method_reports_three_each_way() {
    // second commit rewrites lines 12..14 of a method spanning 10..20
    let file = file_entity("a/b/C.java");
    let foo = child(&file, "foo", "method");
    let old_entities = vec![
        LocEntity::new(file.clone(), Interval(1, 26)),
        LocEntity::new(foo.clone(), Interval(10, 21)),
    ];
    let new_entities = vec![
        LocEntity::new(file.clone(), Interval(1, 26)),
        LocEntity::new(foo.clone(), Interval(10, 21)),
    ];
    let hunks = vec![Hunk::new(Interval(12, 15), Interval(12, 15))];
    let changes = get_changes(&old_entities, &new_entities, &hunks, &commit());

    assert_eq!(changes.len(), 2);
    let m = find(&changes, "foo");
    assert_eq!(m.kind, ChangeKind::Modified);
    assert_eq!(m.adds, 3);
    assert_eq!(m.dels, 3);
    let f = find(&changes, "a/b/C.java");
    assert_eq!(f.kind, ChangeKind::Modified);
    assert_eq!(f.adds, 3);
    assert_eq!(f.dels, 3);
}

#[test]
fn single_line_hunk_against_single_line_entity_counts_one() {
    let file = file_entity("X.java");
    let one = child(&file, "one", "field");
    let old_entities = vec![
        LocEntity::new(file.clone(), Interval(1, 9)),
        LocEntity::new(one.clone(), Interval(7, 8)),
    ];
    let new_entities = vec![
        LocEntity::new(file.clone(), Interval(1, 9)),
        LocEntity::new(one.clone(), Interval(7, 8)),
    ];
    let hunks = vec![Hunk::new(Interval(7, 8), Interval(7, 8))];
    let changes = get_changes(&old_entities, &new_entities, &hunks, &commit());
    let c = find(&changes, "one");
    assert_eq!(c.adds, 1);
    assert_eq!(c.dels, 1);
}

#[test]
fn hunk_outside_every_entity_contributes_nothing() {
    let file = file_entity("X.java");
    let m = child(&file, "m", "method");
    // the method spans 10..20; the hunk touches rows 30..35 only, which lie
    // inside no entity span at all
    let old_entities = vec![LocEntity::new(m.clone(), Interval(10, 21))];
    let new_entities = vec![LocEntity::new(m.clone(), Interval(10, 21))];
    let hunks = vec![Hunk::new(Interval(30, 36), Interval(30, 36))];
    let changes = get_changes(&old_entities, &new_entities, &hunks, &commit());
    assert!(changes.is_empty());
}

#[test]
fn deleted_file_reports_every_entity_deleted_with_no_adds() {
    let file = file_entity("gone/Z.java");
    let cls = child(&file, "Z", "class");
    let m = child(&cls, "run", "method");
    let old_entities = vec![
        LocEntity::new(file.clone(), Interval(1, 51)),
        LocEntity::new(cls.clone(), Interval(1, 51)),
        LocEntity::new(m.clone(), Interval(10, 21)),
    ];
    let new_entities: Vec<LocEntity> = Vec::new();
    // the whole file vanishes: one hunk covering all fifty old rows
    let hunks = vec![Hunk::new(Interval(1, 51), Interval(1, 1))];
    let changes = get_changes(&old_entities, &new_entities, &hunks, &commit());

    assert_eq!(changes.len(), 3);
    for c in &changes {
        assert_eq!(c.kind, ChangeKind::Deleted);
        assert_eq!(c.adds, 0);
    }
    assert_eq!(find(&changes, "gone/Z.java").dels, 50);
    assert_eq!(find(&changes, "Z").dels, 50);
    assert_eq!(find(&changes, "run").dels, 11);
}

#[test]
fn untouched_entities_on_both_sides_receive_no_row() {
    let file = file_entity("X.java");
    let a = child(&file, "a", "method");
    let b = child(&file, "b", "method");
    let old_entities = vec![
        LocEntity::new(file.clone(), Interval(1, 31)),
        LocEntity::new(a.clone(), Interval(1, 11)),
        LocEntity::new(b.clone(), Interval(20, 31)),
    ];
    let new_entities = vec![
        LocEntity::new(file.clone(), Interval(1, 31)),
        LocEntity::new(a.clone(), Interval(1, 11)),
        LocEntity::new(b.clone(), Interval(20, 31)),
    ];
    let hunks = vec![Hunk::new(Interval(5, 8), Interval(5, 8))];
    let changes = get_changes(&old_entities, &new_entities, &hunks, &commit());
    // the file and method `a` are touched; `b` is not
    assert_eq!(changes.len(), 2);
    assert!(changes.iter().all(|c| c.entity.names.last().unwrap() != "b"));
}

#[test]
fn each_identity_receives_at_most_one_row() {
    let file = file_entity("X.java");
    let old_entities = vec![LocEntity::new(file.clone(), Interval(1, 11))];
    let new_entities = vec![
        LocEntity::new(file.clone(), Interval(1, 11)),
        LocEntity::new(file.clone(), Interval(1, 11)),
    ];
    let hunks = vec![Hunk::new(Interval(1, 3), Interval(1, 3))];
    let changes = get_changes(&old_entities, &new_entities, &hunks, &commit());
    assert_eq!(changes.len(), 1);
}
