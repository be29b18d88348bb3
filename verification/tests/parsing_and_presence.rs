use cochange::cache::BlobEntities;
use cochange::cache::ParseCache;
use cochange::diff::DeltaPathError;
use cochange::diff::DeltaStatus;
use cochange::diff::DiffPlan;
use cochange::diff::DiffedFileSet;
use cochange::diff::delta_path;
use cochange::diff::diff_plan;
use cochange::diff::status_supported;
use cochange::diff::suffix_matches;
use cochange::entity::Entity;
use cochange::interval::Interval;
use cochange::ir::Commit;
use cochange::ir::Hunk;
use cochange::ir::LocEntity;
use cochange::parser::PreTag;
use cochange::parser::capture_kinds;
use cochange::parser::sort_pre_tags;
use cochange::parser::tag_kind_of;
use cochange::parser::to_interval;
use cochange::parser::to_loc_entities;
use cochange::presence::ParsedFile;
use cochange::presence::get_presences;
use cochange::time_adapter::DateTime;

fn commit(fill: char) -> Commit {
    let d = DateTime { unix_seconds: 1_700_000_000, offset_seconds: 0 };
    Commit::new(fill.to_string().repeat(40), false, d, d)
}

fn pre_tag(id: usize, ancestors: &[usize], name: &str, kind: &str, rows: (usize, usize)) -> PreTag {
    PreTag {
        id,
        ancestor_ids: ancestors.to_vec(),
        name: name.to_string(),
        kind: kind.to_string(),
        start_row: rows.0,
        end_row: rows.1,
    }
}

#[test]
fn rows_shift_to_one_based_intervals() {
    assert_eq!(to_interval(0, 49), Interval(1, 50));
}

#[test]
fn capture_names_with_tag_prefix_declare_kinds() {
    assert_eq!(tag_kind_of("tag.class"), Some("class".to_string()));
    assert_eq!(tag_kind_of("tag.method"), Some("method".to_string()));
    assert_eq!(tag_kind_of("name"), None);
    assert_eq!(tag_kind_of("tag"), None);
    assert_eq!(tag_kind_of("tag."), Some(String::new()));
    let kinds = capture_kinds(&vec!["name".to_string(), "tag.interface".to_string()]);
    assert_eq!(kinds, vec![None, Some("interface".to_string())]);
}

#[test]
fn pre_tags_sort_stably_by_ancestor_count() {
    let tags = vec![
        pre_tag(1, &[10, 11], "deep_a", "method", (5, 6)),
        pre_tag(2, &[], "outer", "class", (0, 9)),
        pre_tag(3, &[10, 11], "deep_b", "method", (7, 8)),
    ];
    let sorted = sort_pre_tags(tags);
    let names: Vec<&str> = sorted.iter().map(|t| t.name.as_str()).collect();
    assert_eq!(names, vec!["outer", "deep_a", "deep_b"]);
}

#[test]
fn extraction_links_each_tag_to_its_nearest_extracted_ancestor() {
    // class A (node 100) spanning rows 0..49 holds method m (node 200,
    // parents 100 then the file), all inside file pkg/A.java
    let file = LocEntity::new(
        Entity::new_root("pkg/A.java".to_string(), "file".to_string()),
        Interval(1, 50),
    );
    let tags = vec![
        pre_tag(200, &[150, 100, 50], "m", "method", (9, 19)),
        pre_tag(100, &[50], "A", "class", (0, 49)),
    ];
    let out = to_loc_entities(file, tags);
    assert_eq!(out.len(), 3);
    // sorted outermost first: the class, then the method, then the file root
    assert_eq!(out[0].entity.to_vec().last().unwrap().0, "A");
    assert_eq!(out[0].loc, Interval(1, 50));
    let method_path = out[1].entity.to_vec();
    assert_eq!(method_path.len(), 3);
    assert_eq!(method_path[0].0, "pkg/A.java");
    assert_eq!(method_path[1].0, "A");
    assert_eq!(method_path[2].0, "m");
    assert_eq!(out[1].loc, Interval(10, 20));
    assert_eq!(out[2].entity.to_vec().len(), 1);
    assert_eq!(out[2].loc, Interval(1, 50));
}

#[test]
fn tags_without_extracted_ancestors_link_to_the_file_root() {
    let file = LocEntity::new(
        Entity::new_root("X.java".to_string(), "file".to_string()),
        Interval(1, 10),
    );
    let tags = vec![pre_tag(7, &[1, 2, 3], "loner", "function", (2, 4))];
    let out = to_loc_entities(file, tags);
    let path = out[0].entity.to_vec();
    assert_eq!(path.len(), 2);
    assert_eq!(path[0].1, "file");
    assert_eq!(path[1].0, "loner");
}

#[test]
fn presence_sweep_emits_one_row_per_located_entity() {
    let root = Entity::new_root("pkg/A.java".to_string(), "file".to_string());
    let class = Entity::new(&root, "A".to_string(), "class".to_string());
    let method = Entity::new(&class, "m".to_string(), "method".to_string());
    let files = vec![ParsedFile {
        filename: "pkg/A.java".to_string(),
        entities: vec![
            LocEntity::new(root, Interval(1, 51)),
            LocEntity::new(class, Interval(1, 51)),
            LocEntity::new(method, Interval(10, 21)),
        ],
    }];
    let rows = get_presences(&files, &commit('a'));
    assert_eq!(rows.len(), 3);
    assert_eq!(rows[0].loc_entity.loc, Interval(1, 51));
    assert_eq!(rows[2].loc_entity.loc, Interval(10, 21));
    for row in &rows {
        assert_eq!(row.commit.sha1, "a".repeat(40));
    }
}

#[test]
fn the_parse_cache_memoizes_by_path_and_blob() {
    let mut cache = ParseCache::new();
    let zero = "0".repeat(40);
    let blob = "b".repeat(40);
    assert!(matches!(cache.classify("A.java", &zero), BlobEntities::Missing));
    assert!(matches!(cache.classify("A.java", &blob), BlobEntities::NeedsParse));
    let entities = vec![LocEntity::new(
        Entity::new_root("A.java".to_string(), "file".to_string()),
        Interval(1, 3),
    )];
    let ix = cache.store("A.java".to_string(), blob.clone(), entities);
    assert!(matches!(cache.classify("A.java", &blob), BlobEntities::Cached(i) if i == ix));
    assert_eq!(cache.entities_at(ix).len(), 1);
    // a second store for the same pair keeps the first result
    let ix2 = cache.store("A.java".to_string(), blob.clone(), Vec::new());
    assert_eq!(ix, ix2);
    assert_eq!(cache.entities_at(ix).len(), 1);
}

#[test]
fn merge_commits_are_never_diffed() {
    assert_eq!(diff_plan(0), DiffPlan::AgainstEmpty);
    assert_eq!(diff_plan(1), DiffPlan::AgainstParent);
    assert_eq!(diff_plan(2), DiffPlan::SkipMerge);
    assert_eq!(diff_plan(5), DiffPlan::SkipMerge);
}

#[test]
fn only_plain_delta_statuses_are_taken() {
    assert!(status_supported(DeltaStatus::Added));
    assert!(status_supported(DeltaStatus::Deleted));
    assert!(status_supported(DeltaStatus::Modified));
    assert!(!status_supported(DeltaStatus::Other));
}

#[test]
fn delta_paths_refuse_renames() {
    assert_eq!(delta_path(None, None), Err(DeltaPathError::BothMissing));
    assert_eq!(delta_path(Some("a".to_string()), None), Ok("a".to_string()));
    assert_eq!(delta_path(None, Some("b".to_string())), Ok("b".to_string()));
    assert_eq!(
        delta_path(Some("a".to_string()), Some("a".to_string())),
        Ok("a".to_string())
    );
    assert_eq!(
        delta_path(Some("a".to_string()), Some("b".to_string())),
        Err(DeltaPathError::Renamed)
    );
}

#[test]
fn the_suffix_filter_ignores_ascii_case() {
    assert!(suffix_matches("src/Main.java", ".java"));
    assert!(suffix_matches("src/Main.JAVA", ".java"));
    assert!(!suffix_matches("src/Main.javax", ".java"));
    assert!(!suffix_matches("java", ".java"));
    assert!(!suffix_matches("", ".java"));
}

#[test]
fn hunks_group_by_path_and_commit() {
    let mut set = DiffedFileSet::new();
    let blob_a = "1".repeat(40);
    let blob_b = "2".repeat(40);
    let c1 = commit('a');
    let c2 = commit('b');
    set.add_hunk(
        &"A.java".to_string(),
        &c1,
        &blob_a,
        &blob_b,
        Hunk::new(Interval(1, 2), Interval(1, 3)),
    );
    set.add_hunk(
        &"A.java".to_string(),
        &c1,
        &blob_a,
        &blob_b,
        Hunk::new(Interval(5, 7), Interval(5, 6)),
    );
    set.add_hunk(
        &"A.java".to_string(),
        &c2,
        &blob_a,
        &blob_b,
        Hunk::new(Interval(9, 9), Interval(9, 10)),
    );
    assert_eq!(set.files.len(), 2);
    assert_eq!(set.files[0].hunks.len(), 2);
    assert_eq!(set.files[1].hunks.len(), 1);
    assert_eq!(set.files[0].filename, "A.java");
    assert_eq!(set.files[0].old_file, blob_a);
}
