use cochange::db::DepVirtualTable;
use cochange::deps::Dep;
use cochange::deps::DepKind;
use cochange::deps::Endpoint;
use cochange::deps::EndpointKind;
use cochange::deps::FileLocs;
use cochange::deps::Loc;
use cochange::deps::group_locs;
use cochange::deps::insert_deps;
use cochange::deps::match_entity_id;
use cochange::vtable::VirtualTable;

fn loc(entity_id: usize, name: &str, filename: &str, level: usize, rows: (usize, usize)) -> Loc {
    Loc {
        entity_id,
        name: name.to_string(),
        filename: filename.to_string(),
        level,
        start_row: rows.0,
        end_row: rows.1,
    }
}

fn endpoint(full_name: &str, kind: EndpointKind, file: &str, line: usize) -> Endpoint {
    Endpoint { full_name: full_name.to_string(), kind, file: file.to_string(), line }
}

fn sample_files() -> Vec<FileLocs> {
    group_locs(vec![
        loc(0, "pkg/A.java", "pkg/A.java", 0, (1, 50)),
        loc(1, "A", "pkg/A.java", 1, (1, 50)),
        loc(2, "m", "pkg/A.java", 2, (10, 20)),
        loc(3, "n", "pkg/A.java", 2, (30, 40)),
        loc(4, "pkg/B.java", "pkg/B.java", 0, (1, 9)),
    ])
}

#[test]
fn endpoint_names_drop_the_qualifier() {
    assert_eq!(endpoint("pkg.A.m", EndpointKind::Function, "f", 1).name(), "m");
    assert_eq!(endpoint("m", EndpointKind::Function, "f", 1).name(), "m");
    assert_eq!(endpoint("a.", EndpointKind::Function, "f", 1).name(), "");
}

#[test]
fn grouping_splits_locations_by_file_in_order() {
    let files = sample_files();
    assert_eq!(files.len(), 2);
    assert_eq!(files[0].filename, "pkg/A.java");
    assert_eq!(files[0].locs.len(), 4);
    assert_eq!(files[1].filename, "pkg/B.java");
    assert_eq!(files[1].locs.len(), 1);
}

#[test]
fn file_endpoints_resolve_to_the_file_root() {
    let files = sample_files();
    let ep = endpoint("pkg.A", EndpointKind::File, "pkg/A.java", 0);
    assert_eq!(match_entity_id(&files, &ep), Some(0));
}

#[test]
fn unknown_files_and_unknown_lines_resolve_to_nothing() {
    let files = sample_files();
    let missing = endpoint("x", EndpointKind::Function, "nope.java", 5);
    assert_eq!(match_entity_id(&files, &missing), None);
    let zero_line = endpoint("pkg.A.m", EndpointKind::Function, "pkg/A.java", 0);
    assert_eq!(match_entity_id(&files, &zero_line), None);
}

#[test]
fn a_unique_span_match_wins_directly() {
    let files = sample_files();
    // in pkg/B.java only the file location spans line 5, so no refinement
    // by name is needed
    let ep = endpoint("whatever", EndpointKind::Function, "pkg/B.java", 5);
    assert_eq!(match_entity_id(&files, &ep), Some(4));
}

#[test]
fn among_several_span_matches_the_name_decides() {
    let files = sample_files();
    let ep = endpoint("pkg.A.m", EndpointKind::Function, "pkg/A.java", 15);
    assert_eq!(match_entity_id(&files, &ep), Some(2));
}

#[test]
fn without_a_name_match_the_deepest_unique_candidate_wins() {
    let files = sample_files();
    // line 15 lies in the file, the class and method m; no candidate is
    // named "other", so the deepest one (the method) is taken
    let ep = endpoint("pkg.A.other", EndpointKind::Function, "pkg/A.java", 15);
    assert_eq!(match_entity_id(&files, &ep), Some(2));
}

#[test]
fn dependencies_become_rows_keyed_by_commit_entities_and_kind() {
    let files = sample_files();
    let mut vt: DepVirtualTable = VirtualTable::new();
    let deps = vec![
        Dep {
            src: endpoint("pkg.A.m", EndpointKind::Function, "pkg/A.java", 15),
            tgt: endpoint("pkg.A.n", EndpointKind::Function, "pkg/A.java", 35),
            kind: DepKind::Call,
        },
        // a second report of the same dependency keeps the first row
        Dep {
            src: endpoint("pkg.A.m", EndpointKind::Function, "pkg/A.java", 15),
            tgt: endpoint("pkg.A.n", EndpointKind::Function, "pkg/A.java", 35),
            kind: DepKind::Call,
        },
        // an unresolvable endpoint drops the dependency
        Dep {
            src: endpoint("gone", EndpointKind::Function, "missing.java", 3),
            tgt: endpoint("pkg.A.n", EndpointKind::Function, "pkg/A.java", 35),
            kind: DepKind::Use,
        },
    ];
    insert_deps(&mut vt, &files, &deps, 7);
    assert_eq!(vt.keys.len(), 1);
    assert_eq!(vt.keys[0].commit_id, 7);
    assert_eq!(vt.keys[0].src_id, 2);
    assert_eq!(vt.keys[0].tgt_id, 3);
    assert_eq!(vt.keys[0].kind, "Call");
    assert_eq!(vt.extras[0].line, 15);
}

#[test]
fn dependency_kinds_spell_their_names() {
    assert_eq!(DepKind::Annotation.to_string(), "Annotation");
    assert_eq!(DepKind::Call.to_string(), "Call");
    assert_eq!(DepKind::Extend.to_string(), "Extend");
    assert_eq!(DepKind::Use.to_string(), "Use");
}
