use cochange::entity::Entity;
use cochange::interval::Interval;
use cochange::ir::ChangeKind;
use cochange::ir::CommitInfo;
use cochange::ir::Hunk;
use cochange::ir::is_sha1_str;
use cochange::ir::is_zero_sha1_str;

#[test]
fn intersect_of_interval_with_itself_is_its_length() {
    let a = Interval(3, 10);
    assert_eq!(a.intersect(&a), 7);
    let b = Interval(1, 1);
    assert_eq!(b.intersect(&b), 0);
}

#[test]
fn intersect_is_symmetric_and_nonnegative() {
    let a = Interval(2, 8);
    let b = Interval(5, 12);
    assert_eq!(a.intersect(&b), b.intersect(&a));
    assert_eq!(a.intersect(&b), 3);
}

#[test]
fn disjoint_intervals_intersect_in_zero() {
    let a = Interval(1, 4);
    let b = Interval(4, 9);
    assert_eq!(a.intersect(&b), 0);
    assert_eq!(b.intersect(&a), 0);
}

#[test]
fn single_line_overlap_counts_one() {
    // a one-line hunk against a one-line entity span
    let hunk_side = Interval(7, 8);
    let entity_span = Interval(7, 8);
    assert_eq!(hunk_side.intersect(&entity_span), 1);
}

#[test]
fn entity_path_flattens_root_to_leaf() {
    let file = Entity::new_root("a/b/C.java".to_string(), "file".to_string());
    let class = Entity::new(&file, "C".to_string(), "class".to_string());
    let method = Entity::new(&class, "foo".to_string(), "method".to_string());
    let path = method.to_vec();
    assert_eq!(path.len(), 3);
    assert_eq!(path[0].0, "a/b/C.java");
    assert_eq!(path[0].1, "file");
    assert_eq!(path[1].0, "C");
    assert_eq!(path[1].1, "class");
    assert_eq!(path[2].0, "foo");
    assert_eq!(path[2].1, "method");
}

#[test]
fn entities_share_identity_exactly_when_paths_agree() {
    let file = Entity::new_root("A.java".to_string(), "file".to_string());
    let m1 = Entity::new(&file, "m".to_string(), "method".to_string());
    let m2 = Entity::new(&file, "m".to_string(), "method".to_string());
    let other = Entity::new(&file, "m".to_string(), "class".to_string());
    assert!(m1.same_identity(&m2));
    assert!(!m1.same_identity(&other));
    assert!(!m1.same_identity(&file));
}

#[test]
fn change_kind_codes_are_a_m_d() {
    assert_eq!(ChangeKind::Added.to_char(), 'A');
    assert_eq!(ChangeKind::Modified.to_char(), 'M');
    assert_eq!(ChangeKind::Deleted.to_char(), 'D');
    assert_eq!(ChangeKind::Added.to_string(), "A");
    assert_eq!(ChangeKind::Modified.to_string(), "M");
    assert_eq!(ChangeKind::Deleted.to_string(), "D");
    assert_eq!(ChangeKind::default(), ChangeKind::Modified);
}

#[test]
fn sha1_check_requires_forty_lowercase_hex() {
    assert!(is_sha1_str("0123456789abcdef0123456789abcdef01234567"));
    assert!(!is_sha1_str("0123456789abcdef0123456789abcdef0123456"));
    assert!(!is_sha1_str("0123456789ABCDEF0123456789abcdef01234567"));
    assert!(!is_sha1_str("0123456789abcdef0123456789abcdef0123456g"));
    assert!(!is_sha1_str(""));
}

#[test]
fn zero_sha1_is_the_all_zero_hash() {
    assert!(is_zero_sha1_str(&"0".repeat(40)));
    assert!(!is_zero_sha1_str("0123456789abcdef0123456789abcdef01234567"));
    assert!(!is_zero_sha1_str("0"));
}

#[test]
fn hunk_from_counts_stores_half_open_upper_bounds() {
    let h = Hunk::from_counts(1, 0, 1, 25).unwrap();
    assert_eq!(h.old_interval, Interval(1, 1));
    assert_eq!(h.new_interval, Interval(1, 26));
}

#[test]
fn commit_info_starts_empty() {
    let i = CommitInfo::empty();
    assert!(!i.changes && !i.presence && !i.reachability);
    assert_eq!(CommitInfo::default(), i);
}
