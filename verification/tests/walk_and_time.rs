use cochange::time_adapter::to_datetime;
use cochange::timeparse::parse_time_input;
use cochange::walk::CommitWalk;
use cochange::walk::RefGlobKind;
use cochange::walk::SortMode;
use cochange::walk::WalkAction;
use cochange::walk::WalkFilter;
use cochange::walk::WalkOptions;
use cochange::walk::get_commit_walk;

fn sha(fill: char) -> String {
    fill.to_string().repeat(40)
}

#[test]
fn max_count_zero_emits_no_commit() {
    let mut walk = CommitWalk::new();
    walk.set_max_count(0);
    let mut filter = WalkFilter::new(walk);
    for t in [0i64, 1_000, 2_000_000_000] {
        assert_ne!(filter.step(t), WalkAction::Emit);
    }
    assert_eq!(filter.count, 0);
}

#[test]
fn since_above_until_emits_no_commit() {
    let mut walk = CommitWalk::new();
    walk.set_since(2_000);
    walk.set_until(1_000);
    let mut filter = WalkFilter::new(walk);
    for t in [0i64, 999, 1_000, 1_500, 2_000, 5_000] {
        assert_ne!(filter.step(t), WalkAction::Emit);
    }
}

#[test]
fn commits_before_since_stop_the_walk_and_later_ones_are_skipped() {
    let mut walk = CommitWalk::new();
    walk.set_since(100);
    walk.set_until(200);
    let mut filter = WalkFilter::new(walk);
    assert_eq!(filter.step(300), WalkAction::Skip);
    assert_eq!(filter.step(200), WalkAction::Emit);
    assert_eq!(filter.step(150), WalkAction::Emit);
    assert_eq!(filter.step(100), WalkAction::Emit);
    assert_eq!(filter.step(99), WalkAction::Stop);
    assert_eq!(filter.count, 3);
}

#[test]
fn a_date_window_restricts_the_emitted_commits_to_it() {
    // commits in descending time order, one per unit step
    let since: i64 = 300;
    let until: i64 = 330;
    let mut walk = CommitWalk::new();
    walk.set_since(since);
    walk.set_until(until);
    let mut filter = WalkFilter::new(walk);
    let mut emitted = 0usize;
    let mut t: i64 = 1_000;
    while t >= 0 {
        match filter.step(t) {
            WalkAction::Emit => {
                assert!(since <= t && t <= until);
                emitted += 1;
            }
            WalkAction::Skip => assert!(t > until),
            WalkAction::Stop => {
                assert!(t < since);
                break;
            }
        }
        t -= 1;
    }
    assert_eq!(emitted, 31);
}

#[test]
fn max_count_caps_the_emitted_commits() {
    let mut walk = CommitWalk::new();
    walk.set_max_count(2);
    let mut filter = WalkFilter::new(walk);
    assert_eq!(filter.step(30), WalkAction::Emit);
    assert_eq!(filter.step(20), WalkAction::Emit);
    assert_eq!(filter.step(10), WalkAction::Stop);
}

#[test]
fn glob_patterns_receive_their_namespace_prefix() {
    let mut walk = CommitWalk::new();
    walk.push_glob(RefGlobKind::All, None);
    walk.push_glob(RefGlobKind::Branches, Some("release-*".to_string()));
    walk.push_glob(RefGlobKind::Tags, None);
    walk.push_glob(RefGlobKind::Remotes, Some("origin/*".to_string()));
    assert_eq!(walk.globs, vec!["*", "heads/release-*", "tags/*", "remotes/origin/*"]);
}

#[test]
fn start_commits_are_deduplicated() {
    let mut walk = CommitWalk::new();
    walk.push_start_oid(sha('a'));
    walk.push_start_oid(sha('b'));
    walk.push_start_oid(sha('a'));
    assert_eq!(walk.start_oids, vec![sha('a'), sha('b')]);
}

#[test]
fn all_seeds_one_verbatim_star_glob() {
    let opts = WalkOptions {
        max_count: Some(5),
        since: Some(1),
        until: Some(9),
        all: true,
        branches: Some(Some("x".to_string())),
        tags: None,
        remotes: None,
        start_oids: vec![sha('a')],
    };
    let walk = get_commit_walk(opts);
    assert_eq!(walk.sort_mode, SortMode { topological: false, time: true, reverse: false });
    assert_eq!(walk.globs, vec!["*"]);
    assert!(walk.start_oids.is_empty());
    assert_eq!(walk.max_count, Some(5));
    assert_eq!(walk.since, Some(1));
    assert_eq!(walk.until, Some(9));
}

#[test]
fn named_options_seed_prefixed_globs_and_start_commits() {
    let opts = WalkOptions {
        max_count: None,
        since: None,
        until: None,
        all: false,
        branches: Some(None),
        tags: Some(Some("v1.*".to_string())),
        remotes: None,
        start_oids: vec![sha('a'), sha('a'), sha('b')],
    };
    let walk = get_commit_walk(opts);
    assert_eq!(walk.globs, vec!["heads/*", "tags/v1.*"]);
    assert_eq!(walk.start_oids, vec![sha('a'), sha('b')]);
}

#[test]
fn timestamps_convert_with_their_offset_within_range() {
    let d = to_datetime(1_700_000_000, 90).unwrap();
    assert_eq!(d.unix_timestamp(), 1_700_000_000);
    assert_eq!(d.offset_seconds, 5_400);
    assert!(to_datetime(i64::MAX, 0).is_none());
    assert!(to_datetime(253_402_300_799, 0).is_some());
    assert!(to_datetime(253_402_300_800, 0).is_none());
    assert!(to_datetime(-377_705_116_800, 0).is_some());
    assert!(to_datetime(-377_705_116_801, 0).is_none());
    assert!(to_datetime(0, 1_560).is_none());
    assert!(to_datetime(0, 1_559).is_some());
}

#[test]
fn iso_datetime_wins_over_the_other_interpretations() {
    let now = 1_700_000_000;
    assert_eq!(parse_time_input("2021-01-02T03:04:05Z", now), Some(1_609_556_645));
    // a plain date is taken at midnight UTC
    assert_eq!(parse_time_input("2021-01-02", now), Some(1_609_545_600));
    // a duration counts back from the given instant
    assert_eq!(parse_time_input("1hour", now), Some(now - 3_600));
    assert_eq!(parse_time_input("1year 6months", now), Some(now - 31_557_600 - 6 * 2_630_016));
    assert_eq!(parse_time_input("not a date", now), None);
}

#[test]
fn oversized_durations_are_rejected_not_parsed() {
    let now = 1_700_000_000;
    // the largest seconds count with a nanosecond carry on top: handing
    // this to the duration parser would abort the process
    assert_eq!(parse_time_input("18446744073709551615s 1000000000ns", now), None);
    // the same magnitude without the carry, and beyond-range years
    assert_eq!(parse_time_input("18446744073709551615s", now), None);
    assert_eq!(parse_time_input("999999999999999years", now), None);
    // numbers may span whitespace: these digits read as one saturated
    // count, so the magnitude bound must catch them too
    assert_eq!(
        parse_time_input("1 8 4 4 6 7 4 4 0 7 3 7 0 9 5 5 1 6 1 5s 1000000000ns", now),
        None
    );
    // ordinary durations still pass the magnitude bound
    assert_eq!(parse_time_input("1 0s", now), Some(now - 10));
    assert_eq!(parse_time_input("1000000years", now), Some(now - 1_000_000 * 31_557_600));
}
