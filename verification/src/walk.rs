//! The commit walk configuration and its filter: which reference globs and
//! starting commits seed the walk, in which order commits are visited, and
//! — for every commit the underlying walker yields — whether it is emitted,
//! skipped, or ends the walk.

use vstd::prelude::*;
use vstd::string::StringExecFns;

use crate::ir::spec_is_sha1;

verus! {

/// Where a reference glob is seeded from; decides the prefix put before the
/// pattern.
#[derive(Clone, Copy, Debug, PartialEq, Eq, Structural)]
pub enum RefGlobKind {
    All,
    Branches,
    Tags,
    Remotes,
}

/// The sort order requested from the underlying revision walker. Flags
/// combine as in the walker itself; all false means its default order.
#[derive(Clone, Copy, Debug, PartialEq, Eq, Structural)]
pub struct SortMode {
    pub topological: bool,
    pub time: bool,
    pub reverse: bool,
}

impl SortMode {
    /// The walker's default order.
    pub fn none() -> (r: SortMode)
        ensures
            r == (SortMode { topological: false, time: false, reverse: false }),
    {
        SortMode { topological: false, time: false, reverse: false }
    }

    /// Reverse chronological order, the order the pipeline walks in.
    pub fn time_order() -> (r: SortMode)
        ensures
            r == (SortMode { topological: false, time: true, reverse: false }),
    {
        SortMode { topological: false, time: true, reverse: false }
    }
}

/// What the filter decides for one commit the walker yielded.
#[derive(Clone, Copy, Debug, PartialEq, Eq, Structural)]
pub enum WalkAction {
    /// Hand the commit to the pipeline.
    Emit,
    /// Drop this commit and continue with the next.
    Skip,
    /// End the walk; no further commit is emitted.
    Stop,
}

/// The filter rule, evaluated in this order: a commit before `since` ends
/// the walk (commits arrive in time-descending order, so no later commit
/// could pass); a filled emission budget ends the walk; a commit after
/// `until` is skipped; everything else is emitted. Both bounds are
/// inclusive.
pub open spec fn spec_decide(
    since: Option<i64>,
    until: Option<i64>,
    max_count: Option<usize>,
    emitted: int,
    commit_time: i64,
) -> WalkAction {
    if since matches Some(s) && commit_time < s {
        WalkAction::Stop
    } else if max_count matches Some(n) && emitted >= n {
        WalkAction::Stop
    } else if until matches Some(u) && commit_time > u {
        WalkAction::Skip
    } else {
        WalkAction::Emit
    }
}

/// The full glob pattern seeded for `kind`: the pattern itself for `All`,
/// otherwise the pattern behind the namespace prefix of the kind.
pub open spec fn spec_glob_full(kind: RefGlobKind, glob: Seq<char>) -> Seq<char> {
    match kind {
        RefGlobKind::All => glob,
        RefGlobKind::Branches => "heads/"@ + glob,
        RefGlobKind::Tags => "tags/"@ + glob,
        RefGlobKind::Remotes => "remotes/"@ + glob,
    }
}

/// The pattern a glob option stands for; a missing pattern means every
/// reference of the namespace.
pub open spec fn spec_glob_or_star(glob: Option<Seq<char>>) -> Seq<char> {
    match glob {
        Some(g) => g,
        None => "*"@,
    }
}

/// Configuration of one commit walk.
#[derive(Debug)]
pub struct CommitWalk {
    pub sort_mode: SortMode,
    pub max_count: Option<usize>,
    pub since: Option<i64>,
    pub until: Option<i64>,
    pub globs: Vec<String>,
    pub start_oids: Vec<String>,
}

impl CommitWalk {
    /// Starting commit hashes are well-formed and deduplicated.
    pub open spec fn wf(self) -> bool {
        &&& forall|i: int|
            0 <= i < self.start_oids@.len() ==> spec_is_sha1((#[trigger] self.start_oids@[i])@)
        &&& forall|i: int, j: int|
            0 <= i < self.start_oids@.len() && 0 <= j < self.start_oids@.len() && i != j
                ==> (#[trigger] self.start_oids@[i])@ != (#[trigger] self.start_oids@[j])@
    }

    /// An empty walk: no bounds, no seeds, default order.
    pub fn new() -> (w: CommitWalk)
        ensures
            w.wf(),
            w.sort_mode == (SortMode { topological: false, time: false, reverse: false }),
            w.max_count is None,
            w.since is None,
            w.until is None,
            w.globs@.len() == 0,
            w.start_oids@.len() == 0,
    {
        CommitWalk {
            sort_mode: SortMode::none(),
            max_count: None,
            since: None,
            until: None,
            globs: Vec::new(),
            start_oids: Vec::new(),
        }
    }

    pub fn set_sort(&mut self, sort_mode: SortMode)
        ensures
            *final(self) == (CommitWalk { sort_mode, ..*old(self) }),
    {
        self.sort_mode = sort_mode;
    }

    pub fn set_max_count(&mut self, max_count: usize)
        ensures
            *final(self) == (CommitWalk { max_count: Some(max_count), ..*old(self) }),
    {
        self.max_count = Some(max_count);
    }

    pub fn set_since(&mut self, since: i64)
        ensures
            *final(self) == (CommitWalk { since: Some(since), ..*old(self) }),
    {
        self.since = Some(since);
    }

    pub fn set_until(&mut self, until: i64)
        ensures
            *final(self) == (CommitWalk { until: Some(until), ..*old(self) }),
    {
        self.until = Some(until);
    }

    /// Adds a reference glob. A missing pattern defaults to `*`; the
    /// pattern is put behind the prefix of its namespace.
    pub fn push_glob(&mut self, kind: RefGlobKind, glob: Option<String>)
        ensures
            final(self).sort_mode == old(self).sort_mode,
            final(self).max_count == old(self).max_count,
            final(self).since == old(self).since,
            final(self).until == old(self).until,
            final(self).start_oids == old(self).start_oids,
            final(self).globs@.len() == old(self).globs@.len() + 1,
            forall|i: int|
                0 <= i < old(self).globs@.len() ==> final(self).globs@[i] == old(self).globs@[i],
            final(self).globs@.last()@ == spec_glob_full(
                kind,
                spec_glob_or_star(
                    match glob {
                        Some(g) => Some(g@),
                        None => None,
                    },
                ),
            ),
    {
        let g: String = match glob {
            Some(g) => g,
            None => "*".to_owned(),
        };
        let full: String = match kind {
            RefGlobKind::All => g,
            RefGlobKind::Branches => "heads/".to_owned().concat(g.as_str()),
            RefGlobKind::Tags => "tags/".to_owned().concat(g.as_str()),
            RefGlobKind::Remotes => "remotes/".to_owned().concat(g.as_str()),
        };
        self.globs.push(full);
    }

    /// Adds a starting commit. A hash already present is not added again.
    pub fn push_start_oid(&mut self, oid: String)
        requires
            old(self).wf(),
            spec_is_sha1(oid@),
        ensures
            final(self).wf(),
            final(self).sort_mode == old(self).sort_mode,
            final(self).max_count == old(self).max_count,
            final(self).since == old(self).since,
            final(self).until == old(self).until,
            final(self).globs == old(self).globs,
            (exists|i: int|
                0 <= i < old(self).start_oids@.len() && (#[trigger] old(self).start_oids@[i])@
                    == oid@) ==> final(self).start_oids == old(self).start_oids,
            !(exists|i: int|
                0 <= i < old(self).start_oids@.len() && (#[trigger] old(self).start_oids@[i])@
                    == oid@) ==> final(self).start_oids@ == old(self).start_oids@.push(oid),
    {
        let n = self.start_oids.len();
        for i in 0..n
            invariant
                old(self).wf(),
                n == self.start_oids@.len(),
                *self == *old(self),
                forall|j: int| 0 <= j < i ==> (#[trigger] self.start_oids@[j])@ != oid@,
            decreases n - i,
        {
            if self.start_oids[i].eq(&oid) {
                return ;
            }
        }
        self.start_oids.push(oid);
    }

    /// The filter decision for a commit with the given commit time, after
    /// `emitted` commits have already been emitted.
    pub fn decide(&self, emitted: usize, commit_time: i64) -> (a: WalkAction)
        ensures
            a == spec_decide(self.since, self.until, self.max_count, emitted as int, commit_time),
    {
        if let Some(s) = self.since {
            if commit_time < s {
                return WalkAction::Stop;
            }
        }
        if let Some(n) = self.max_count {
            if emitted >= n {
                return WalkAction::Stop;
            }
        }
        if let Some(u) = self.until {
            if commit_time > u {
                return WalkAction::Skip;
            }
        }
        WalkAction::Emit
    }
}

/// The stateful filter the walk loop drives: it counts emitted commits and
/// applies [`spec_decide`] to each commit time handed in.
#[derive(Debug)]
pub struct WalkFilter {
    pub walk: CommitWalk,
    pub count: usize,
}

impl WalkFilter {
    pub fn new(walk: CommitWalk) -> (f: WalkFilter)
        ensures
            f.walk == walk,
            f.count == 0,
    {
        WalkFilter { walk, count: 0 }
    }

    /// Decides for the next commit the walker yielded, counting emissions.
    /// The walk configuration itself never changes.
    pub fn step(&mut self, commit_time: i64) -> (a: WalkAction)
        requires
            old(self).count < usize::MAX,
        ensures
            a == spec_decide(
                old(self).walk.since,
                old(self).walk.until,
                old(self).walk.max_count,
                old(self).count as int,
                commit_time,
            ),
            final(self).walk == old(self).walk,
            a == WalkAction::Emit ==> final(self).count == old(self).count + 1,
            a != WalkAction::Emit ==> final(self).count == old(self).count,
    {
        let a = self.walk.decide(self.count, commit_time);
        if let WalkAction::Emit = a {
            self.count = self.count + 1;
        }
        a
    }
}

/// The parsed commit-selection options, after dates have been turned into
/// epoch seconds and reference names into commit hashes.
#[derive(Debug)]
pub struct WalkOptions {
    pub max_count: Option<usize>,
    pub since: Option<i64>,
    pub until: Option<i64>,
    /// Seed with every reference; overrides all other seeding options.
    pub all: bool,
    /// Outer `Some` when the option was given; inner pattern optional.
    pub branches: Option<Option<String>>,
    pub tags: Option<Option<String>>,
    pub remotes: Option<Option<String>>,
    /// Tips of the references named on the command line.
    pub start_oids: Vec<String>,
}

/// The view of an optional glob option.
pub open spec fn spec_glob_opt(g: Option<Option<String>>) -> Option<Option<Seq<char>>> {
    match g {
        Some(Some(s)) => Some(Some(s@)),
        Some(None) => Some(None),
        None => None,
    }
}

/// The glob list the options stand for when not seeding everything:
/// branches, then tags, then remote-tracking branches, each prefixed.
pub open spec fn spec_option_globs(
    branches: Option<Option<Seq<char>>>,
    tags: Option<Option<Seq<char>>>,
    remotes: Option<Option<Seq<char>>>,
) -> Seq<Seq<char>> {
    let s0 = Seq::<Seq<char>>::empty();
    let s1 = match branches {
        Some(g) => s0.push(spec_glob_full(RefGlobKind::Branches, spec_glob_or_star(g))),
        None => s0,
    };
    let s2 = match tags {
        Some(g) => s1.push(spec_glob_full(RefGlobKind::Tags, spec_glob_or_star(g))),
        None => s1,
    };
    match remotes {
        Some(g) => s2.push(spec_glob_full(RefGlobKind::Remotes, spec_glob_or_star(g))),
        None => s2,
    }
}

/// First occurrences of a sequence of strings, in order.
pub open spec fn spec_dedup(s: Seq<Seq<char>>) -> Seq<Seq<char>>
    decreases s.len(),
{
    if s.len() == 0 {
        Seq::empty()
    } else {
        let d = spec_dedup(s.drop_last());
        if d.contains(s.last()) {
            d
        } else {
            d.push(s.last())
        }
    }
}

/// The views of a vector of strings.
pub open spec fn str_views(v: Seq<String>) -> Seq<Seq<char>> {
    Seq::new(v.len(), |i: int| v[i]@)
}

/// Assembles the walk the options ask for: time-descending order,
/// the three bounds as given; with `all`, one verbatim `*` glob and no
/// explicit start commits; otherwise the per-namespace globs and the
/// deduplicated start commits.
pub fn get_commit_walk(opts: WalkOptions) -> (w: CommitWalk)
    requires
        forall|i: int|
            0 <= i < opts.start_oids@.len() ==> spec_is_sha1((#[trigger] opts.start_oids@[i])@),
    ensures
        w.wf(),
        w.sort_mode == (SortMode { topological: false, time: true, reverse: false }),
        w.max_count == opts.max_count,
        w.since == opts.since,
        w.until == opts.until,
        opts.all ==> w.globs@.len() == 1 && w.globs@[0]@ == "*"@ && w.start_oids@.len() == 0,
        !opts.all ==> str_views(w.globs@) =~= spec_option_globs(
            spec_glob_opt(opts.branches),
            spec_glob_opt(opts.tags),
            spec_glob_opt(opts.remotes),
        ) && str_views(w.start_oids@) =~= spec_dedup(str_views(opts.start_oids@)),
{
    let mut walk = CommitWalk::new();
    match opts.since {
        Some(s) => walk.set_since(s),
        None => {},
    }
    match opts.until {
        Some(u) => walk.set_until(u),
        None => {},
    }
    match opts.max_count {
        Some(n) => walk.set_max_count(n),
        None => {},
    }
    walk.set_sort(SortMode::time_order());
    if opts.all {
        walk.push_glob(RefGlobKind::All, None);
        return walk;
    }
    match opts.branches {
        Some(g) => walk.push_glob(RefGlobKind::Branches, g),
        None => {},
    }
    match opts.tags {
        Some(g) => walk.push_glob(RefGlobKind::Tags, g),
        None => {},
    }
    match opts.remotes {
        Some(g) => walk.push_glob(RefGlobKind::Remotes, g),
        None => {},
    }
    proof {
        assert(str_views(walk.globs@) =~= spec_option_globs(
            spec_glob_opt(opts.branches),
            spec_glob_opt(opts.tags),
            spec_glob_opt(opts.remotes),
        ));
    }
    let ghost oid_views = str_views(opts.start_oids@);
    let n = opts.start_oids.len();
    let mut i: usize = 0;
    proof {
        assert(oid_views.take(0) =~= Seq::<Seq<char>>::empty());
        assert(str_views(walk.start_oids@) =~= spec_dedup(oid_views.take(0)));
    }
    while i < n
        invariant
            n == opts.start_oids@.len(),
            i <= n,
            oid_views == str_views(opts.start_oids@),
            forall|j: int|
                0 <= j < opts.start_oids@.len() ==> spec_is_sha1(
                    (#[trigger] opts.start_oids@[j])@,
                ),
            walk.wf(),
            str_views(walk.start_oids@) =~= spec_dedup(oid_views.take(i as int)),
            walk.sort_mode == (SortMode { topological: false, time: true, reverse: false }),
            walk.max_count == opts.max_count,
            walk.since == opts.since,
            walk.until == opts.until,
            str_views(walk.globs@) =~= spec_option_globs(
                spec_glob_opt(opts.branches),
                spec_glob_opt(opts.tags),
                spec_glob_opt(opts.remotes),
            ),
        decreases n - i,
    {
        let ghost before = walk.start_oids@;
        let oid = crate::entity::clone_string(&opts.start_oids[i]);
        walk.push_start_oid(oid);
        proof {
            assert(oid_views.take(i + 1).drop_last() =~= oid_views.take(i as int));
            assert(oid_views.take(i + 1).last() == oid_views[i as int]);
            let d = spec_dedup(oid_views.take(i as int));
            if d.contains(oid_views[i as int]) {
                let ix = choose|ix: int| 0 <= ix < d.len() && d[ix] == oid_views[i as int];
                assert(str_views(before)[ix] == oid_views[i as int]);
                assert(before[ix]@ == oid_views[i as int]);
                assert(walk.start_oids@ == before);
                assert(str_views(walk.start_oids@) =~= spec_dedup(oid_views.take(i + 1)));
            } else {
                if exists|j: int|
                    0 <= j < before.len() && (#[trigger] before[j])@ == oid_views[i as int] {
                    let j = choose|j: int|
                        0 <= j < before.len() && (#[trigger] before[j])@ == oid_views[i as int];
                    assert(str_views(before)[j] == oid_views[i as int]);
                    assert(d.contains(oid_views[i as int]));
                    assert(false);
                }
                assert(walk.start_oids@ == before.push(opts.start_oids@[i as int]));
                assert(str_views(walk.start_oids@) =~= d.push(oid_views[i as int]));
            }
        }
        i = i + 1;
    }
    proof {
        assert(oid_views.take(n as int) =~= oid_views);
    }
    walk
}

/// With an emission budget of zero the filter never emits: the walk
/// produces no commits, hence no changes and no presence rows.
pub proof fn lemma_max_count_zero_never_emits(
    since: Option<i64>,
    until: Option<i64>,
    emitted: int,
    commit_time: i64,
)
    requires
        emitted >= 0,
    ensures
        spec_decide(since, until, Some(0usize), emitted, commit_time) != WalkAction::Emit,
{
}

/// With a lower bound above the upper bound the filter never emits: every
/// commit is either before `since` (ending the walk) or after `until`
/// (skipped).
pub proof fn lemma_since_after_until_never_emits(
    since: i64,
    until: i64,
    max_count: Option<usize>,
    emitted: int,
    commit_time: i64,
)
    requires
        since > until,
    ensures
        spec_decide(Some(since), Some(until), max_count, emitted, commit_time)
            != WalkAction::Emit,
{
}

} // verus!
