//! Matching of externally reported dependencies onto extracted entities.
//! A dependency endpoint names a file, a line and a kind; it is resolved
//! to the entity row whose span covers that line, refined by name and by
//! nesting depth when several candidates remain.

use vstd::prelude::*;

use crate::db::DepVirtualTable;
use crate::keys::DepExtra;
use crate::keys::DepKey;
use crate::keys::DepKeyV;

verus! {

/// What kind of program element a dependency endpoint is.
#[derive(Clone, Copy, Debug, PartialEq, Eq, Structural)]
pub enum EndpointKind {
    File,
    Function,
    Type,
    Var,
}

/// The kind of a reported dependency.
#[derive(Clone, Copy, Debug, PartialEq, Eq, Structural)]
pub enum DepKind {
    Annotation,
    Call,
    Cast,
    Contain,
    Create,
    Extend,
    Implement,
    Import,
    Parameter,
    Return,
    Throw,
    Use,
}

/// The stored name of a dependency kind.
pub open spec fn spec_depkind_str(k: DepKind) -> Seq<char> {
    match k {
        DepKind::Annotation => "Annotation"@,
        DepKind::Call => "Call"@,
        DepKind::Cast => "Cast"@,
        DepKind::Contain => "Contain"@,
        DepKind::Create => "Create"@,
        DepKind::Extend => "Extend"@,
        DepKind::Implement => "Implement"@,
        DepKind::Import => "Import"@,
        DepKind::Parameter => "Parameter"@,
        DepKind::Return => "Return"@,
        DepKind::Throw => "Throw"@,
        DepKind::Use => "Use"@,
    }
}

impl DepKind {
    /// The stored name of the kind.
    pub fn to_string(&self) -> (r: String)
        ensures
            r@ == spec_depkind_str(*self),
    {
        let r = match self {
            DepKind::Annotation => "Annotation",
            DepKind::Call => "Call",
            DepKind::Cast => "Cast",
            DepKind::Contain => "Contain",
            DepKind::Create => "Create",
            DepKind::Extend => "Extend",
            DepKind::Implement => "Implement",
            DepKind::Import => "Import",
            DepKind::Parameter => "Parameter",
            DepKind::Return => "Return",
            DepKind::Throw => "Throw",
            DepKind::Use => "Use",
        };
        r.to_owned()
    }
}

/// One endpoint of a reported dependency.
#[derive(Debug)]
pub struct Endpoint {
    /// Dot-separated qualified name.
    pub full_name: String,
    pub kind: EndpointKind,
    /// Path of the file the endpoint lies in.
    pub file: String,
    /// 1-based line; 0 means unknown.
    pub line: usize,
}

/// The index of the last `.` in a name, if any.
pub open spec fn spec_last_dot(s: Seq<char>) -> Option<int>
    decreases s.len(),
{
    if s.len() == 0 {
        Option::None
    } else if s.last() == '.' {
        Option::Some(s.len() - 1)
    } else {
        spec_last_dot(s.drop_last())
    }
}

/// The unqualified name: the text after the last dot, or the whole name
/// when it has no dot.
pub open spec fn spec_ep_name(s: Seq<char>) -> Seq<char> {
    match spec_last_dot(s) {
        Option::Some(i) => s.skip(i + 1),
        Option::None => s,
    }
}

impl Endpoint {
    /// The unqualified name of the endpoint.
    pub fn name(&self) -> (r: String)
        ensures
            r@ == spec_ep_name(self.full_name@),
    {
        let s = self.full_name.as_str();
        let n = s.unicode_len();
        let mut i = n;
        proof {
            assert(self.full_name@.take(n as int) =~= self.full_name@);
        }
        while i > 0
            invariant
                i <= n,
                n == self.full_name@.len(),
                s@ == self.full_name@,
                spec_last_dot(self.full_name@) == spec_last_dot(self.full_name@.take(i as int)),
            decreases i,
        {
            i = i - 1;
            proof {
                assert(self.full_name@.take(i + 1).drop_last() =~= self.full_name@.take(i as int));
                assert(self.full_name@.take(i + 1).last() == self.full_name@[i as int]);
            }
            if s.get_char(i) == '.' {
                let r = s.substring_char(i + 1, n);
                proof {
                    assert(spec_last_dot(self.full_name@) == Option::Some(i as int));
                    assert(r@ =~= self.full_name@.skip(i + 1));
                }
                return r.to_owned();
            }
        }
        proof {
            assert(self.full_name@.take(0) =~= Seq::<char>::empty());
            assert(spec_last_dot(self.full_name@) is None);
        }
        crate::entity::clone_string(&self.full_name)
    }
}

/// One reported dependency.
#[derive(Debug)]
pub struct Dep {
    pub src: Endpoint,
    pub tgt: Endpoint,
    pub kind: DepKind,
}

/// One presence row as loaded back for matching: the entity's id, leaf
/// name, owning file, nesting depth below the file root, and row span.
#[derive(Debug)]
pub struct Loc {
    pub entity_id: usize,
    pub name: String,
    pub filename: String,
    pub level: usize,
    pub start_row: usize,
    pub end_row: usize,
}

/// How a lookup for an endpoint can end.
#[derive(Debug)]
pub enum MatchRes {
    Success(usize),
    TooMany(Vec<usize>),
    NotFound,
    FileNotFound,
}

/// The locations of one file, grouped for matching.
#[derive(Debug)]
pub struct FileLocs {
    pub filename: String,
    pub locs: Vec<Loc>,
}

/// The first group with the given file name.
pub open spec fn spec_find_file(files: Seq<FileLocs>, name: Seq<char>) -> Option<int>
    decreases files.len(),
{
    if files.len() == 0 {
        Option::None
    } else if files.first().filename@ == name {
        Option::Some(0)
    } else {
        match spec_find_file(files.drop_first(), name) {
            Option::Some(i) => Option::Some(i + 1),
            Option::None => Option::None,
        }
    }
}

/// Whether location `i` passes the primary filter for an endpoint: file
/// endpoints match the file root, anything else matches by line span.
pub open spec fn spec_primary_pred(l: Loc, kind: EndpointKind, line: int) -> bool {
    if kind == EndpointKind::File {
        l.level == 0
    } else {
        l.start_row <= line <= l.end_row
    }
}

/// Indices of the first `k` locations passing the primary filter.
pub open spec fn spec_primary_sel(locs: Seq<Loc>, kind: EndpointKind, line: int, k: int) -> Seq<int>
    decreases k,
{
    if k <= 0 {
        Seq::empty()
    } else {
        let prev = spec_primary_sel(locs, kind, line, k - 1);
        if spec_primary_pred(locs[k - 1], kind, line) {
            prev.push(k - 1)
        } else {
            prev
        }
    }
}

/// The selected indices whose location bears the given leaf name.
pub open spec fn spec_name_sel(locs: Seq<Loc>, sel: Seq<int>, name: Seq<char>, k: int) -> Seq<int>
    decreases k,
{
    if k <= 0 {
        Seq::empty()
    } else {
        let prev = spec_name_sel(locs, sel, name, k - 1);
        if locs[sel[k - 1]].name@ == name {
            prev.push(sel[k - 1])
        } else {
            prev
        }
    }
}

/// The greatest nesting depth among the first `k` selected locations.
pub open spec fn spec_max_level(locs: Seq<Loc>, sel: Seq<int>, k: int) -> int
    decreases k,
{
    if k <= 1 {
        locs[sel[0]].level as int
    } else {
        let prev = spec_max_level(locs, sel, k - 1);
        if locs[sel[k - 1]].level > prev {
            locs[sel[k - 1]].level as int
        } else {
            prev
        }
    }
}

/// The selected indices at exactly the given depth.
pub open spec fn spec_level_sel(locs: Seq<Loc>, sel: Seq<int>, lvl: int, k: int) -> Seq<int>
    decreases k,
{
    if k <= 0 {
        Seq::empty()
    } else {
        let prev = spec_level_sel(locs, sel, lvl, k - 1);
        if locs[sel[k - 1]].level == lvl {
            prev.push(sel[k - 1])
        } else {
            prev
        }
    }
}

/// The entity id an endpoint resolves to within one file's locations: the
/// unique primary match; among several, the unique one sharing the
/// endpoint's leaf name; failing that, the unique deepest one; otherwise
/// nothing. An unknown line on a non-file endpoint resolves to nothing.
pub open spec fn spec_match_in_file(
    locs: Seq<Loc>,
    kind: EndpointKind,
    line: int,
    name: Seq<char>,
) -> Option<usize> {
    if kind != EndpointKind::File && line == 0 {
        Option::None
    } else {
        let sel = spec_primary_sel(locs, kind, line, locs.len() as int);
        if sel.len() == 0 {
            Option::None
        } else if sel.len() == 1 {
            Option::Some(locs[sel[0]].entity_id)
        } else {
            let byname = spec_name_sel(locs, sel, name, sel.len() as int);
            if byname.len() == 1 {
                Option::Some(locs[byname[0]].entity_id)
            } else {
                let lvl = spec_max_level(locs, sel, sel.len() as int);
                let atmax = spec_level_sel(locs, sel, lvl, sel.len() as int);
                if atmax.len() == 1 {
                    Option::Some(locs[atmax[0]].entity_id)
                } else {
                    Option::None
                }
            }
        }
    }
}

/// The entity id an endpoint resolves to: nothing when its file was never
/// swept, else the resolution within that file's locations.
pub open spec fn spec_match_entity_id(files: Seq<FileLocs>, ep: Endpoint) -> Option<usize> {
    match spec_find_file(files, ep.file@) {
        Option::None => Option::None,
        Option::Some(f) => spec_match_in_file(
            files[f].locs@,
            ep.kind,
            ep.line as int,
            spec_ep_name(ep.full_name@),
        ),
    }
}

/// Resolves an endpoint to an entity id. See [`spec_match_entity_id`].
pub fn match_entity_id(files: &Vec<FileLocs>, ep: &Endpoint) -> (r: Option<usize>)
    ensures
        r == spec_match_entity_id(files@, *ep),
{
    let file_ix = find_file(files, ep.file.as_str());
    let f = match file_ix {
        Some(f) => f,
        None => {
            return None;
        },
    };
    let locs = &files[f].locs;
    if !(matches!(ep.kind, EndpointKind::File)) && ep.line == 0 {
        return None;
    }
    // primary filter
    let n = locs.len();
    let mut sel: Vec<usize> = Vec::new();
    proof {
        assert(sel_views(sel@) =~= spec_primary_sel(locs@, ep.kind, ep.line as int, 0));
    }
    for i in 0..n
        invariant
            n == locs@.len(),
            sel_views(sel@) =~= spec_primary_sel(locs@, ep.kind, ep.line as int, i as int),
            forall|j: int| 0 <= j < sel@.len() ==> (#[trigger] sel@[j]) < n,
        decreases n - i,
    {
        let l = &locs[i];
        let pass = if matches!(ep.kind, EndpointKind::File) {
            l.level == 0
        } else {
            l.start_row <= ep.line && ep.line <= l.end_row
        };
        if pass {
            sel.push(i);
        }
        proof {
            assert(sel_views(sel@) =~= spec_primary_sel(locs@, ep.kind, ep.line as int, i + 1));
        }
    }
    let ghost ssel = spec_primary_sel(locs@, ep.kind, ep.line as int, locs@.len() as int);
    if sel.len() == 0 {
        return None;
    }
    if sel.len() == 1 {
        return Some(locs[sel[0]].entity_id);
    }
    // refine by leaf name
    let name = ep.name();
    let m = sel.len();
    let mut byname: Vec<usize> = Vec::new();
    proof {
        assert(sel_views(byname@) =~= spec_name_sel(locs@, ssel, name@, 0));
    }
    for i in 0..m
        invariant
            m == sel@.len(),
            n == locs@.len(),
            name@ == spec_ep_name(ep.full_name@),
            sel_views(sel@) == ssel,
            forall|j: int| 0 <= j < sel@.len() ==> (#[trigger] sel@[j]) < n,
            sel_views(byname@) =~= spec_name_sel(locs@, ssel, name@, i as int),
            forall|j: int| 0 <= j < byname@.len() ==> (#[trigger] byname@[j]) < n,
        decreases m - i,
    {
        if crate::entity::str_eq(locs[sel[i]].name.as_str(), name.as_str()) {
            byname.push(sel[i]);
        }
        proof {
            assert(sel_views(byname@) =~= spec_name_sel(locs@, ssel, name@, i + 1));
        }
    }
    if byname.len() == 1 {
        return Some(locs[byname[0]].entity_id);
    }
    // refine by greatest depth
    let mut max_level: usize = locs[sel[0]].level;
    for i in 1..m
        invariant
            m == sel@.len(),
            m >= 2,
            n == locs@.len(),
            sel_views(sel@) == ssel,
            forall|j: int| 0 <= j < sel@.len() ==> (#[trigger] sel@[j]) < n,
            max_level == spec_max_level(locs@, ssel, i as int),
        decreases m - i,
    {
        if locs[sel[i]].level > max_level {
            max_level = locs[sel[i]].level;
        }
        proof {
            assert(max_level == spec_max_level(locs@, ssel, i + 1));
        }
    }
    let mut atmax: Vec<usize> = Vec::new();
    proof {
        assert(sel_views(atmax@) =~= spec_level_sel(locs@, ssel, max_level as int, 0));
    }
    for i in 0..m
        invariant
            m == sel@.len(),
            n == locs@.len(),
            sel_views(sel@) == ssel,
            forall|j: int| 0 <= j < sel@.len() ==> (#[trigger] sel@[j]) < n,
            sel_views(atmax@) =~= spec_level_sel(locs@, ssel, max_level as int, i as int),
            forall|j: int| 0 <= j < atmax@.len() ==> (#[trigger] atmax@[j]) < n,
        decreases m - i,
    {
        if locs[sel[i]].level == max_level {
            atmax.push(sel[i]);
        }
        proof {
            assert(sel_views(atmax@) =~= spec_level_sel(locs@, ssel, max_level as int, i + 1));
        }
    }
    if atmax.len() == 1 {
        return Some(locs[atmax[0]].entity_id);
    }
    None
}

/// A selection of indices, as mathematical integers.
pub open spec fn sel_views(s: Seq<usize>) -> Seq<int> {
    Seq::new(s.len(), |i: int| s[i] as int)
}

/// The first group with the given file name, as an index.
pub fn find_file(files: &Vec<FileLocs>, name: &str) -> (r: Option<usize>)
    ensures
        match r {
            Some(f) => f < files@.len() && spec_find_file(files@, name@) == Option::Some(f as int),
            None => spec_find_file(files@, name@) is None,
        },
{
    let n = files.len();
    proof {
        assert(files@.skip(0) =~= files@);
    }
    for i in 0..n
        invariant
            n == files@.len(),
            forall|j: int| 0 <= j < i ==> (#[trigger] files@[j]).filename@ != name@,
            spec_find_file_from(files@, name@, i as int) == spec_find_file(files@, name@),
        decreases n - i,
    {
        proof {
            assert(files@.skip(i as int).first() == files@[i as int]);
            assert(files@.skip(i as int).drop_first() =~= files@.skip(i + 1));
        }
        if crate::entity::str_eq(files[i].filename.as_str(), name) {
            return Some(i);
        }
    }
    proof {
        assert(files@.skip(n as int) =~= Seq::<FileLocs>::empty());
    }
    None
}

/// [`spec_find_file`] restarted at index `i`, shifted back to absolute
/// indices.
pub open spec fn spec_find_file_from(files: Seq<FileLocs>, name: Seq<char>, i: int) -> Option<int> {
    match spec_find_file(files.skip(i), name) {
        Option::Some(j) => Option::Some(i + j),
        Option::None => Option::None,
    }
}


/// The grouping model: the first group with the given name.
pub open spec fn spec_find_group(g: Seq<(Seq<char>, Seq<Loc>)>, name: Seq<char>) -> Option<int>
    decreases g.len(),
{
    if g.len() == 0 {
        Option::None
    } else if g.first().0 == name {
        Option::Some(0)
    } else {
        match spec_find_group(g.drop_first(), name) {
            Option::Some(i) => Option::Some(i + 1),
            Option::None => Option::None,
        }
    }
}

/// The mathematical content of a grouped location list.
pub open spec fn group_model(files: Seq<FileLocs>) -> Seq<(Seq<char>, Seq<Loc>)> {
    Seq::new(files.len(), |i: int| (files[i].filename@, files[i].locs@))
}

/// Finding a file is the same on the grouped value and on its model.
pub proof fn lemma_find_group_model(files: Seq<FileLocs>, name: Seq<char>)
    ensures
        spec_find_group(group_model(files), name) == spec_find_file(files, name),
    decreases files.len(),
{
    if files.len() > 0 {
        assert(group_model(files).drop_first() =~= group_model(files.drop_first()));
        lemma_find_group_model(files.drop_first(), name);
    }
}

/// The grouping fold over the first `k` locations: each location joins the
/// group of its file, new files opening a new group at the end.
pub open spec fn spec_group(locs: Seq<Loc>, k: int) -> Seq<(Seq<char>, Seq<Loc>)>
    decreases k,
{
    if k <= 0 {
        Seq::empty()
    } else {
        let prev = spec_group(locs, k - 1);
        let l = locs[k - 1];
        match spec_find_group(prev, l.filename@) {
            Option::Some(f) => prev.update(f, (prev[f].0, prev[f].1.push(l))),
            Option::None => prev.push((l.filename@, seq![l])),
        }
    }
}

/// A found group index is in bounds.
pub proof fn lemma_find_group_bounds(g: Seq<(Seq<char>, Seq<Loc>)>, name: Seq<char>)
    ensures
        match spec_find_group(g, name) {
            Option::Some(i) => 0 <= i < g.len(),
            Option::None => true,
        },
    decreases g.len(),
{
    if g.len() > 0 && g.first().0 != name {
        lemma_find_group_bounds(g.drop_first(), name);
    }
}

/// Groups the loaded locations by their file, in first-occurrence order,
/// keeping each file's locations in input order.
pub fn group_locs(locs: Vec<Loc>) -> (r: Vec<FileLocs>)
    ensures
        group_model(r@) =~= spec_group(locs@, locs@.len() as int),
{
    let ghost orig = locs@;
    let mut rest = locs;
    let mut out: Vec<FileLocs> = Vec::new();
    let n = rest.len();
    proof {
        assert(rest@ =~= orig.subrange(0, n as int));
        assert(group_model(out@) =~= spec_group(orig, 0));
    }
    for k in 0..n
        invariant
            n == orig.len(),
            rest@ =~= orig.subrange(k as int, n as int),
            group_model(out@) =~= spec_group(orig, k as int),
        decreases n - k,
    {
        let x = rest.remove(0);
        proof {
            assert(orig.subrange(k as int, n as int)[0] == orig[k as int]);
            assert(x == orig[k as int]);
            assert(rest@ =~= orig.subrange(k + 1, n as int));
            lemma_find_group_model(out@, x.filename@);
            lemma_find_group_bounds(group_model(out@), x.filename@);
        }
        let found = find_file(&out, x.filename.as_str());
        match found {
            Some(f) => {
                let ghost before = out@;
                out[f].locs.push(x);
                proof {
                    assert(group_model(out@) =~= group_model(before).update(
                        f as int,
                        (before[f as int].filename@, before[f as int].locs@.push(orig[k as int])),
                    ));
                    assert(group_model(out@) =~= spec_group(orig, k + 1));
                }
            },
            None => {
                let ghost before = out@;
                let fname = crate::entity::clone_string(&x.filename);
                let mut v: Vec<Loc> = Vec::new();
                v.push(x);
                out.push(FileLocs { filename: fname, locs: v });
                proof {
                    assert(group_model(out@) =~= group_model(before).push(
                        (orig[k as int].filename@, seq![orig[k as int]]),
                    ));
                    assert(group_model(out@) =~= spec_group(orig, k + 1));
                }
            },
        }
    }
    out
}

/// The dependency rows after the first `k` reported dependencies: each
/// dependency whose two endpoints resolve becomes one row, keyed by the
/// commit, the two entity ids and the kind; an already present key keeps
/// its first row.
pub open spec fn spec_deps_fold(
    keys: Seq<DepKeyV>,
    extras: Seq<DepExtra>,
    files: Seq<FileLocs>,
    deps: Seq<Dep>,
    commit_id: usize,
    k: int,
) -> (Seq<DepKeyV>, Seq<DepExtra>)
    decreases k,
{
    if k <= 0 {
        (keys, extras)
    } else {
        let prev = spec_deps_fold(keys, extras, files, deps, commit_id, k - 1);
        let d = deps[k - 1];
        match (spec_match_entity_id(files, d.src), spec_match_entity_id(files, d.tgt)) {
            (Option::Some(s), Option::Some(t)) => {
                let kv = DepKeyV {
                    commit_id,
                    src_id: s,
                    tgt_id: t,
                    kind: spec_depkind_str(d.kind),
                };
                if prev.0.contains(kv) {
                    prev
                } else {
                    (prev.0.push(kv), prev.1.push(DepExtra { line: d.src.line }))
                }
            },
            _ => prev,
        }
    }
}

/// The key column of [`spec_deps_fold`].
pub open spec fn spec_deps_keys(
    keys: Seq<DepKeyV>,
    extras: Seq<DepExtra>,
    files: Seq<FileLocs>,
    deps: Seq<Dep>,
    commit_id: usize,
    k: int,
) -> Seq<DepKeyV> {
    spec_deps_fold(keys, extras, files, deps, commit_id, k).0
}

/// The payload column of [`spec_deps_fold`].
pub open spec fn spec_deps_extras(
    keys: Seq<DepKeyV>,
    extras: Seq<DepExtra>,
    files: Seq<FileLocs>,
    deps: Seq<Dep>,
    commit_id: usize,
    k: int,
) -> Seq<DepExtra> {
    spec_deps_fold(keys, extras, files, deps, commit_id, k).1
}

/// Records every resolvable dependency of one commit in the dependency
/// table. See [`spec_deps_fold`] for the rows that result.
pub fn insert_deps(
    vt: &mut DepVirtualTable,
    files: &Vec<FileLocs>,
    deps: &Vec<Dep>,
    commit_id: usize,
)
    requires
        old(vt).wf(),
    ensures
        final(vt).wf(),
        final(vt).key_views() =~= spec_deps_keys(
            old(vt).key_views(),
            old(vt).extra_seq(),
            files@,
            deps@,
            commit_id,
            deps@.len() as int,
        ),
        final(vt).extra_seq() =~= spec_deps_extras(
            old(vt).key_views(),
            old(vt).extra_seq(),
            files@,
            deps@,
            commit_id,
            deps@.len() as int,
        ),
{
    let n = deps.len();
    for k in 0..n
        invariant
            n == deps@.len(),
            vt.wf(),
            vt.key_views() =~= spec_deps_keys(
                old(vt).key_views(),
                old(vt).extra_seq(),
                files@,
                deps@,
                commit_id,
                k as int,
            ),
            vt.extra_seq() =~= spec_deps_extras(
                old(vt).key_views(),
                old(vt).extra_seq(),
                files@,
                deps@,
                commit_id,
                k as int,
            ),
        decreases n - k,
    {
        let dep = &deps[k];
        let src = match_entity_id(files, &dep.src);
        let tgt = match_entity_id(files, &dep.tgt);
        match (src, tgt) {
            (Some(src_id), Some(tgt_id)) => {
                let key = DepKey::new(commit_id, src_id, tgt_id, dep.kind.to_string());
                let extra = DepExtra::new(dep.src.line);
                vt.insert(key, extra);
            },
            _ => {},
        }
    }
}

} // verus!
