//! Entity extraction from one parsed source blob. The syntax-tree query
//! yields raw *pre-tags* — node id, ancestor node ids, captured name, kind
//! and row range. This module turns them into located entities under a
//! synthetic file root: pre-tags are stably sorted outermost-first, then
//! each is linked to the nearest ancestor already extracted (or to the file
//! root), building the root-to-leaf identity paths.

use vstd::prelude::*;

use crate::attrib::EntityPath;
use crate::entity::Entity;
use crate::interval::Interval;
use crate::ir::LocEntity;

verus! {

/// One raw query match: the captured entity before linking. Rows are
/// 0-based, as the parser reports them.
#[derive(Debug)]
pub struct PreTag {
    /// Id of the captured syntax node.
    pub id: usize,
    /// Node ids on the path from the node's parent up to the root.
    pub ancestor_ids: Vec<usize>,
    /// Text of the `name` capture.
    pub name: String,
    /// Kind taken from the `tag.<kind>` capture name.
    pub kind: String,
    pub start_row: usize,
    pub end_row: usize,
}

impl PreTag {
    /// Rows must leave room for the 1-based convention.
    pub open spec fn wf(self) -> bool {
        self.start_row < usize::MAX && self.end_row < usize::MAX
    }

    /// Number of ancestors: the sort key (outermost first).
    pub open spec fn spec_depth(self) -> int {
        self.ancestor_ids@.len() as int
    }
}

/// Converts a 0-based row range into the 1-based inclusive interval the
/// rest of the pipeline uses.
pub open spec fn spec_to_interval(start_row: usize, end_row: usize) -> Interval {
    Interval((start_row + 1) as usize, (end_row + 1) as usize)
}

/// See [`spec_to_interval`].
pub fn to_interval(start_row: usize, end_row: usize) -> (r: Interval)
    requires
        start_row < usize::MAX,
        end_row < usize::MAX,
    ensures
        r == spec_to_interval(start_row, end_row),
{
    Interval(start_row + 1, end_row + 1)
}

/// The index before which `x` is placed by a stable insertion: the first
/// position whose element is strictly deeper.
pub open spec fn spec_first_deeper(s: Seq<PreTag>, depth: int) -> int
    decreases s.len(),
{
    if s.len() == 0 {
        0
    } else if s.first().spec_depth() > depth {
        0
    } else {
        1 + spec_first_deeper(s.drop_first(), depth)
    }
}

/// The insertion position is within bounds.
pub proof fn lemma_first_deeper_bounds(s: Seq<PreTag>, depth: int)
    ensures
        0 <= spec_first_deeper(s, depth) <= s.len(),
    decreases s.len(),
{
    if s.len() > 0 && !(s.first().spec_depth() > depth) {
        lemma_first_deeper_bounds(s.drop_first(), depth);
    }
}

/// One step of the stable sort: `x` inserted before the first strictly
/// deeper element.
pub open spec fn spec_stable_insert(s: Seq<PreTag>, x: PreTag) -> Seq<PreTag> {
    s.insert(spec_first_deeper(s, x.spec_depth()), x)
}

/// The stable sort of the first `k` pre-tags, in input order: each element
/// is inserted behind every element at most as deep, so elements of equal
/// depth keep their relative order.
pub open spec fn spec_sort_prefix(s: Seq<PreTag>, k: int) -> Seq<PreTag>
    decreases k,
{
    if k <= 0 {
        Seq::empty()
    } else {
        spec_stable_insert(spec_sort_prefix(s, k - 1), s[k - 1])
    }
}

/// The fully sorted sequence.
pub open spec fn spec_stable_sort(s: Seq<PreTag>) -> Seq<PreTag> {
    spec_sort_prefix(s, s.len() as int)
}

/// The path recorded for node `id`, if one is: entries later in the list
/// shadow earlier ones with the same id.
pub open spec fn spec_assoc_find(m: Seq<(usize, EntityPath)>, id: usize) -> Option<EntityPath>
    decreases m.len(),
{
    if m.len() == 0 {
        Option::None
    } else if m.last().0 == id {
        Option::Some(m.last().1)
    } else {
        spec_assoc_find(m.drop_last(), id)
    }
}

/// The path of the first ancestor id that has one recorded.
pub open spec fn spec_first_anc(anc: Seq<usize>, m: Seq<(usize, EntityPath)>) -> Option<EntityPath>
    decreases anc.len(),
{
    if anc.len() == 0 {
        Option::None
    } else {
        match spec_assoc_find(m, anc.first()) {
            Option::Some(p) => Option::Some(p),
            Option::None => spec_first_anc(anc.drop_first(), m),
        }
    }
}

/// The linking fold over the first `k` sorted pre-tags: produces the
/// located identities in order and the node-id map the later tags link
/// through. Each tag's parent is the nearest extracted ancestor, or the
/// file root when none of its ancestors was captured.
pub open spec fn spec_link(sorted: Seq<PreTag>, file_path: EntityPath, k: int) -> (
    Seq<(EntityPath, Interval)>,
    Seq<(usize, EntityPath)>,
)
    decreases k,
{
    if k <= 0 {
        (Seq::empty(), Seq::empty())
    } else {
        let prev = spec_link(sorted, file_path, k - 1);
        let t = sorted[k - 1];
        let parent_path = match spec_first_anc(t.ancestor_ids@, prev.1) {
            Option::Some(p) => p,
            Option::None => file_path,
        };
        let path = parent_path.push((t.name@, t.kind@));
        (
            prev.0.push((path, spec_to_interval(t.start_row, t.end_row))),
            prev.1.push((t.id, path)),
        )
    }
}

/// The linking fold produces one located identity and one map entry per
/// processed tag.
pub proof fn lemma_spec_link_len(sorted: Seq<PreTag>, file_path: EntityPath, k: int)
    requires
        k >= 0,
    ensures
        spec_link(sorted, file_path, k).0.len() == k,
        spec_link(sorted, file_path, k).1.len() == k,
    decreases k,
{
    if k > 0 {
        lemma_spec_link_len(sorted, file_path, k - 1);
    }
}

/// The id-to-path map an extraction list stands for.
pub open spec fn assoc_model(assoc: Seq<(usize, Entity)>) -> Seq<(usize, EntityPath)> {
    Seq::new(assoc.len(), |i: int| (assoc[i].0, assoc[i].1.path()))
}

/// Finds the first ancestor id with an extracted entity; returns the index
/// of that entity's latest entry.
fn find_parent(assoc: &Vec<(usize, Entity)>, anc: &Vec<usize>) -> (r: Option<usize>)
    ensures
        match r {
            Some(ix) => ix < assoc@.len() && spec_first_anc(anc@, assoc_model(assoc@))
                == Option::Some(assoc_model(assoc@)[ix as int].1),
            None => spec_first_anc(anc@, assoc_model(assoc@)) is None,
        },
{
    let ghost m = assoc_model(assoc@);
    let n = anc.len();
    proof {
        assert(anc@.skip(0) =~= anc@);
    }
    for a in 0..n
        invariant
            n == anc@.len(),
            m == assoc_model(assoc@),
            spec_first_anc(anc@, m) == spec_first_anc(anc@.skip(a as int), m),
        decreases n - a,
    {
        proof {
            assert(anc@.skip(a as int).first() == anc@[a as int]);
            assert(anc@.skip(a as int).drop_first() =~= anc@.skip(a + 1));
        }
        let id = anc[a];
        match assoc_lookup(assoc, id) {
            Some(ix) => {
                proof {
                    assert(m[ix as int].0 == id);
                    assert forall|j: int| ix < j < m.len() implies (#[trigger] m[j]).0 != id by {
                        assert(assoc@[j].0 != id);
                    }
                    lemma_assoc_find_at(m, id, ix as int);
                }
                return Some(ix);
            },
            None => {
                proof {
                    assert forall|j: int| 0 <= j < m.len() implies (#[trigger] m[j]).0 != id by {
                        assert(assoc@[j].0 != id);
                    }
                    lemma_assoc_find_none(m, id);
                }
            },
        }
    }
    proof {
        assert(anc@.skip(n as int) =~= Seq::<usize>::empty());
    }
    None
}

/// The index of the latest entry for `id`, scanning from the end.
fn assoc_lookup(assoc: &Vec<(usize, Entity)>, id: usize) -> (r: Option<usize>)
    ensures
        match r {
            Some(ix) => ix < assoc@.len() && assoc@[ix as int].0 == id && (forall|j: int|
                ix < j < assoc@.len() ==> (#[trigger] assoc@[j]).0 != id),
            None => forall|j: int| 0 <= j < assoc@.len() ==> (#[trigger] assoc@[j]).0 != id,
        },
{
    let mut i = assoc.len();
    while i > 0
        invariant
            i <= assoc@.len(),
            forall|j: int| i <= j < assoc@.len() ==> (#[trigger] assoc@[j]).0 != id,
        decreases i,
    {
        i = i - 1;
        if assoc[i].0 == id {
            return Some(i);
        }
    }
    None
}

/// A latest-match lookup result translates into [`spec_assoc_find`] over
/// the modelled map.
proof fn lemma_assoc_find_at(m: Seq<(usize, EntityPath)>, id: usize, ix: int)
    requires
        0 <= ix < m.len(),
        m[ix].0 == id,
        forall|j: int| ix < j < m.len() ==> (#[trigger] m[j]).0 != id,
    ensures
        spec_assoc_find(m, id) == Option::Some(m[ix].1),
    decreases m.len(),
{
    if ix == m.len() - 1 {
    } else {
        assert(m.last().0 != id);
        lemma_assoc_find_at(m.drop_last(), id, ix);
    }
}

/// A miss translates likewise.
proof fn lemma_assoc_find_none(m: Seq<(usize, EntityPath)>, id: usize)
    requires
        forall|j: int| 0 <= j < m.len() ==> (#[trigger] m[j]).0 != id,
    ensures
        spec_assoc_find(m, id) is None,
    decreases m.len(),
{
    if m.len() > 0 {
        lemma_assoc_find_none(m.drop_last(), id);
    }
}

/// Elements before the insertion position are at most as deep as the
/// inserted element; elements from it on are strictly deeper.
pub proof fn lemma_first_deeper_split(s: Seq<PreTag>, depth: int, i: int)
    requires
        0 <= i < s.len(),
    ensures
        i < spec_first_deeper(s, depth) ==> s[i].spec_depth() <= depth,
        i == spec_first_deeper(s, depth) ==> s[i].spec_depth() > depth,
    decreases s.len(),
{
    if s.len() > 0 && !(s.first().spec_depth() > depth) {
        lemma_first_deeper_bounds(s.drop_first(), depth);
        if i > 0 {
            lemma_first_deeper_split(s.drop_first(), depth, i - 1);
            assert(s.drop_first()[i - 1] == s[i]);
        }
        assert(spec_first_deeper(s, depth) == 1 + spec_first_deeper(s.drop_first(), depth));
    }
}

/// The sorted prefix is ordered by depth, outermost first: the extraction
/// sees enclosing entities before the entities nested in them.
pub proof fn lemma_sort_prefix_sorted(s: Seq<PreTag>, k: int, i: int, j: int)
    requires
        0 <= k <= s.len(),
        0 <= i <= j < spec_sort_prefix(s, k).len(),
    ensures
        spec_sort_prefix(s, k)[i].spec_depth() <= spec_sort_prefix(s, k)[j].spec_depth(),
    decreases k,
{
    if k > 0 {
        let prev = spec_sort_prefix(s, k - 1);
        let x = s[k - 1];
        let pos = spec_first_deeper(prev, x.spec_depth());
        lemma_first_deeper_bounds(prev, x.spec_depth());
        lemma_sort_prefix_len(s, k - 1);
        let cur = spec_sort_prefix(s, k);
        let oi = if i < pos {
            i
        } else if i == pos {
            i
        } else {
            i - 1
        };
        let oj = if j < pos {
            j
        } else if j == pos {
            j
        } else {
            j - 1
        };
        if i == pos && j == pos {
        } else if i == pos {
            // x sits before a strictly deeper or equal element of prev
            assert(cur[j] == prev[j - 1]);
            if j - 1 >= pos {
                lemma_first_deeper_split(prev, x.spec_depth(), pos);
                lemma_sort_prefix_sorted(s, k - 1, pos, j - 1);
            }
        } else if j == pos {
            assert(cur[i] == prev[i]);
            lemma_first_deeper_split(prev, x.spec_depth(), i);
        } else {
            assert(cur[i] == prev[oi]);
            assert(cur[j] == prev[oj]);
            lemma_sort_prefix_sorted(s, k - 1, oi, oj);
        }
    }
}

/// Every element of the sorted prefix is one of the first `k` input
/// elements.
pub proof fn lemma_sort_prefix_membership(s: Seq<PreTag>, k: int, i: int)
    requires
        0 <= k <= s.len(),
        0 <= i < spec_sort_prefix(s, k).len(),
    ensures
        exists|j: int| 0 <= j < k && #[trigger] s[j] == spec_sort_prefix(s, k)[i],
    decreases k,
{
    if k > 0 {
        let prev = spec_sort_prefix(s, k - 1);
        let x = s[k - 1];
        let pos = spec_first_deeper(prev, x.spec_depth());
        lemma_first_deeper_bounds(prev, x.spec_depth());
        if i == pos {
            assert(spec_sort_prefix(s, k)[i] == x);
            assert(s[k - 1] == spec_sort_prefix(s, k)[i]);
        } else if i < pos {
            assert(spec_sort_prefix(s, k)[i] == prev[i]);
            lemma_sort_prefix_membership(s, k - 1, i);
        } else {
            assert(spec_sort_prefix(s, k)[i] == prev[i - 1]);
            lemma_sort_prefix_membership(s, k - 1, i - 1);
        }
    }
}

/// The sorted prefix has as many elements as were processed.
pub proof fn lemma_sort_prefix_len(s: Seq<PreTag>, k: int)
    requires
        0 <= k <= s.len(),
    ensures
        spec_sort_prefix(s, k).len() == k,
    decreases k,
{
    if k > 0 {
        lemma_sort_prefix_len(s, k - 1);
        lemma_first_deeper_bounds(spec_sort_prefix(s, k - 1), s[k - 1].spec_depth());
    }
}

/// The position a stable insertion picks: the first index holding a
/// strictly deeper element.
fn find_first_deeper(out: &Vec<PreTag>, depth: usize) -> (pos: usize)
    ensures
        pos == spec_first_deeper(out@, depth as int),
        pos <= out@.len(),
{
    let n = out.len();
    let mut i: usize = 0;
    proof {
        assert(out@.skip(0) =~= out@);
    }
    while i < n
        invariant
            i <= n,
            n == out@.len(),
            spec_first_deeper(out@, depth as int) == i + spec_first_deeper(
                out@.skip(i as int),
                depth as int,
            ),
        decreases n - i,
    {
        proof {
            assert(out@.skip(i as int).first() == out@[i as int]);
            assert(out@.skip(i as int).drop_first() =~= out@.skip(i + 1));
        }
        if out[i].ancestor_ids.len() > depth {
            proof {
                assert(spec_first_deeper(out@.skip(i as int), depth as int) == 0);
            }
            return i;
        }
        i = i + 1;
    }
    proof {
        assert(out@.skip(n as int) =~= Seq::<PreTag>::empty());
    }
    n
}

/// Stably sorts pre-tags by ancestor count, outermost first; matches of
/// equal depth keep the order the query produced them in.
pub fn sort_pre_tags(tags: Vec<PreTag>) -> (r: Vec<PreTag>)
    ensures
        r@ == spec_stable_sort(tags@),
        r@.len() == tags@.len(),
{
    let ghost orig = tags@;
    let mut rest = tags;
    let mut out: Vec<PreTag> = Vec::new();
    let n = rest.len();
    proof {
        assert(rest@ =~= orig.subrange(0, n as int));
    }
    for k in 0..n
        invariant
            n == orig.len(),
            rest@ =~= orig.subrange(k as int, n as int),
            out@ == spec_sort_prefix(orig, k as int),
        decreases n - k,
    {
        let x = rest.remove(0);
        proof {
            assert(orig.subrange(k as int, n as int)[0] == orig[k as int]);
            assert(x == orig[k as int]);
            assert(rest@ =~= orig.subrange(k + 1, n as int));
            lemma_first_deeper_bounds(out@, x.spec_depth());
        }
        let pos = find_first_deeper(&out, x.ancestor_ids.len());
        out.insert(pos, x);
        proof {
            assert(out@ == spec_sort_prefix(orig, k + 1));
        }
    }
    proof {
        assert(out@ == spec_stable_sort(orig));
        lemma_sort_prefix_len(orig, orig.len() as int);
    }
    out
}

/// Builds the located entities of one blob: sorts the pre-tags outermost
/// first, links each to its nearest extracted ancestor (or to the file
/// root), and appends the file root itself last, as the extraction order
/// demands. The result follows [`spec_link`] over the stably sorted tags.
pub fn to_loc_entities(file_tag: LocEntity, tags: Vec<PreTag>) -> (r: Vec<LocEntity>)
    requires
        file_tag.entity.wf(),
        forall|i: int| 0 <= i < tags@.len() ==> (#[trigger] tags@[i]).wf(),
        forall|i: int|
            0 <= i < tags@.len() ==> (#[trigger] tags@[i]).kind@ != crate::entity::file_kind(),
    ensures
        r@.len() == tags@.len() + 1,
        forall|i: int|
            0 <= i < tags@.len() ==> {
                let linked = spec_link(
                    spec_stable_sort(tags@),
                    file_tag.entity.path(),
                    tags@.len() as int,
                ).0;
                &&& (#[trigger] r@[i]).entity.path() == linked[i].0
                &&& r@[i].loc == linked[i].1
                &&& r@[i].entity.wf()
            },
        r@.last().entity.path() == file_tag.entity.path(),
        r@.last().loc == file_tag.loc,
        r@.last().entity.wf(),
{
    let ghost fpath = file_tag.entity.path();
    let sorted = sort_pre_tags(tags);
    let ghost sv = sorted@;
    proof {
        assert forall|i: int| 0 <= i < sv.len() implies (#[trigger] sv[i]).wf() && sv[i].kind@
            != crate::entity::file_kind() by {
            lemma_sort_prefix_membership(tags@, tags@.len() as int, i);
        }
    }
    let mut assoc: Vec<(usize, Entity)> = Vec::new();
    let mut out: Vec<LocEntity> = Vec::new();
    let n = sorted.len();
    for k in 0..n
        invariant
            n == sv.len(),
            sorted@ == sv,
            file_tag.entity.wf(),
            file_tag.entity.path() == fpath,
            forall|i: int|
                0 <= i < sv.len() ==> (#[trigger] sv[i]).wf() && sv[i].kind@
                    != crate::entity::file_kind(),
            out@.len() == k,
            assoc@.len() == spec_link(sv, fpath, k as int).1.len(),
            forall|i: int|
                0 <= i < k ==> {
                    let linked = spec_link(sv, fpath, k as int);
                    &&& (#[trigger] out@[i]).entity.path() == linked.0[i].0
                    &&& out@[i].loc == linked.0[i].1
                    &&& out@[i].entity.wf()
                },
            forall|i: int|
                0 <= i < assoc@.len() ==> {
                    let m = spec_link(sv, fpath, k as int).1;
                    &&& (#[trigger] assoc@[i]).0 == m[i].0
                    &&& assoc@[i].1.path() == m[i].1
                    &&& assoc@[i].1.wf()
                },
        decreases n - k,
    {
        let ghost prev = spec_link(sv, fpath, k as int);
        let ghost anc_seq = sv[k as int].ancestor_ids@;
        proof {
            lemma_spec_link_len(sv, fpath, k as int);
            assert(assoc_model(assoc@) =~= prev.1);
        }
        // find the nearest extracted ancestor
        let parent_ix = find_parent(&assoc, &sorted[k].ancestor_ids);
        proof {
            match parent_ix {
                Option::Some(ix) => {
                    assert(spec_first_anc(anc_seq, prev.1) == Option::Some(
                        prev.1[ix as int].1,
                    ));
                },
                Option::None => {
                    assert(spec_first_anc(anc_seq, prev.1) is None);
                },
            }
        }
        let name = crate::entity::clone_string(&sorted[k].name);
        let kind = crate::entity::clone_string(&sorted[k].kind);
        let entity = match parent_ix {
            Some(ix) => Entity::new(&assoc[ix].1, name, kind),
            None => Entity::new(&file_tag.entity, name, kind),
        };
        let loc = to_interval(sorted[k].start_row, sorted[k].end_row);
        let ghost out_before = out@;
        let ghost assoc_before = assoc@;
        let entity2 = entity.clone();
        out.push(LocEntity::new(entity, loc));
        assoc.push((sorted[k].id, entity2));
        proof {
            lemma_spec_link_len(sv, fpath, k + 1);
            let now = spec_link(sv, fpath, k + 1);
            let t = sv[k as int];
            let spec_parent = match spec_first_anc(t.ancestor_ids@, prev.1) {
                Option::Some(p) => p,
                Option::None => fpath,
            };
            let spec_path = spec_parent.push((t.name@, t.kind@));
            assert(now.0 == prev.0.push((spec_path, spec_to_interval(t.start_row, t.end_row))));
            assert(now.1 == prev.1.push((t.id, spec_path)));
            assert(out@.last().entity.path() == spec_path);
            assert(out@.last().loc == spec_to_interval(t.start_row, t.end_row));
            assert forall|i: int| 0 <= i < k + 1 implies {
                &&& (#[trigger] out@[i]).entity.path() == now.0[i].0
                &&& out@[i].loc == now.0[i].1
                &&& out@[i].entity.wf()
            } by {
                if i < k {
                    assert(out@[i] == out_before[i]);
                    assert(now.0[i] == prev.0[i]);
                } else {
                    assert(out@[i] == out@.last());
                    assert(now.0[i] == (spec_path, spec_to_interval(t.start_row, t.end_row)));
                }
            }
            assert forall|i: int| 0 <= i < assoc@.len() implies {
                &&& (#[trigger] assoc@[i]).0 == now.1[i].0
                &&& assoc@[i].1.path() == now.1[i].1
                &&& assoc@[i].1.wf()
            } by {
                if i < prev.1.len() {
                    assert(assoc@[i] == assoc_before[i]);
                    assert(now.1[i] == prev.1[i]);
                } else {
                    assert(assoc@[i] == assoc@.last());
                    assert(now.1[i] == (t.id, spec_path));
                }
            }
        }
    }
    out.push(file_tag);
    out
}

/// The entity kind a query capture name declares: the text after the
/// `tag.` prefix, or nothing for any other capture.
pub open spec fn spec_tag_kind(s: Seq<char>) -> Option<Seq<char>> {
    if s.len() >= 4 && s.subrange(0, 4) == "tag."@ {
        Option::Some(s.skip(4))
    } else {
        Option::None
    }
}

/// See [`spec_tag_kind`].
pub fn tag_kind_of(name: &str) -> (r: Option<String>)
    ensures
        match r {
            Some(k) => spec_tag_kind(name@) == Option::Some(k@),
            None => spec_tag_kind(name@) is None,
        },
{
    proof {
        reveal_strlit("tag.");
    }
    let len = name.unicode_len();
    if len < 4 {
        return None;
    }
    if name.get_char(0) != 't' || name.get_char(1) != 'a' || name.get_char(2) != 'g'
        || name.get_char(3) != '.' {
        proof {
            assert(name@.subrange(0, 4) != "tag."@) by {
                if name@.subrange(0, 4) == "tag."@ {
                    assert(name@.subrange(0, 4)[0] == name@[0]);
                    assert(name@.subrange(0, 4)[1] == name@[1]);
                    assert(name@.subrange(0, 4)[2] == name@[2]);
                    assert(name@.subrange(0, 4)[3] == name@[3]);
                }
            }
        }
        return None;
    }
    proof {
        assert(name@.subrange(0, 4) =~= "tag."@);
    }
    let rest = name.substring_char(4, len);
    proof {
        assert(rest@ =~= name@.skip(4));
    }
    Some(rest.to_owned())
}

/// Classifies every capture name of the query: the kinds declared by
/// `tag.<kind>` captures, position by position.
pub fn capture_kinds(names: &Vec<String>) -> (r: Vec<Option<String>>)
    ensures
        r@.len() == names@.len(),
        forall|i: int|
            0 <= i < r@.len() ==> match #[trigger] r@[i] {
                Some(k) => spec_tag_kind(names@[i]@) == Option::Some(k@),
                None => spec_tag_kind(names@[i]@) is None,
            },
{
    let mut r: Vec<Option<String>> = Vec::new();
    let n = names.len();
    for i in 0..n
        invariant
            n == names@.len(),
            r@.len() == i,
            forall|j: int|
                0 <= j < i ==> match #[trigger] r@[j] {
                    Some(k) => spec_tag_kind(names@[j]@) == Option::Some(k@),
                    None => spec_tag_kind(names@[j]@) is None,
                },
        decreases n - i,
    {
        r.push(tag_kind_of(names[i].as_str()));
    }
    r
}

} // verus!
