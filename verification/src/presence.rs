//! The presence sweep: for one selected reference tip, every entity parsed
//! from the snapshot's matching blobs becomes a presence fact for the
//! commit the tip points at.

use vstd::prelude::*;

use crate::ir::Commit;
use crate::ir::LocEntity;
use crate::ir::Presence;

verus! {

/// The parsed entities of one blob of the snapshot.
#[derive(Debug)]
pub struct ParsedFile {
    pub filename: String,
    pub entities: Vec<LocEntity>,
}

/// Number of entities in the first `f` files: the index at which file
/// `f`'s presence rows start.
pub open spec fn spec_offset(files: Seq<ParsedFile>, f: int) -> int
    decreases f,
{
    if f <= 0 {
        0
    } else {
        spec_offset(files, f - 1) + files[f - 1].entities@.len()
    }
}

/// Offsets accumulate: an earlier file's rows all lie before a later
/// file's base index.
pub proof fn lemma_offset_mono(files: Seq<ParsedFile>, g: int, f: int)
    requires
        0 <= g < f <= files.len(),
    ensures
        spec_offset(files, g) >= 0,
        spec_offset(files, g) + files[g].entities@.len() <= spec_offset(files, f),
    decreases f,
{
    lemma_offset_nonneg(files, g);
    if f == g + 1 {
    } else {
        lemma_offset_mono(files, g, f - 1);
    }
}

/// Offsets are never negative.
pub proof fn lemma_offset_nonneg(files: Seq<ParsedFile>, f: int)
    ensures
        spec_offset(files, f) >= 0,
    decreases f,
{
    if f > 0 {
        lemma_offset_nonneg(files, f - 1);
    }
}

/// One presence row carries one located entity and the sweep's commit.
pub open spec fn presence_row_ok(p: Presence, le: LocEntity, c: Commit) -> bool {
    &&& p.loc_entity.entity.path() == le.entity.path()
    &&& p.loc_entity.loc == le.loc
    &&& p.commit.sha1@ == c.sha1@
    &&& p.commit.is_merge == c.is_merge
    &&& p.commit.author_date == c.author_date
    &&& p.commit.commit_date == c.commit_date
}

/// Emits one presence row per located entity of the snapshot, file by
/// file, in parse order, all for the given commit.
pub fn get_presences(files: &Vec<ParsedFile>, commit: &Commit) -> (r: Vec<Presence>)
    ensures
        r@.len() == spec_offset(files@, files@.len() as int),
        forall|f: int, j: int|
            0 <= f < files@.len() && 0 <= j < files@[f].entities@.len() ==> presence_row_ok(
                r@[spec_offset(files@, f) + j],
                #[trigger] files@[f].entities@[j],
                *commit,
            ),
{
    let mut r: Vec<Presence> = Vec::new();
    let n = files.len();
    for f in 0..n
        invariant
            n == files@.len(),
            r@.len() == spec_offset(files@, f as int),
            forall|g: int, j: int|
                0 <= g < f && 0 <= j < files@[g].entities@.len() ==> presence_row_ok(
                    r@[spec_offset(files@, g) + j],
                    #[trigger] files@[g].entities@[j],
                    *commit,
                ),
        decreases n - f,
    {
        let ghost base = r@.len() as int;
        let m = files[f].entities.len();
        for j in 0..m
            invariant
                n == files@.len(),
                0 <= f < n,
                m == files@[f as int].entities@.len(),
                base == spec_offset(files@, f as int),
                base >= 0,
                r@.len() == base + j,
                forall|g: int, jj: int|
                    0 <= g < f && 0 <= jj < files@[g].entities@.len() ==> presence_row_ok(
                        r@[spec_offset(files@, g) + jj],
                        #[trigger] files@[g].entities@[jj],
                        *commit,
                    ),
                forall|jj: int|
                    0 <= jj < j ==> presence_row_ok(
                        r@[base + jj],
                        #[trigger] files@[f as int].entities@[jj],
                        *commit,
                    ),
            decreases m - j,
        {
            let ghost r_before = r@;
            let le = files[f].entities[j].clone();
            proof {
                assert(le.entity.path() =~= files@[f as int].entities@[j as int].entity.path());
            }
            r.push(Presence::new(le, commit.clone()));
            proof {
                assert(presence_row_ok(r@[base + j], files@[f as int].entities@[j as int], *commit));
                assert forall|g: int, jj: int|
                    0 <= g < f && 0 <= jj < files@[g].entities@.len() implies presence_row_ok(
                    r@[spec_offset(files@, g) + jj],
                    #[trigger] files@[g].entities@[jj],
                    *commit,
                ) by {
                    lemma_offset_mono(files@, g, f as int);
                    assert(spec_offset(files@, g) + jj < base);
                    assert(r@[spec_offset(files@, g) + jj] == r_before[spec_offset(files@, g)
                        + jj]);
                }
                assert forall|jj: int| 0 <= jj < j + 1 implies presence_row_ok(
                    r@[base + jj],
                    #[trigger] files@[f as int].entities@[jj],
                    *commit,
                ) by {
                    if jj < j {
                        assert(r@[base + jj] == r_before[base + jj]);
                    }
                }
            }
        }
        proof {
            assert(spec_offset(files@, f + 1) == spec_offset(files@, f as int) + files@[
                f as int
            ].entities@.len());
            assert forall|g: int, j: int|
                0 <= g < f + 1 && 0 <= j < files@[g].entities@.len() implies presence_row_ok(
                r@[spec_offset(files@, g) + j],
                #[trigger] files@[g].entities@[j],
                *commit,
            ) by {
                if g == f {
                    assert(spec_offset(files@, g) == base);
                }
            }
        }
    }
    r
}

} // verus!
