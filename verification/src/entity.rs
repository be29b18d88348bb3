//! The entity model: a semantic element of a source file (the file itself, a
//! class, a method, ...) identified by the full root-to-leaf sequence of
//! `(name, kind)` pairs. The root of every path is the synthetic *file*
//! entity; exactly the root has kind `file`.

use vstd::prelude::*;

verus! {

/// Kind of the synthetic root entity of every source file.
pub open spec fn file_kind() -> Seq<char> {
    "file"@
}

/// A semantic entity, stored as its full path from the file root (position
/// 0) down to the entity itself (the last position). `names[i]` and
/// `kinds[i]` together form the path segment at depth `i`.
#[derive(Debug)]
pub struct Entity {
    pub names: Vec<String>,
    pub kinds: Vec<String>,
}

impl Entity {
    /// The root-to-leaf identity path: the `(name, kind)` pair of every
    /// segment, as character sequences.
    pub open spec fn path(self) -> Seq<(Seq<char>, Seq<char>)> {
        Seq::new(self.names@.len(), |i: int| (self.names@[i]@, self.kinds@[i]@))
    }

    /// Structural invariant: the two columns have equal, non-zero length,
    /// and a segment has kind `file` exactly at the root.
    pub open spec fn wf(self) -> bool {
        &&& self.names@.len() == self.kinds@.len()
        &&& self.names@.len() >= 1
        &&& forall|i: int|
            0 <= i < self.kinds@.len() ==> ((#[trigger] self.kinds@[i])@ == file_kind() <==> i
                == 0)
    }

    /// A new root entity for a source file. The caller passes the kind
    /// explicitly, but it must be the distinguished `file` kind.
    pub fn new_root(name: String, kind: String) -> (e: Entity)
        requires
            kind@ == file_kind(),
        ensures
            e.wf(),
            e.path() =~= seq![(name@, kind@)],
    {
        let mut names: Vec<String> = Vec::new();
        let mut kinds: Vec<String> = Vec::new();
        names.push(name);
        kinds.push(kind);
        Entity { names, kinds }
    }

    /// A new child entity below `parent`. Children are never files, so the
    /// invariant that only the root has kind `file` is preserved.
    pub fn new(parent: &Entity, name: String, kind: String) -> (e: Entity)
        requires
            parent.wf(),
            kind@ != file_kind(),
        ensures
            e.wf(),
            e.path() =~= parent.path().push((name@, kind@)),
    {
        let mut names = clone_strings(&parent.names);
        let mut kinds = clone_strings(&parent.kinds);
        names.push(name);
        kinds.push(kind);
        Entity { names, kinds }
    }

    /// Number of segments on the path (the file root counts).
    pub fn depth(&self) -> (n: usize)
        requires
            self.wf(),
        ensures
            n == self.path().len(),
            n >= 1,
    {
        self.names.len()
    }

    /// The identity path as a vector of `(name, kind)` pairs, root first.
    pub fn to_vec(&self) -> (r: Vec<(String, String)>)
        requires
            self.wf(),
        ensures
            r@.len() == self.path().len(),
            forall|i: int|
                0 <= i < r@.len() ==> ((#[trigger] r@[i]).0@, r@[i].1@) == self.path()[i],
    {
        let mut r: Vec<(String, String)> = Vec::new();
        let n = self.names.len();
        for i in 0..n
            invariant
                self.wf(),
                n == self.names@.len(),
                r@.len() == i,
                forall|j: int|
                    0 <= j < i ==> ((#[trigger] r@[j]).0@, r@[j].1@) == (
                    self.names@[j]@,
                    self.kinds@[j]@,
                    ),
            decreases n - i,
        {
            r.push((self.names[i].clone(), self.kinds[i].clone()));
        }
        r
    }

    /// Whether two entities share the same identity, that is, the same
    /// root-to-leaf path of `(name, kind)` pairs.
    pub fn same_identity(&self, other: &Entity) -> (r: bool)
        requires
            self.wf(),
            other.wf(),
        ensures
            r == (self.path() == other.path()),
    {
        if self.names.len() != other.names.len() {
            proof {
                assert(self.path().len() != other.path().len());
            }
            return false;
        }
        let n = self.names.len();
        for i in 0..n
            invariant
                n == self.names@.len(),
                n == self.kinds@.len(),
                n == other.names@.len(),
                n == other.kinds@.len(),
                forall|j: int| 0 <= j < i ==> self.path()[j] == #[trigger] other.path()[j],
            decreases n - i,
        {
            let name_eq = self.names[i].eq(&other.names[i]);
            let kind_eq = self.kinds[i].eq(&other.kinds[i]);
            if !name_eq || !kind_eq {
                proof {
                    assert(self.path()[i as int] != other.path()[i as int]);
                }
                return false;
            }
        }
        proof {
            assert(self.path() =~= other.path());
        }
        true
    }
}

impl Clone for Entity {
    fn clone(&self) -> (r: Self)
        ensures
            r.names@ == self.names@,
            r.kinds@ == self.kinds@,
            r.path() == self.path(),
            r.wf() == self.wf(),
    {
        let r = Entity { names: clone_strings(&self.names), kinds: clone_strings(&self.kinds) };
        proof {
            assert(r.path() =~= self.path());
        }
        r
    }
}

/// Whether two string slices hold the same characters.
pub fn str_eq(a: &str, b: &str) -> (r: bool)
    ensures
        r == (a@ == b@),
{
    let n = a.unicode_len();
    if n != b.unicode_len() {
        return false;
    }
    for i in 0..n
        invariant
            n == a@.len(),
            n == b@.len(),
            forall|j: int| 0 <= j < i ==> a@[j] == b@[j],
        decreases n - i,
    {
        if a.get_char(i) != b.get_char(i) {
            return false;
        }
    }
    proof {
        assert(a@ =~= b@);
    }
    true
}

/// Copies one string; the copy equals the original.
pub fn clone_string(s: &String) -> (r: String)
    ensures
        r == *s,
        r@ == s@,
{
    s.clone()
}

/// Copies a vector of strings; the copy has the same view.
pub fn clone_strings(v: &Vec<String>) -> (r: Vec<String>)
    ensures
        r@ == v@,
{
    let r = v.clone();
    proof {
        assert(forall|i: int| 0 <= i < v@.len() ==> v@[i] == r@[i]) by {
            assert(forall|i: int|
                0 <= i < v@.len() ==> cloned::<String>(v@[i], #[trigger] r@[i]));
        }
        assert(r@ =~= v@);
    }
    r
}

} // verus!
