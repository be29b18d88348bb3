//! Insertion-ordered deduplicating tables. A virtual table maps a natural
//! key to a dense integer id assigned at first insertion, keeps the extra
//! payload given at that first insertion, and hands its rows back in id
//! order for the final flush to the relational store.

use vstd::prelude::*;

verus! {

/// A key a virtual table can deduplicate on: it abstracts to a mathematical
/// view and can be compared for view equality in executable code.
pub trait TableKey: DeepView + Sized {
    /// Whether the two keys have the same mathematical view.
    fn key_eq(&self, other: &Self) -> (r: bool)
        ensures
            r == (self.deep_view() == other.deep_view()),
    ;
}

/// The key views after a key is inserted: unchanged when already present,
/// extended by one otherwise.
pub open spec fn spec_inserted<T>(s: Seq<T>, x: T) -> Seq<T> {
    if s.contains(x) {
        s
    } else {
        s.push(x)
    }
}

/// The id an insertion returns: the index of the key when already present,
/// the next dense id otherwise.
pub open spec fn spec_insert_id<T>(s: Seq<T>, x: T) -> int {
    if s.contains(x) {
        s.index_of(x)
    } else {
        s.len() as int
    }
}

/// Inserting a key a second time returns the same id and leaves the keys
/// unchanged.
pub proof fn lemma_insert_idempotent<T>(s: Seq<T>, x: T)
    ensures
        spec_inserted(spec_inserted(s, x), x) == spec_inserted(s, x),
        spec_insert_id(spec_inserted(s, x), x) == spec_insert_id(s, x),
{
    if !s.contains(x) {
        assert(s.push(x)[s.len() as int] == x);
        assert(s.push(x).contains(x));
        let i = s.push(x).index_of(x);
        assert(s.push(x)[i] == x);
        if i < s.len() {
            assert(s[i] == x);
            assert(false);
        }
        assert(i == s.len());
    }
}

/// An insertion-time deduplicating table. Row `i` of the two columns is the
/// row with id `i`; rows are therefore already in ascending id order.
#[derive(Debug)]
pub struct VirtualTable<K: TableKey, E> {
    pub keys: Vec<K>,
    pub extras: Vec<E>,
}

impl<K: TableKey, E> VirtualTable<K, E> {
    /// The views of all keys, in id order.
    pub open spec fn key_views(self) -> Seq<K::V> {
        Seq::new(self.keys@.len(), |i: int| self.keys@[i].deep_view())
    }

    /// The extra payloads, in id order.
    pub open spec fn extra_seq(self) -> Seq<E> {
        self.extras@
    }

    /// Structural invariant: one extra per key, and no two rows share a key
    /// view.
    pub open spec fn wf(self) -> bool {
        &&& self.keys@.len() == self.extras@.len()
        &&& forall|i: int, j: int|
            0 <= i < self.keys@.len() && 0 <= j < self.keys@.len() && i != j
                ==> self.key_views()[i] != self.key_views()[j]
    }

    /// Whether some row has the given key view.
    pub open spec fn spec_contains(self, kv: K::V) -> bool {
        self.key_views().contains(kv)
    }

    /// Creates an empty table.
    pub fn new() -> (t: VirtualTable<K, E>)
        ensures
            t.wf(),
            t.key_views() =~= Seq::<K::V>::empty(),
            t.extra_seq() =~= Seq::<E>::empty(),
    {
        VirtualTable { keys: Vec::new(), extras: Vec::new() }
    }

    /// Number of rows.
    pub fn len(&self) -> (n: usize)
        ensures
            n == self.key_views().len(),
    {
        self.keys.len()
    }

    /// The id of the row whose key view equals `key`'s, if there is one.
    pub fn get_id(&self, key: &K) -> (r: Option<usize>)
        requires
            self.wf(),
        ensures
            match r {
                Some(i) => self.spec_contains(key.deep_view()) && i < self.key_views().len()
                    && self.key_views()[i as int] == key.deep_view(),
                None => !self.spec_contains(key.deep_view()),
            },
    {
        let n = self.keys.len();
        for i in 0..n
            invariant
                n == self.keys@.len(),
                forall|j: int| 0 <= j < i ==> self.key_views()[j] != key.deep_view(),
            decreases n - i,
        {
            if self.keys[i].key_eq(key) {
                proof {
                    assert(self.key_views()[i as int] == key.deep_view());
                    assert(self.spec_contains(key.deep_view()));
                }
                return Some(i);
            }
        }
        return None;
    }

    /// Inserts a key. When the key view is new, it is appended with the
    /// given extra and receives the next dense id; when it is already
    /// present, nothing changes and the existing id is returned.
    pub fn insert(&mut self, key: K, extra: E) -> (id: usize)
        requires
            old(self).wf(),
        ensures
            final(self).wf(),
            final(self).key_views() =~= spec_inserted(
                old(self).key_views(),
                key.deep_view(),
            ),
            id == spec_insert_id(old(self).key_views(), key.deep_view()),
            id < final(self).key_views().len(),
            final(self).key_views()[id as int] == key.deep_view(),
            old(self).spec_contains(key.deep_view()) ==> *final(self) == *old(self),
            !old(self).spec_contains(key.deep_view()) ==> final(self).extra_seq() == old(
                self,
            ).extra_seq().push(extra),
    {
        let ghost old_views = self.key_views();
        let n = self.keys.len();
        for i in 0..n
            invariant
                n == self.keys@.len(),
                self.wf(),
                self.key_views() == old_views,
                self.extras@ == old(self).extras@,
                self.keys@ == old(self).keys@,
                forall|j: int| 0 <= j < i ==> self.key_views()[j] != key.deep_view(),
            decreases n - i,
        {
            if self.keys[i].key_eq(&key) {
                proof {
                    let kv = key.deep_view();
                    assert(old_views[i as int] == kv);
                    assert(old_views.contains(kv));
                    let ix = old_views.index_of(kv);
                    assert(0 <= ix < old_views.len() && old_views[ix] == kv);
                    if ix != i as int {
                        assert(old_views[ix] == old_views[i as int]);
                        assert(false);
                    }
                }
                return i;
            }
        }
        proof {
            assert(!old_views.contains(key.deep_view()));
        }
        let ghost kv = key.deep_view();
        self.keys.push(key);
        self.extras.push(extra);
        proof {
            assert(self.key_views() =~= old_views.push(kv));
            assert forall|i: int, j: int|
                0 <= i < self.keys@.len() && 0 <= j < self.keys@.len() && i
                    != j implies self.key_views()[i] != self.key_views()[j] by {
                if i < old_views.len() && j < old_views.len() {
                    assert(old_views[i] == self.key_views()[i]);
                    assert(old_views[j] == self.key_views()[j]);
                }
            }
        }
        return n;
    }

    /// The keys, in id order; row `i` has id `i`.
    pub fn key_rows(&self) -> (r: &Vec<K>)
        ensures
            r@.len() == self.key_views().len(),
            forall|i: int| 0 <= i < r@.len() ==> (#[trigger] r@[i]).deep_view()
                == self.key_views()[i],
    {
        &self.keys
    }

    /// The extra payloads, in id order; row `i` has id `i`.
    pub fn extra_rows(&self) -> (r: &Vec<E>)
        ensures
            r@ == self.extra_seq(),
    {
        &self.extras
    }
}

} // verus!
