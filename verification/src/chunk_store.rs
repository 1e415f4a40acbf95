use std::collections::HashMap;
use vstd::prelude::*;
use crate::point::Point3;
use crate::block_set::{block_key, key_of, lemma_block_key_injective, lemma_block_key_bounds};

verus! {

broadcast use vstd::std_specs::hash::group_hash_axioms;

/// The loaded chunks, keyed by chunk coordinates, each with a payload that
/// the host attaches (the engine objects that draw the chunk).
///
/// Payloads are found by hashing the packed coordinates; the keys are also
/// kept in insertion order, which is the order in which the loaded chunks
/// are walked (see [`ChunkStore::keys`]).
pub struct ChunkStore<T> {
    order: Vec<Point3>,
    payloads: HashMap<u128, T>,
}

/// The hash-map key of chunk `p`.
pub open spec fn store_key(p: Point3) -> u128 {
    block_key(p) as u128
}

proof fn lemma_store_key_injective(p: Point3, q: Point3)
    ensures
        store_key(p) == store_key(q) <==> p == q,
{
    lemma_block_key_injective(p, q);
    lemma_block_key_bounds(p);
    lemma_block_key_bounds(q);
}

impl<T> View for ChunkStore<T> {
    type V = Map<Point3, T>;

    closed spec fn view(&self) -> Map<Point3, T> {
        Map::new(
            |k: Point3| self.payloads@.contains_key(store_key(k)),
            |k: Point3| self.payloads@[store_key(k)],
        )
    }
}

impl<T> ChunkStore<T> {
    /// The keys in walking order.
    pub closed spec fn keys(&self) -> Seq<Point3> {
        self.order@
    }

    /// Internal consistency: the walking order lists each key once, and
    /// exactly the keys that have a payload.
    pub closed spec fn wf(&self) -> bool {
        &&& self.order@.no_duplicates()
        &&& forall|k: Point3| #[trigger] self.order@.contains(k) <==> self.payloads@.contains_key(store_key(k))
    }

    /// The walking order lists every loaded key exactly once.
    pub proof fn lemma_keys(&self)
        requires
            self.wf(),
        ensures
            self.keys().no_duplicates(),
            forall|k: Point3| #[trigger] self.keys().contains(k) <==> self@.contains_key(k),
            self.keys().len() == self@.dom().len(),
            self@.dom().finite(),
    {
        self.order@.unique_seq_to_set();
        assert(self@.dom() =~= self.order@.to_set());
    }

    /// An empty store.
    pub fn new() -> (s: ChunkStore<T>)
        ensures
            s.wf(),
            s@ == Map::<Point3, T>::empty(),
            s.keys() == Seq::<Point3>::empty(),
    {
        let s = ChunkStore { order: Vec::new(), payloads: HashMap::new() };
        assert(s@ =~= Map::<Point3, T>::empty());
        s
    }

    /// The number of loaded chunks.
    pub fn len(&self) -> (n: usize)
        requires
            self.wf(),
        ensures
            n == self.keys().len(),
            n == self@.dom().len(),
    {
        proof {
            self.lemma_keys();
        }
        self.order.len()
    }

    /// The key at position `i` of the walking order.
    pub fn key_at(&self, i: usize) -> (p: Point3)
        requires
            self.wf(),
            i < self.keys().len(),
        ensures
            p == self.keys()[i as int],
    {
        self.order[i]
    }

    /// Whether a chunk is loaded at `p`.
    pub fn contains_key(&self, p: Point3) -> (b: bool)
        requires
            self.wf(),
        ensures
            b == self@.contains_key(p),
    {
        let k = key_of(p);
        self.payloads.contains_key(&k)
    }

    /// The payload of the chunk at `p`, if loaded.
    pub fn get(&self, p: Point3) -> (r: Option<&T>)
        requires
            self.wf(),
        ensures
            match r {
                Some(v) => self@.contains_key(p) && *v == self@[p],
                None => !self@.contains_key(p),
            },
    {
        let k = key_of(p);
        self.payloads.get(&k)
    }

    /// Loads `v` at `p`, replacing and returning any payload already there.
    /// A new key goes to the end of the walking order; a replaced one keeps
    /// its place.
    pub fn insert(&mut self, p: Point3, v: T) -> (r: Option<T>)
        requires
            old(self).wf(),
        ensures
            final(self).wf(),
            final(self)@ == old(self)@.insert(p, v),
            match r {
                Some(w) => old(self)@.contains_key(p) && w == old(self)@[p],
                None => !old(self)@.contains_key(p),
            },
            old(self)@.contains_key(p) ==> final(self).keys() == old(self).keys(),
            !old(self)@.contains_key(p) ==> final(self).keys() == old(self).keys().push(p),
    {
        let k = key_of(p);
        let r = self.payloads.insert(k, v);
        if r.is_none() {
            assert(!old(self).order@.contains(p));
            self.order.push(p);
        }
        proof {
            if r.is_none() {
                let op = old(self).order@;
                assert forall|a: int, b: int|
                    0 <= a < self.order@.len() && 0 <= b < self.order@.len() && a != b implies self.order@[a]
                    != self.order@[b] by {
                    if a < op.len() {
                        assert(self.order@[a] == op[a]);
                    }
                    if b < op.len() {
                        assert(self.order@[b] == op[b]);
                    }
                    if a == op.len() && b < op.len() {
                        assert(op.contains(op[b]));
                    }
                    if b == op.len() && a < op.len() {
                        assert(op.contains(op[a]));
                    }
                }
            }
            assert forall|q: Point3| #[trigger] self.order@.contains(q) <==> self.payloads@.contains_key(store_key(q)) by {
                lemma_store_key_injective(p, q);
                if r.is_none() && self.order@.contains(q) && q != p {
                    let i = choose|i: int| 0 <= i < self.order@.len() && self.order@[i] == q;
                    assert(old(self).order@[i] == q);
                }
                if r.is_none() && old(self).order@.contains(q) {
                    let i = choose|i: int| 0 <= i < old(self).order@.len() && old(self).order@[i] == q;
                    assert(self.order@[i] == q);
                }
                if r.is_none() {
                    assert(self.order@[old(self).order@.len() as int] == p);
                }
            }
            assert forall|q: Point3| #[trigger] self@.contains_key(q) == old(self)@.insert(p, v).contains_key(q)
                && (self@.contains_key(q) ==> self@[q] == old(self)@.insert(p, v)[q]) by {
                lemma_store_key_injective(p, q);
            }
            assert(self@ =~= old(self)@.insert(p, v));
        }
        r
    }

    /// Unloads the chunk at `p`, returning its payload if it was loaded.
    /// The remaining keys keep their order.
    pub fn remove(&mut self, p: Point3) -> (r: Option<T>)
        requires
            old(self).wf(),
        ensures
            final(self).wf(),
            final(self)@ == old(self)@.remove(p),
            match r {
                Some(w) => old(self)@.contains_key(p) && w == old(self)@[p],
                None => !old(self)@.contains_key(p),
            },
            old(self)@.contains_key(p) ==> exists|i: int|
                0 <= i < old(self).keys().len() && old(self).keys()[i] == p && final(self).keys()
                    == old(self).keys().remove(i),
            !old(self)@.contains_key(p) ==> final(self).keys() == old(self).keys(),
    {
        let k = key_of(p);
        let r = self.payloads.remove(&k);
        if r.is_some() {
            let n = self.order.len();
            let mut i: usize = 0;
            assert(self.order@.contains(p));
            while i < n
                invariant
                    n == self.order@.len(),
                    self.order@ == old(self).order@,
                    i <= n,
                    self.order@.contains(p),
                    forall|j: int| 0 <= j < i ==> self.order@[j] != p,
                ensures
                    i < n && self.order@[i as int] == p,
                decreases n - i,
            {
                if self.order[i] == p {
                    break;
                }
                i = i + 1;
            }
            assert(i < n && self.order@[i as int] == p);
            self.order.remove(i);
            proof {
                let op = old(self).order@;
                assert forall|a: int, b: int|
                    0 <= a < self.order@.len() && 0 <= b < self.order@.len() && a != b implies self.order@[a]
                    != self.order@[b] by {
                    let a2 = if a < i { a } else { a + 1 };
                    let b2 = if b < i { b } else { b + 1 };
                    assert(self.order@[a] == op[a2]);
                    assert(self.order@[b] == op[b2]);
                }
                assert forall|q: Point3| #[trigger] self.order@.contains(q) <==> self.payloads@.contains_key(store_key(q)) by {
                    lemma_store_key_injective(p, q);
                    if self.order@.contains(q) {
                        let j = choose|j: int| 0 <= j < self.order@.len() && self.order@[j] == q;
                        let j2 = if j < i { j } else { j + 1 };
                        assert(op[j2] == q);
                        assert(j2 != i);
                        assert(op.contains(q));
                    }
                    if self.payloads@.contains_key(store_key(q)) {
                        assert(op.contains(q));
                        let j = choose|j: int| 0 <= j < op.len() && op[j] == q;
                        assert(j != i);
                        let j2 = if j < i { j } else { j - 1 };
                        assert(self.order@[j2] == q);
                    }
                }
                assert(self.keys() == old(self).keys().remove(i as int));
            }
        }
        proof {
            assert forall|q: Point3| #[trigger] self@.contains_key(q) == old(self)@.remove(p).contains_key(q)
                && (self@.contains_key(q) ==> self@[q] == old(self)@.remove(p)[q]) by {
                lemma_store_key_injective(p, q);
            }
            assert(self@ =~= old(self)@.remove(p));
        }
        r
    }
}

} // verus!
