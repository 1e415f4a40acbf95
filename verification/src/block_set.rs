use std::collections::HashSet;
use vstd::prelude::*;
use crate::point::Point3;

verus! {

broadcast use vstd::std_specs::hash::group_hash_axioms;

/// Packs a lattice point into one integer: each coordinate is shifted into
/// `[0, 2^32)` and the three are laid side by side in base `2^32`.
pub open spec fn block_key(p: Point3) -> int {
    (p.x + 0x8000_0000) * 0x1_0000_0000_0000_0000 + (p.y + 0x8000_0000) * 0x1_0000_0000
        + (p.z + 0x8000_0000)
}

/// Distinct points have distinct keys.
pub proof fn lemma_block_key_injective(p: Point3, q: Point3)
    ensures
        block_key(p) == block_key(q) <==> p == q,
{
}

/// Every key fits in a `u128`.
pub proof fn lemma_block_key_bounds(p: Point3)
    ensures
        0 <= block_key(p) <= u128::MAX,
{
}

pub(crate) fn key_of(p: Point3) -> (k: u128)
    ensures
        k == block_key(p),
{
    let x: u128 = (p.x as i64 + 0x8000_0000i64) as u128;
    let y: u128 = (p.y as i64 + 0x8000_0000i64) as u128;
    let z: u128 = (p.z as i64 + 0x8000_0000i64) as u128;
    x * 0x1_0000_0000_0000_0000u128 + y * 0x1_0000_0000u128 + z
}

/// A finite set of occupied lattice cells, with constant-time lookup.
pub struct BlockSet {
    keys: HashSet<u128>,
}

impl View for BlockSet {
    type V = Set<Point3>;

    closed spec fn view(&self) -> Set<Point3> {
        Set::new(|p: Point3| self.keys@.contains(block_key(p) as u128))
    }
}

impl BlockSet {
    /// The empty set.
    pub fn new() -> (s: BlockSet)
        ensures
            s@ == Set::<Point3>::empty(),
    {
        let s = BlockSet { keys: HashSet::new() };
        assert(s@ =~= Set::<Point3>::empty());
        s
    }

    /// Adds a cell; returns whether it was absent before.
    pub fn insert(&mut self, p: Point3) -> (added: bool)
        ensures
            final(self)@ == old(self)@.insert(p),
            added == !old(self)@.contains(p),
    {
        let k = key_of(p);
        let added = self.keys.insert(k);
        assert forall|q: Point3| #[trigger] final(self)@.contains(q) == old(self)@.insert(p).contains(q) by {
            lemma_block_key_injective(p, q);
            lemma_block_key_bounds(p);
            lemma_block_key_bounds(q);
        }
        assert(final(self)@ =~= old(self)@.insert(p));
        added
    }

    /// Whether the cell is in the set.
    pub fn contains(&self, p: Point3) -> (b: bool)
        ensures
            b == self@.contains(p),
    {
        let k = key_of(p);
        self.keys.contains(&k)
    }

    /// The set of the cells listed in `points`.
    pub fn from_points(points: &Vec<Point3>) -> (s: BlockSet)
        ensures
            s@ == points@.to_set(),
    {
        let mut s = BlockSet::new();
        let n = points.len();
        for i in 0..n
            invariant
                n == points@.len(),
                s@ == points@.take(i as int).to_set(),
        {
            s.insert(points[i]);
            assert(points@.take(i + 1) == points@.take(i as int).push(points@[i as int]));
            proof {
                points@.take(i as int).lemma_push_to_set_commute(points@[i as int]);
            }
        }
        assert(points@.take(n as int) == points@);
        s
    }
}

} // verus!
