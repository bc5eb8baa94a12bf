//! The set of node identities that the traversal has already discovered.

use std::collections::HashSet;
use vstd::prelude::*;

verus! {

broadcast use vstd::std_specs::hash::group_hash_axioms;

/// Identity-keyed visited set. Its view is the set of keys inserted so far.
pub struct Cache {
    keys: HashSet<u64>,
}

impl View for Cache {
    type V = Set<u64>;

    closed spec fn view(&self) -> Set<u64> {
        self.keys@
    }
}

/// The keys that a new cache holds after one hit on each of `keys`, in
/// order.
pub open spec fn after_hits(keys: Seq<u64>) -> Set<u64>
    decreases keys.len(),
{
    if keys.len() == 0 {
        Set::empty()
    } else {
        after_hits(keys.drop_last()).insert(keys.last())
    }
}

/// A hit finds a key exactly if the key was hit before. So the first hit on
/// a key misses, every later hit on it finds it, and hits on other keys
/// change nothing of that.
pub proof fn lemma_hit_finds_what_was_hit(keys: Seq<u64>, key: u64)
    ensures
        after_hits(keys).contains(key) <==> keys.contains(key),
    decreases keys.len(),
{
    if keys.len() > 0 {
        lemma_hit_finds_what_was_hit(keys.drop_last(), key);
        if keys.contains(key) {
            let i = choose|i: int| 0 <= i < keys.len() && keys[i] == key;
            if i < keys.len() - 1 {
                assert(keys.drop_last()[i] == key);
            }
        }
        if keys.drop_last().contains(key) {
            let i = choose|i: int| 0 <= i < keys.len() - 1 && keys.drop_last()[i] == key;
            assert(keys[i] == key);
        }
    }
}

impl Cache {
    /// An empty cache.
    pub fn new() -> (cache: Self)
        ensures
            cache@ == Set::<u64>::empty(),
    {
        Cache { keys: HashSet::new() }
    }

    /// Reports whether `key` was already present, and makes it present.
    ///
    /// A key that is present stays present and leaves the set as it was; a
    /// key that is absent is inserted, and the call answers `false`.
    pub fn hit(&mut self, key: &u64) -> (present: bool)
        ensures
            present == old(self)@.contains(*key),
            final(self)@ == old(self)@.insert(*key),
            present ==> final(self)@ == old(self)@,
    {
        if self.keys.contains(key) {
            assert(self@.insert(*key) =~= self@);
            return true;
        }
        self.keys.insert(key.clone());
        false
    }
}

} // verus!
