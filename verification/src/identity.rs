//! The identities of nodes: the key that a node is known by, and the index
//! that a key is given in an arena.

use crate::ir::NodeId;
use std::collections::HashMap;
use vstd::prelude::*;

verus! {

broadcast use vstd::std_specs::hash::group_hash_axioms;

/// The key that a node is known by: that of its metadata if it is a
/// metadata node, else that of the value.
pub fn identity_key(is_mdnode: bool, value: u64, metadata: u64) -> (key: u64)
    ensures
        key == if is_mdnode {
            metadata
        } else {
            value
        },
{
    if is_mdnode {
        metadata
    } else {
        value
    }
}

/// Gives every key an index, in the order in which the keys are first
/// seen: the first key gets 0, the next new key gets 1, and so on.
pub struct Interner {
    ids: HashMap<u64, NodeId>,
}

impl Interner {
    /// The index of each key seen so far.
    pub closed spec fn ids(&self) -> Map<u64, NodeId> {
        self.ids@
    }

    /// Whether the indices given so far are those below the number of keys.
    pub closed spec fn wf(&self) -> bool {
        forall|key: u64| #[trigger] self.ids@.contains_key(key) ==> self.ids@[key] < self.ids@.len()
    }

    /// An interner that has seen no key.
    pub fn new() -> (interner: Interner)
        ensures
            interner.wf(),
            interner.ids() == Map::<u64, NodeId>::empty(),
    {
        Interner { ids: HashMap::new() }
    }

    /// The number of keys seen so far, which is the index that the next new
    /// key gets.
    pub fn len(&self) -> (len: usize)
        ensures
            len == self.ids().len(),
    {
        self.ids.len()
    }

    /// The index of `key`, and whether the key is new. A key that was seen
    /// before keeps its index; a new key gets the next index.
    pub fn id_of(&mut self, key: u64) -> (found: (NodeId, bool))
        requires
            old(self).wf(),
        ensures
            final(self).wf(),
            found.1 == !old(self).ids().contains_key(key),
            !found.1 ==> found.0 == old(self).ids()[key] && final(self).ids() == old(self).ids(),
            found.1 ==> found.0 == old(self).ids().len() && final(self).ids() == old(
                self,
            ).ids().insert(key, found.0),
    {
        match self.ids.get(&key) {
            Some(id) => (*id, false),
            None => {
                let id = self.ids.len();
                self.ids.insert(key, id);
                (id, true)
            },
        }
    }
}

} // verus!
