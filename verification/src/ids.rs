//! Droplet ids, and the keys of maps that are keyed by them.

use std::collections::HashMap;
use vstd::prelude::*;
use vstd::std_specs::hash::*;
use vstd::std_specs::iter::IteratorSpec;

verus! {

/// Identifies a droplet for the lifetime of an architecture.
pub type DropletId = usize;

/// The keys of `m`, each once, in the order in which the map hands them out.
pub fn map_keys<V>(m: &HashMap<usize, V>) -> (ids: Vec<usize>)
    ensures
        ids@.no_duplicates(),
        forall|id: usize| #[trigger] ids@.contains(id) <==> m@.contains_key(id),
{
    broadcast use group_hash_axioms;

    let mut ids: Vec<usize> = Vec::new();
    for k in it: m.keys()
        invariant
            it.seq() == spec_keys_iter(m).remaining(),
            ids@.len() == it.index(),
            forall|j: int| 0 <= j < it.index() ==> ids@[j] == *it.seq()[j],
    {
        ids.push(*k);
    }
    proof {
        let all = spec_keys_iter(m).remaining();
        assert(ids@ =~= all.unref());
        assert(all.unref().to_set() == m@.dom());
        assert forall|a: int, b: int| 0 <= a < ids@.len() && 0 <= b < ids@.len() && a != b implies ids@[a]
            != ids@[b] by {
            assert(all[a] != all[b]);
        }
        assert forall|id: usize| #[trigger] ids@.contains(id) <==> m@.contains_key(id) by {
            assert(ids@.to_set().contains(id) <==> m@.dom().contains(id));
        }
    }
    ids
}

} // verus!
