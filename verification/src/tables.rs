//! The keys of a table as a list.
use std::collections::HashMap;
use vstd::prelude::*;
use vstd::std_specs::iter::IteratorSpec;

verus! {

broadcast use vstd::std_specs::hash::group_hash_axioms;

/// Whether a list holds the keys of a table, each once.
pub open spec fn lists_keys<V>(keys: Seq<u32>, m: Map<u32, V>) -> bool {
    &&& keys.no_duplicates()
    &&& forall|k: u32| #[trigger] keys.contains(k) <==> m.dom().contains(k)
}

/// The keys of a table, in no particular order.
pub fn key_list<V>(m: &HashMap<u32, V>) -> (keys: Vec<u32>)
    ensures
        lists_keys(keys@, m@),
{
    let mut keys: Vec<u32> = Vec::new();
    for k in it: m.keys()
        invariant
            keys@.len() == it.index(),
            forall|i: int| 0 <= i < keys@.len() ==> keys@[i] == *it.seq()[i],
            it.seq() == m.keys().remaining(),
    {
        keys.push(*k);
    }
    proof {
        let all = m.keys().remaining();
        assert(keys@ =~= all.unref());
        assert forall|k: u32| #[trigger] keys@.contains(k) <==> m@.dom().contains(k) by {
            assert(all.unref().to_set().contains(k) <==> m@.dom().contains(k));
        }
        assert forall|i: int, j: int| 0 <= i < keys@.len() && 0 <= j < keys@.len() && i != j implies keys@[i]
            != keys@[j] by {
            assert(all[i] != all[j]);
        }
    }
    keys
}

} // verus!
