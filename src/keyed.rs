//! Maps keyed by sequence number.

use std::collections::HashMap;
use vstd::prelude::*;

verus! {

/// Removes the entries keyed by `keys`; returns how many there were.
pub fn remove_keys<V>(m: &mut HashMap<u64, V>, keys: &Vec<u64>) -> (removed: u64)
    ensures
        forall|k: u64|
            #![trigger final(m)@.contains_key(k)]
            #![trigger old(m)@.contains_key(k)]
            final(m)@.contains_key(k) <==> (old(m)@.contains_key(k) && !keys@.contains(k)),
        forall|k: u64| final(m)@.contains_key(k) ==> final(m)@[k] == old(m)@[k],
        removed == old(m)@.dom().len() - final(m)@.dom().len(),
{
    let ghost start = m@;
    // the length of a map fits in usize, which bounds the removals
    let _size = m.len();
    let mut removed: u64 = 0;
    for i in 0..keys.len()
        invariant
            start == old(m)@,
            start.dom().len() <= usize::MAX,
            forall|k: u64| m@.contains_key(k) <==> (start.contains_key(k)
                && !(exists|j: int| 0 <= j < i && keys@[j] == k)),
            forall|k: u64| m@.contains_key(k) ==> m@[k] == start[k],
            removed == start.dom().len() - m@.dom().len(),
            m@.dom().subset_of(start.dom()),
    {
        proof {
            vstd::set_lib::lemma_len_subset(m@.dom(), start.dom());
        }
        if m.remove(&keys[i]).is_some() {
            proof {
                vstd::set_lib::lemma_len_subset(m@.dom(), start.dom());
            }
            removed = removed + 1;
        }
        proof {
            assert forall|k: u64| m@.contains_key(k) <==> (start.contains_key(k)
                && !(exists|j: int| 0 <= j < i + 1 && keys@[j] == k)) by {
                if exists|j: int| 0 <= j < i + 1 && keys@[j] == k {
                    let j = choose|j: int| 0 <= j < i + 1 && keys@[j] == k;
                    if j < i {
                        assert(exists|j: int| 0 <= j < i && keys@[j] == k);
                    }
                }
            }
        }
    }
    proof {
        assert forall|k: u64| keys@.contains(k) implies (exists|j: int| 0 <= j < keys@.len() && keys@[j] == k) by {
            let j = choose|j: int| 0 <= j < keys@.len() && keys@[j] == k;
        }
    }
    removed
}

} // verus!
