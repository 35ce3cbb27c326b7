//! The keys of a descriptor table in increasing order.
use std::collections::BTreeMap;
use vstd::prelude::*;
use vstd::std_specs::btree::{increasing_seq, spec_keys_iter};
use vstd::std_specs::cmp::OrdSpec;
use vstd::std_specs::iter::IteratorSpec;

verus! {

broadcast use {vstd::std_specs::btree::group_btree_axioms, vstd::laws_cmp::group_laws_cmp};

spec fn precedes<K: Ord>(a: K, b: K) -> bool {
    a.cmp_spec(&b) is Less
}

/// The keys of `m`, in increasing order.
pub fn sorted_keys<V>(m: &BTreeMap<u32, V>) -> (ks: Vec<u32>)
    ensures
        ks@.to_set() == m@.dom(),
        ks@.no_duplicates(),
        forall|i: int, j: int| 0 <= i < j < ks@.len() ==> ks@[i] < ks@[j],
{
    let ghost seq0 = spec_keys_iter(m).remaining();
    proof {
        vstd::std_specs::btree::axiom_spec_keys_iter(m);
    }
    let mut ks: Vec<u32> = Vec::new();
    for k in it: m.keys()
        invariant
            it.seq() == seq0,
            ks@.len() == it.index(),
            forall|i: int| 0 <= i < it.index() ==> ks@[i] == *seq0[i],
    {
        ks.push(*k);
    }
    assert(ks@ =~= seq0.unref());
    assert(increasing_seq(seq0));
    assert(vstd::laws_cmp::obeys_cmp::<&u32>());
    assert forall|i: int, j: int| 0 <= i < j < ks@.len() implies ks@[i] < ks@[j] by {
        assert(precedes(seq0[i], seq0[j]));
    }
    ks
}

} // verus!
