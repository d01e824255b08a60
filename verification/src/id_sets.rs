//! Sets of Discord ids kept in a `BTreeSet`, read back in ascending order.

use vstd::prelude::*;
use std::collections::BTreeSet;
use vstd::std_specs::iter::IteratorSpec;
use vstd::std_specs::cmp::OrdSpec;
use crate::overwrites::strictly_increasing;

verus! {

/// Adds an id to the set.
pub fn add_id(set: &mut BTreeSet<u64>, x: u64)
    ensures
        final(set)@ == old(set)@.insert(x),
{
    broadcast use vstd::std_specs::btree::group_btree_axioms, vstd::laws_cmp::group_laws_cmp;

    assert(vstd::laws_cmp::obeys_cmp::<u64>());
    set.insert(x);
}

/// The ids of a set in ascending order, as the set iterates them.
pub fn ascending_ids(set: &BTreeSet<u64>) -> (r: Vec<u64>)
    ensures
        strictly_increasing(r@),
        forall|u: u64| r@.contains(u) <==> set@.contains(u),
{
    broadcast use vstd::std_specs::btree::group_btree_axioms, vstd::laws_cmp::group_laws_cmp;

    let mut r: Vec<u64> = Vec::new();
    let ghost keys = set.iter().remaining().map_values(|k: &u64| *k);
    for x in it: set.iter()
        invariant
            keys == it.seq().map_values(|k: &u64| *k),
            r@ == keys.take(it.index()),
    {
        r.push(*x);
    }
    proof {
        let rem = set.iter().remaining();
        assert(vstd::laws_cmp::obeys_cmp::<u64>());
        assert(vstd::laws_cmp::obeys_cmp::<&u64>());
        assert(vstd::std_specs::btree::increasing_seq(rem));
        assert(r@ =~= keys);
        assert(keys =~= rem.unref());
        assert forall|i: int, j: int| 0 <= i < j < keys.len() implies keys[i] < keys[j] by {
            assert((&rem[i]).cmp_spec(&&rem[j]) is Less);
        }
        assert forall|u: u64| r@.contains(u) <==> set@.contains(u) by {
            if set@.contains(u) {
                assert(rem.unref().to_set().contains(u));
            }
            if r@.contains(u) {
                assert(rem.unref().to_set().contains(u));
            }
        }
    }
    r
}

} // verus!
