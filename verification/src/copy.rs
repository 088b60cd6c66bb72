use std::collections::HashSet;
use vstd::prelude::*;
use vstd::std_specs::iter::IteratorSpec;

verus! {

/// A set holding exactly the values of `values`.
pub fn copy_values(values: &HashSet<usize>) -> (copy: HashSet<usize>)
    ensures
        copy@ == values@,
{
    broadcast use vstd::std_specs::hash::group_hash_axioms;

    let mut copy: HashSet<usize> = HashSet::new();
    let ghost all = values.iter().remaining().unref();
    assert(all.take(0) =~= Seq::empty());
    assert(all.len() == 0 ==> all =~= Seq::empty());
    for value in it: values.iter()
        invariant
            it.seq().unref() == all,
            all.to_set() == values@,
            copy@ == all.take(it.index()).to_set(),
            it.index() == all.len() ==> copy@ == values@,
    {
        proof {
            let k = it.index();
            assert(all[k] == *value);
            assert(all.take(k + 1) =~= all.take(k).push(*value));
            all.take(k).lemma_push_to_set_commute(*value);
            assert(k + 1 == all.len() ==> all.take(k + 1) =~= all);
        }
        copy.insert(*value);
    }
    copy
}

/// A list holding the same names as `names`, in the same order.
pub fn copy_names(names: &Vec<String>) -> (copy: Vec<String>)
    ensures
        copy.deep_view() == names.deep_view(),
{
    let mut copy: Vec<String> = Vec::new();
    let mut at: usize = 0;
    while at < names.len()
        invariant
            at <= names@.len(),
            copy@.len() == at,
            forall|j: int| 0 <= j < at ==> (#[trigger] copy@[j])@ == names@[j]@,
        decreases names@.len() - at,
    {
        copy.push(names[at].clone());
        at = at + 1;
    }
    assert(copy.deep_view() =~= names.deep_view());
    copy
}

} // verus!
