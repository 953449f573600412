//! Helpers for the sets of broadcast values that nodes keep and exchange.

use std::collections::HashSet;
use vstd::prelude::*;

verus! {

/// Appending one element to a sequence of references adds that element, and
/// nothing else, to the set of values that the sequence refers to.
proof fn lemma_unref_push(refs: Seq<&usize>, value: &usize)
    ensures
        refs.push(value).unref().to_set() == refs.unref().to_set().insert(*value),
{
    let longer = refs.push(value).unref();
    let shorter = refs.unref();
    assert forall|v: usize| longer.to_set().contains(v) <==> shorter.to_set().insert(
        *value,
    ).contains(v) by {
        if longer.to_set().contains(v) {
            let j = choose|j: int| 0 <= j < longer.len() && longer[j] == v;
            if j < refs.len() {
                assert(shorter[j] == v);
            }
        }
        if shorter.to_set().contains(v) {
            let j = choose|j: int| 0 <= j < shorter.len() && shorter[j] == v;
            assert(longer[j] == v);
        }
        if v == *value {
            assert(longer[refs.len() as int] == v);
        }
    }
    assert(longer.to_set() =~= shorter.to_set().insert(*value));
}

/// Adds every value of `from` to `into`.
pub fn absorb(into: &mut HashSet<usize>, from: &HashSet<usize>)
    ensures
        final(into)@ == old(into)@.union(from@),
{
    broadcast use vstd::std_specs::hash::group_hash_axioms;

    for value in walk: from.iter()
        invariant
            walk.seq().unref().to_set() == from@,
            into@ == old(into)@.union(walk.history().unref().to_set()),
            walk.index() == walk.seq().len() ==> walk.history() == walk.seq(),
    {
        proof {
            lemma_unref_push(walk.history(), value);
        }
        into.insert(*value);
    }
}

/// A new set that holds exactly the values of `set`.
pub fn copy_of(set: &HashSet<usize>) -> (copy: HashSet<usize>)
    ensures
        copy@ == set@,
{
    let mut copy: HashSet<usize> = HashSet::new();
    absorb(&mut copy, set);
    assert(copy@ =~= set@);
    copy
}

} // verus!
