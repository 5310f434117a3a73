//! Walking over sets and maps of numbers.

use std::collections::{HashMap, HashSet};
use vstd::prelude::*;
use vstd::std_specs::iter::IteratorSpec;

verus! {

broadcast use vstd::std_specs::hash::group_hash_axioms;

/// Whether a sequence holds each element of a set once.
pub open spec fn lists(sequence: Seq<u64>, set: Set<u64>) -> bool {
    &&& sequence.no_duplicates()
    &&& sequence.to_set() == set
}

/// What a sequence holds once one more element is in it.
pub proof fn lemma_push_contains(sequence: Seq<u64>, element: u64)
    ensures
        forall|e: u64| #[trigger]
            sequence.push(element).contains(e) <==> sequence.contains(e) || e == element,
        sequence.push(element).to_set() == sequence.to_set().insert(element),
{
    let more = sequence.push(element);
    assert forall|e: u64| #[trigger] more.contains(e) <==> sequence.contains(e) || e == element by {
        if sequence.contains(e) {
            let k = sequence.index_of(e);
            assert(more[k] == e);
        }
        if e == element {
            assert(more[sequence.len() as int] == e);
        }
    }
    assert(more.to_set() =~= sequence.to_set().insert(element));
}

/// The elements of a set, in no particular order.
pub(crate) fn set_elements(set: &HashSet<u64>) -> (elements: Vec<u64>)
    ensures
        lists(elements@, set@),
        set@.finite(),
        set@.len() == elements@.len(),
{
    let mut elements: Vec<u64> = Vec::new();
    for element in iter: set.iter()
        invariant
            elements@ == iter.seq().unref().take(iter.index() as int),
            iter.seq() == set.iter().remaining(),
    {
        elements.push(*element);
        assert(elements@ =~= iter.seq().unref().take(iter.index() + 1));
    }
    proof {
        let walked = set.iter().remaining();
        assert(elements@ =~= walked.unref());
        assert forall|i: int, j: int|
            0 <= i < elements@.len() && 0 <= j < elements@.len() && i != j implies elements@[i]
            != elements@[j] by {
            assert(walked[i] != walked[j]);
        }
    }
    elements
}

/// The keys of a map, in no particular order.
pub(crate) fn map_keys<V>(map: &HashMap<u64, V>) -> (keys: Vec<u64>)
    ensures
        lists(keys@, map@.dom()),
        map@.dom().finite(),
        map@.dom().len() == keys@.len(),
{
    let mut keys: Vec<u64> = Vec::new();
    for key in iter: map.keys()
        invariant
            keys@ == iter.seq().unref().take(iter.index() as int),
            iter.seq() == map.keys().remaining(),
    {
        keys.push(*key);
        assert(keys@ =~= iter.seq().unref().take(iter.index() + 1));
    }
    proof {
        let walked = map.keys().remaining();
        assert(keys@ =~= walked.unref());
        assert forall|i: int, j: int|
            0 <= i < keys@.len() && 0 <= j < keys@.len() && i != j implies keys@[i]
            != keys@[j] by {
            assert(walked[i] != walked[j]);
        }
    }
    keys
}

} // verus!
