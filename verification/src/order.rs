//! Arranging positions from the highest to the lowest, the order in which a
//! delete takes them.

use vstd::prelude::*;
use vstd::relations::{sorted_by, total_ordering};
use vstd::seq_lib::{lemma_sorted_unique, to_multiset_build, to_multiset_insert};

verus! {

/// The order "at least as large as" on positions.
pub open spec fn at_least() -> spec_fn(usize, usize) -> bool {
    |a: usize, b: usize| a >= b
}

/// The positions arranged from the highest to the lowest, each kept as often
/// as it was given.
pub open spec fn descending(positions: Seq<usize>) -> Seq<usize> {
    positions.sort_by(at_least())
}

/// `descending` rearranges its argument and leaves it in descending order.
pub proof fn lemma_descending(positions: Seq<usize>)
    ensures
        descending(positions).to_multiset() == positions.to_multiset(),
        descending(positions).len() == positions.len(),
        sorted_by(descending(positions), at_least()),
{
    assert(total_ordering(at_least()));
    positions.lemma_sort_by_ensures(at_least());
    positions.to_multiset_ensures();
    descending(positions).to_multiset_ensures();
}

/// Two lists that hold the same positions equally often have the same
/// descending arrangement.
pub proof fn lemma_descending_ignores_order(first: Seq<usize>, second: Seq<usize>)
    requires
        first.to_multiset() == second.to_multiset(),
    ensures
        descending(first) == descending(second),
{
    lemma_descending(first);
    lemma_descending(second);
    assert(total_ordering(at_least()));
    lemma_sorted_unique(descending(first), descending(second), at_least());
}

/// Returns the positions from the highest to the lowest.
pub fn sorted_descending(positions: &[usize]) -> (sorted: Vec<usize>)
    ensures
        sorted@ == descending(positions@),
{
    let mut sorted: Vec<usize> = Vec::new();
    let mut k: usize = 0;
    assert(positions@.take(0) == Seq::<usize>::empty());
    while k < positions.len()
        invariant
            k <= positions@.len(),
            sorted@.to_multiset() == positions@.take(k as int).to_multiset(),
            sorted_by(sorted@, at_least()),
        decreases positions@.len() - k,
    {
        let position: usize = positions[k];
        let mut at: usize = 0;
        while at < sorted.len() && sorted[at] >= position
            invariant
                at <= sorted@.len(),
                forall|i: int| 0 <= i < at ==> sorted@[i] >= position,
            decreases sorted@.len() - at,
        {
            at += 1;
        }
        let ghost earlier = sorted@;
        sorted.insert(at, position);
        proof {
            to_multiset_insert(earlier, at as int, position);
            assert(positions@.take(k + 1) == positions@.take(k as int).push(position));
            to_multiset_build(positions@.take(k as int), position);
            assert forall|i: int, j: int| 0 <= i < j < sorted@.len() implies at_least()(
                sorted@[i],
                sorted@[j],
            ) by {
                if i < at && j > at {
                    assert(at_least()(earlier[i], earlier[j - 1]));
                } else if i == at {
                    assert(at_least()(earlier[at as int], earlier[j - 1]));
                } else if i > at {
                    assert(at_least()(earlier[i - 1], earlier[j - 1]));
                }
            }
        }
        k += 1;
    }
    proof {
        assert(positions@.take(k as int) == positions@);
        lemma_descending(positions@);
        assert(total_ordering(at_least()));
        lemma_sorted_unique(sorted@, descending(positions@), at_least());
    }
    sorted
}

} // verus!
