use vstd::prelude::*;
use vstd::relations::{sorted_by, total_ordering};
use vstd::seq_lib::{lemma_sorted_unique, to_multiset_insert, to_multiset_build};

verus! {

/// Ranked entries are ordered by score, then by their position in the
/// original list.
pub open spec fn rank_leq(a: (u128, usize), b: (u128, usize)) -> bool {
    a.0 < b.0 || (a.0 == b.0 && a.1 <= b.1)
}

pub open spec fn rank_order() -> spec_fn((u128, usize), (u128, usize)) -> bool {
    |a: (u128, usize), b: (u128, usize)| rank_leq(a, b)
}

pub proof fn lemma_rank_order_total()
    ensures
        total_ordering(rank_order()),
{
    let leq = rank_order();
    assert forall|x: (u128, usize), y: (u128, usize)| #[trigger] leq(x, y) && #[trigger] leq(y, x) implies x == y by {
        assert(x.0 == y.0 && x.1 == y.1);
    }
}

/// Sorts (score, position) entries by score and then position.
pub fn sort_ranked(items: &Vec<(u128, usize)>) -> (sorted: Vec<(u128, usize)>)
    ensures
        sorted@ == items@.sort_by(rank_order()),
{
    broadcast use to_multiset_insert, to_multiset_build;
    let ghost leq = rank_order();
    let mut sorted: Vec<(u128, usize)> = Vec::new();
    let mut i: usize = 0;
    proof {
        assert(items@.subrange(0, 0) =~= Seq::<(u128, usize)>::empty());
        assert(sorted@.to_multiset() =~= items@.subrange(0, 0).to_multiset());
    }
    while i < items.len()
        invariant
            leq == rank_order(),
            i <= items@.len(),
            sorted_by(sorted@, leq),
            sorted@.to_multiset() == items@.subrange(0, i as int).to_multiset(),
        decreases items@.len() - i,
    {
        let x = items[i];
        let mut p: usize = 0;
        while p < sorted.len() && rank_leq_exec(sorted[p], x)
            invariant
                leq == rank_order(),
                p <= sorted@.len(),
                forall|k: int| 0 <= k < p ==> leq(sorted@[k], x),
            decreases sorted@.len() - p,
        {
            p = p + 1;
        }
        let ghost before = sorted@;
        proof {
            lemma_rank_order_total();
        }
        sorted.insert(p, x);
        proof {
            assert(sorted@ == before.insert(p as int, x));
            assert forall|a: int, b: int| 0 <= a < b < sorted@.len() implies #[trigger] leq(sorted@[a], sorted@[b]) by {
                if p < before.len() {
                    assert(!leq(before[p as int], x));
                    assert(leq(x, before[p as int]));
                }
                if a < p && b == p {
                } else if a < p && b > p {
                    assert(leq(before[a], before[b - 1]));
                } else if a == p && b > p {
                    assert(leq(before[p as int], before[b - 1]) || b - 1 == p);
                } else if a > p {
                    assert(leq(before[a - 1], before[b - 1]));
                } else {
                    assert(leq(before[a], before[b]));
                }
            }
            assert(items@.subrange(0, i + 1) =~= items@.subrange(0, i as int).push(x));
            to_multiset_insert(before, p as int, x);
            to_multiset_build(items@.subrange(0, i as int), x);
            assert(sorted@.to_multiset() == items@.subrange(0, i + 1).to_multiset());
        }
        i = i + 1;
    }
    proof {
        lemma_rank_order_total();
        assert(items@.subrange(0, items@.len() as int) =~= items@);
        items@.lemma_sort_by_ensures(leq);
        lemma_sorted_unique(sorted@, items@.sort_by(leq), leq);
    }
    sorted
}

fn rank_leq_exec(a: (u128, usize), b: (u128, usize)) -> (le: bool)
    ensures
        le == rank_order()(a, b),
{
    a.0 < b.0 || (a.0 == b.0 && a.1 <= b.1)
}

} // verus!
