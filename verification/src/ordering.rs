use vstd::prelude::*;
use vstd::relations::{sorted_by, total_ordering};
use vstd::seq_lib::{lemma_sorted_unique, to_multiset_build, to_multiset_insert};
use crate::catalog::{filtered_project_indices, matching_project_indices, search_keys};
use crate::chars::chars_of;
use crate::editors::{
    lemma_text_lt_asymmetric, lemma_text_lt_irreflexive, lemma_text_lt_total, lemma_text_lt_transitive, text_less,
    text_lt,
};
use crate::mcp::{lowercase, lowercase_of};
use crate::project::{strings_view, Project};
use crate::settings::{first_same_path, path_position};

verus! {

/// What the project list is ordered by: pinned projects first, then the
/// lower-cased source label, name and path.
pub type Rank = (bool, Seq<char>, Seq<char>, Seq<char>);

/// Whether rank `a` comes strictly before rank `b`.
pub open spec fn rank_lt(a: Rank, b: Rank) -> bool {
    ||| a.0 && !b.0
    ||| a.0 == b.0 && text_lt(a.1, b.1)
    ||| a.0 == b.0 && a.1 == b.1 && text_lt(a.2, b.2)
    ||| a.0 == b.0 && a.1 == b.1 && a.2 == b.2 && text_lt(a.3, b.3)
}

/// Positions ordered by the rank at them, and by position among equal
/// ranks.
pub open spec fn rank_order(ranks: Seq<Rank>) -> spec_fn(usize, usize) -> bool {
    |i: usize, j: usize| rank_lt(ranks[i as int], ranks[j as int]) || (ranks[i as int] == ranks[j as int] && i <= j)
}

proof fn lemma_rank_lt(a: Rank, b: Rank, c: Rank)
    ensures
        !rank_lt(a, a),
        rank_lt(a, b) ==> !rank_lt(b, a),
        rank_lt(a, b) && rank_lt(b, c) ==> rank_lt(a, c),
        a != b ==> rank_lt(a, b) || rank_lt(b, a),
{
    lemma_text_lt_irreflexive(a.1);
    lemma_text_lt_irreflexive(a.2);
    lemma_text_lt_irreflexive(a.3);
    lemma_text_lt_asymmetric(a.1, b.1);
    lemma_text_lt_asymmetric(a.2, b.2);
    lemma_text_lt_asymmetric(a.3, b.3);
    lemma_text_lt_transitive(a.1, b.1, c.1);
    lemma_text_lt_transitive(a.2, b.2, c.2);
    lemma_text_lt_transitive(a.3, b.3, c.3);
    lemma_text_lt_total(a.1, b.1);
    lemma_text_lt_total(a.2, b.2);
    lemma_text_lt_total(a.3, b.3);
    lemma_text_lt_irreflexive(b.1);
    lemma_text_lt_irreflexive(b.2);
}

proof fn lemma_rank_order_total(ranks: Seq<Rank>)
    ensures
        total_ordering(rank_order(ranks)),
{
    let leq = rank_order(ranks);
    assert forall|i: usize| #[trigger] leq(i, i) by {
    }
    assert forall|i: usize, j: usize| #[trigger] leq(i, j) && #[trigger] leq(j, i) implies i == j by {
        lemma_rank_lt(ranks[i as int], ranks[j as int], ranks[j as int]);
    }
    assert forall|i: usize, j: usize, k: usize| #[trigger] leq(i, j) && #[trigger] leq(j, k) implies leq(i, k) by {
        lemma_rank_lt(ranks[i as int], ranks[j as int], ranks[k as int]);
    }
    assert forall|i: usize, j: usize| #[trigger] leq(i, j) || #[trigger] leq(j, i) by {
        lemma_rank_lt(ranks[i as int], ranks[j as int], ranks[j as int]);
    }
}

/// An executable rank.
pub struct RankKey {
    pub pinned: bool,
    pub label: Vec<char>,
    pub name: Vec<char>,
    pub path: Vec<char>,
}

pub open spec fn rank_of(k: RankKey) -> Rank {
    (k.pinned, k.label@, k.name@, k.path@)
}

pub open spec fn ranks_of(keys: Seq<RankKey>) -> Seq<Rank> {
    keys.map_values(|k: RankKey| rank_of(k))
}

fn rank_less(a: &RankKey, b: &RankKey) -> (less: bool)
    ensures
        less == rank_lt(rank_of(*a), rank_of(*b)),
{
    if a.pinned != b.pinned {
        return a.pinned;
    }
    if text_less(&a.label, &b.label) {
        return true;
    }
    if !crate::chars::same_chars(&a.label, &b.label) {
        return false;
    }
    if text_less(&a.name, &b.name) {
        return true;
    }
    if !crate::chars::same_chars(&a.name, &b.name) {
        return false;
    }
    text_less(&a.path, &b.path)
}

/// The positions `0 .. keys.len()` sorted by `rank_order`.
fn sort_by_rank(keys: &Vec<RankKey>) -> (sorted: Vec<usize>)
    ensures
        sorted@ == Seq::new(keys@.len(), |i: int| i as usize).sort_by(rank_order(ranks_of(keys@))),
{
    broadcast use to_multiset_insert, to_multiset_build;
    let ghost kv = ranks_of(keys@);
    let ghost leq = rank_order(kv);
    let ghost items = Seq::new(keys@.len(), |i: int| i as usize);
    let mut sorted: Vec<usize> = Vec::new();
    let mut i: usize = 0;
    proof {
        assert(items.subrange(0, 0) =~= Seq::<usize>::empty());
        assert(sorted@.to_multiset() =~= items.subrange(0, 0).to_multiset());
        lemma_rank_order_total(kv);
    }
    while i < keys.len()
        invariant
            kv == ranks_of(keys@),
            leq == rank_order(kv),
            items == Seq::new(keys@.len(), |i: int| i as usize),
            total_ordering(leq),
            i <= keys@.len(),
            sorted_by(sorted@, leq),
            sorted@.to_multiset() == items.subrange(0, i as int).to_multiset(),
            forall|k: int| 0 <= k < sorted@.len() ==> sorted@[k] < i,
        decreases keys@.len() - i,
    {
        let mut p: usize = 0;
        while p < sorted.len() && !rank_less(&keys[i], &keys[sorted[p]])
            invariant
                kv == ranks_of(keys@),
                leq == rank_order(kv),
                total_ordering(leq),
                i < keys@.len(),
                p <= sorted@.len(),
                forall|k: int| 0 <= k < sorted@.len() ==> sorted@[k] < i,
                forall|k: int| 0 <= k < p ==> leq(sorted@[k], i),
            decreases sorted@.len() - p,
        {
            proof {
                let j = sorted@[p as int];
                assert(kv[j as int] == rank_of(keys@[j as int]));
                assert(kv[i as int] == rank_of(keys@[i as int]));
                lemma_rank_lt(kv[j as int], kv[i as int], kv[i as int]);
            }
            p = p + 1;
        }
        let ghost before = sorted@;
        proof {
            if p < before.len() {
                let j = before[p as int];
                assert(kv[j as int] == rank_of(keys@[j as int]));
                assert(kv[i as int] == rank_of(keys@[i as int]));
                lemma_rank_lt(kv[i as int], kv[j as int], kv[j as int]);
                assert(!leq(j, i));
                assert(leq(i, j));
            }
        }
        sorted.insert(p, i);
        proof {
            assert(sorted@ == before.insert(p as int, i));
            assert forall|a: int, b: int| 0 <= a < b < sorted@.len() implies #[trigger] leq(sorted@[a], sorted@[b]) by {
                if a < p && b == p {
                } else if a < p && b > p {
                    assert(leq(before[a], before[b - 1]));
                } else if a == p && b > p {
                    assert(leq(before[p as int], before[b - 1]) || b - 1 == p);
                } else if a > p {
                    assert(leq(before[a - 1], before[b - 1]));
                } else {
                    assert(leq(before[a], before[b]));
                }
            }
            assert(items.subrange(0, i + 1) =~= items.subrange(0, i as int).push(i));
            to_multiset_insert(before, p as int, i);
            to_multiset_build(items.subrange(0, i as int), i);
        }
        i = i + 1;
    }
    proof {
        assert(items.subrange(0, items.len() as int) =~= items);
        items.lemma_sort_by_ensures(leq);
        lemma_sorted_unique(sorted@, items.sort_by(leq), leq);
    }
    sorted
}

/// The catalog positions that match `query` and are not hidden, in the
/// order given.
pub open spec fn shown_projects(projects: Seq<Project>, hidden: Seq<Seq<char>>, candidates: Seq<usize>) -> Seq<usize>
    decreases candidates.len(),
{
    if candidates.len() == 0 {
        Seq::empty()
    } else {
        let earlier = shown_projects(projects, hidden, candidates.drop_last());
        if first_same_path(hidden, projects[candidates.last() as int].path@, 0) is None {
            earlier.push(candidates.last())
        } else {
            earlier
        }
    }
}

/// The rank of the project at catalog position `i`.
pub open spec fn project_rank(projects: Seq<Project>, labels: Seq<Seq<char>>, pinned: Seq<Seq<char>>, i: usize) -> Rank {
    let p = projects[i as int];
    (
        first_same_path(pinned, p.path@, 0) is Some,
        lowercase_of(labels[i as int]),
        lowercase_of(p.name@),
        lowercase_of(p.path@),
    )
}

/// The project list for a query: the catalog positions of the matching
/// projects that are not hidden, pinned ones first, then by lower-cased
/// source label, name and path, catalog order among equals.
pub open spec fn project_list(
    projects: Seq<Project>,
    query: Seq<char>,
    labels: Seq<Seq<char>>,
    pinned: Seq<Seq<char>>,
    hidden: Seq<Seq<char>>,
) -> Seq<usize> {
    let shown = shown_projects(projects, hidden, matching_project_indices(search_keys(projects), query, projects.len()));
    let ranks = shown.map_values(|i: usize| project_rank(projects, labels, pinned, i));
    Seq::new(shown.len(), |k: int| k as usize).sort_by(rank_order(ranks)).map_values(|k: usize| shown[k as int])
}

/// The project list for a query (see `project_list`). `labels` holds the
/// source label of each project of the catalog.
pub fn project_indices_for_query(
    projects: &Vec<Project>,
    query: &str,
    labels: &Vec<String>,
    pinned: &Vec<String>,
    hidden: &Vec<String>,
) -> (indices: Vec<usize>)
    requires
        labels@.len() == projects@.len(),
    ensures
        indices@ == project_list(projects@, query@, strings_view(labels@), strings_view(pinned@), strings_view(hidden@)),
{
    let found = filtered_project_indices(projects, query);
    let count = projects.len();
    proof {
        assert(projects@.len() == count);
        crate::catalog::lemma_matching_indices_below(search_keys(projects@), query@, projects@.len());
    }
    let ghost hv = strings_view(hidden@);
    let mut shown: Vec<usize> = Vec::new();
    let mut k: usize = 0;
    while k < found.len()
        invariant
            k <= found@.len(),
            hv == strings_view(hidden@),
            forall|j: int| 0 <= j < found@.len() ==> #[trigger] found@[j] < projects@.len(),
            shown@ == shown_projects(projects@, hv, found@.subrange(0, k as int)),
            forall|j: int| 0 <= j < shown@.len() ==> #[trigger] shown@[j] < projects@.len(),
        decreases found@.len() - k,
    {
        let i = found[k];
        assert(found@.subrange(0, k + 1).drop_last() =~= found@.subrange(0, k as int));
        if path_position(hidden, projects[i].path.as_str()).is_none() {
            shown.push(i);
        }
        k = k + 1;
    }
    assert(found@.subrange(0, found@.len() as int) =~= found@);
    let ghost lv = strings_view(labels@);
    let ghost pv = strings_view(pinned@);
    let mut keys: Vec<RankKey> = Vec::new();
    let mut k: usize = 0;
    while k < shown.len()
        invariant
            k <= shown@.len(),
            lv == strings_view(labels@),
            pv == strings_view(pinned@),
            labels@.len() == projects@.len(),
            forall|j: int| 0 <= j < shown@.len() ==> #[trigger] shown@[j] < projects@.len(),
            ranks_of(keys@) == shown@.subrange(0, k as int).map_values(|i: usize| project_rank(projects@, lv, pv, i)),
        decreases shown@.len() - k,
    {
        let i = shown[k];
        let p = &projects[i];
        let key = RankKey {
            pinned: path_position(pinned, p.path.as_str()).is_some(),
            label: chars_of(lowercase(labels[i].as_str()).as_str()),
            name: chars_of(lowercase(p.name.as_str()).as_str()),
            path: chars_of(lowercase(p.path.as_str()).as_str()),
        };
        assert(lv[i as int] == labels@[i as int]@);
        assert(rank_of(key) == project_rank(projects@, lv, pv, i));
        let ghost before = ranks_of(keys@);
        keys.push(key);
        assert(ranks_of(keys@) =~= before.push(rank_of(key)));
        assert(shown@.subrange(0, k + 1) =~= shown@.subrange(0, k as int).push(i));
        assert(ranks_of(keys@) =~= shown@.subrange(0, k + 1).map_values(|i: usize| project_rank(projects@, lv, pv, i)));
        k = k + 1;
    }
    assert(shown@.subrange(0, shown@.len() as int) =~= shown@);
    let ghost ranks = ranks_of(keys@);
    let order = sort_by_rank(&keys);
    let ghost ids = Seq::new(ranks.len(), |k: int| k as usize);
    proof {
        lemma_rank_order_total(ranks);
        ids.lemma_sort_by_ensures(rank_order(ranks));
    }
    let mut indices: Vec<usize> = Vec::new();
    let mut k: usize = 0;
    while k < order.len()
        invariant
            k <= order@.len(),
            ranks == ranks_of(keys@),
            keys@.len() == shown@.len(),
            ids == Seq::new(ranks.len(), |k: int| k as usize),
            total_ordering(rank_order(ranks)),
            order@ == ids.sort_by(rank_order(ranks)),
            forall|x: usize| !ids.contains(x) ==> !(#[trigger] order@.contains(x)),
            indices@ == order@.subrange(0, k as int).map_values(|j: usize| shown@[j as int]),
        decreases order@.len() - k,
    {
        let j = order[k];
        proof {
            assert(order@[k as int] == j);
            assert(order@.contains(j));
            assert(ids.contains(j));
            let a = choose|a: int| 0 <= a < ids.len() && ids[a] == j;
        }
        indices.push(shown[j]);
        assert(order@.subrange(0, k + 1) =~= order@.subrange(0, k as int).push(j));
        assert(indices@ =~= order@.subrange(0, k + 1).map_values(|j: usize| shown@[j as int]));
        k = k + 1;
    }
    assert(order@.subrange(0, order@.len() as int) =~= order@);
    indices
}

/// In the project list, every pinned project comes before every project
/// that is not pinned.
pub proof fn law_pinned_projects_come_first(
    projects: Seq<Project>,
    query: Seq<char>,
    labels: Seq<Seq<char>>,
    pinned: Seq<Seq<char>>,
    hidden: Seq<Seq<char>>,
    a: int,
    b: int,
)
    requires
        0 <= a < b < project_list(projects, query, labels, pinned, hidden).len(),
        first_same_path(pinned, projects[project_list(projects, query, labels, pinned, hidden)[b] as int].path@, 0) is Some,
    ensures
        first_same_path(pinned, projects[project_list(projects, query, labels, pinned, hidden)[a] as int].path@, 0) is Some,
{
    let shown = shown_projects(projects, hidden, matching_project_indices(search_keys(projects), query, projects.len()));
    let ranks = shown.map_values(|i: usize| project_rank(projects, labels, pinned, i));
    let ids = Seq::new(shown.len(), |k: int| k as usize);
    let leq = rank_order(ranks);
    lemma_rank_order_total(ranks);
    ids.lemma_sort_by_ensures(leq);
    let sorted = ids.sort_by(leq);
    assert(sorted.len() == ids.len()) by {
        broadcast use vstd::seq_lib::to_multiset_len;
        assert(sorted.to_multiset().len() == ids.to_multiset().len());
    }
    assert(leq(sorted[a], sorted[b]));
    assert(sorted.contains(sorted[a]) && sorted.contains(sorted[b]));
    assert(ids.contains(sorted[a]) && ids.contains(sorted[b]));
    let ia = choose|i: int| 0 <= i < ids.len() && ids[i] == sorted[a];
    let ib = choose|i: int| 0 <= i < ids.len() && ids[i] == sorted[b];
    assert(ranks[sorted[b] as int].0);
}

} // verus!
