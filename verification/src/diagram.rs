use vstd::prelude::*;
use crate::chars::same_text;

verus! {

/// A directed edge of a diagram, from node to node, as positions.
pub type Link = (nat, nat);

/// A node sits on a column after every node with an edge into it, when
/// `k` rounds of placing suffice for all the nodes upstream of it: every
/// source of an edge into it is placed within `k - 1` rounds.
pub open spec fn settled_within(links: Seq<Link>, v: nat, k: nat) -> bool
    decreases k, 1nat, 0nat,
{
    k > 0 && settled_sources(links, v, k, links.len())
}

/// The sources of the first `m` links into `v` are all placed within
/// `k - 1` rounds.
pub open spec fn settled_sources(links: Seq<Link>, v: nat, k: nat, m: nat) -> bool
    decreases k, 0nat, m,
{
    if k == 0 || m == 0 || m > links.len() {
        true
    } else {
        settled_sources(links, v, k, (m - 1) as nat) && (links[m - 1].1 == v ==> settled_within(
            links,
            links[m - 1].0,
            (k - 1) as nat,
        ))
    }
}

/// The column of a node placed within `k` rounds: one past the furthest
/// source of an edge into it, or the first column without such edges.
pub open spec fn depth_within(links: Seq<Link>, v: nat, k: nat) -> nat
    decreases k, 1nat, 0nat,
{
    if k == 0 {
        0
    } else {
        depth_over(links, v, k, links.len())
    }
}

/// The furthest of the sources of the first `m` links into `v`, plus one.
pub open spec fn depth_over(links: Seq<Link>, v: nat, k: nat, m: nat) -> nat
    decreases k, 0nat, m,
{
    if k == 0 || m == 0 || m > links.len() {
        0
    } else {
        let earlier = depth_over(links, v, k, (m - 1) as nat);
        if links[m - 1].1 == v {
            let here = depth_within(links, links[m - 1].0, (k - 1) as nat) + 1;
            if here > earlier { here } else { earlier }
        } else {
            earlier
        }
    }
}

/// The column a node of `n` would take before the nodes caught in or
/// behind a cycle are moved: its depth when it is placed, else one past the
/// furthest placed source of an edge into it.
pub open spec fn pre_level(links: Seq<Link>, n: nat, v: nat) -> nat {
    if settled_within(links, v, n) {
        depth_within(links, v, n)
    } else {
        placed_sources_over(links, n, v, links.len())
    }
}

/// One past the furthest placed source among the first `m` links into `v`.
pub open spec fn placed_sources_over(links: Seq<Link>, n: nat, v: nat, m: nat) -> nat
    decreases m,
{
    if m == 0 || m > links.len() {
        0
    } else {
        let earlier = placed_sources_over(links, n, v, (m - 1) as nat);
        let e = links[m - 1];
        if e.1 == v && settled_within(links, e.0, n) {
            let here = depth_within(links, e.0, n) + 1;
            if here > earlier { here } else { earlier }
        } else {
            earlier
        }
    }
}

/// The largest `pre_level` among the first `m` nodes.
pub open spec fn max_pre_level(links: Seq<Link>, n: nat, m: nat) -> nat
    decreases m,
{
    if m == 0 {
        0
    } else {
        let earlier = max_pre_level(links, n, (m - 1) as nat);
        let here = pre_level(links, n, (m - 1) as nat);
        if here > earlier { here } else { earlier }
    }
}

/// The column of each node of a diagram with `n` nodes: placed nodes (those
/// not caught in or behind a cycle) one column after the furthest node with
/// an edge into them, and the others all on the last column reached.
pub open spec fn diagram_level(links: Seq<Link>, n: nat, v: nat) -> nat {
    if settled_within(links, v, n) {
        depth_within(links, v, n)
    } else {
        max_pre_level(links, n, n)
    }
}

/// Placing more rounds keeps a placed node placed, at the same column.
pub proof fn lemma_settled_stable(links: Seq<Link>, v: nat, k: nat)
    requires
        settled_within(links, v, k),
    ensures
        settled_within(links, v, k + 1),
        depth_within(links, v, k + 1) == depth_within(links, v, k),
    decreases k, 1nat, 0nat,
{
    lemma_sources_stable(links, v, k, links.len());
}

proof fn lemma_sources_stable(links: Seq<Link>, v: nat, k: nat, m: nat)
    requires
        k > 0,
        m <= links.len(),
        settled_sources(links, v, k, m),
    ensures
        settled_sources(links, v, k + 1, m),
        depth_over(links, v, k + 1, m) == depth_over(links, v, k, m),
    decreases k, 0nat, m,
{
    if m > 0 {
        lemma_sources_stable(links, v, k, (m - 1) as nat);
        let u = links[m - 1].0;
        if links[m - 1].1 == v {
            assert(settled_within(links, u, (k - 1) as nat));
            lemma_settled_stable(links, u, (k - 1) as nat);
            assert(((k + 1) - 1) as nat == k);
            assert(depth_within(links, u, k) == depth_within(links, u, (k - 1) as nat));
        }
    }
}

/// Placing more rounds, any number of them, keeps a placed node placed at
/// the same column.
pub proof fn lemma_settled_mono(links: Seq<Link>, v: nat, k: nat, k2: nat)
    requires
        settled_within(links, v, k),
        k <= k2,
    ensures
        settled_within(links, v, k2),
        depth_within(links, v, k2) == depth_within(links, v, k),
    decreases k2 - k,
{
    if k < k2 {
        lemma_settled_stable(links, v, k);
        lemma_settled_mono(links, v, k + 1, k2);
    }
}

/// The number of the first `m` links into `t` whose source is not yet
/// placed.
spec fn pending_into(links: Seq<Link>, popped: Seq<bool>, t: nat, m: nat) -> nat
    decreases m,
{
    if m == 0 || m > links.len() {
        0
    } else {
        let e = links[m - 1];
        pending_into(links, popped, t, (m - 1) as nat) + if e.1 == t && !popped[e.0 as int] {
            1nat
        } else {
            0nat
        }
    }
}

/// The number of the first `m` links from `p` to `t`.
spec fn count_from(links: Seq<Link>, p: nat, t: nat, m: nat) -> nat
    decreases m,
{
    if m == 0 || m > links.len() {
        0
    } else {
        let e = links[m - 1];
        count_from(links, p, t, (m - 1) as nat) + if e.0 == p && e.1 == t {
            1nat
        } else {
            0nat
        }
    }
}

/// One past the furthest placed source among the first `m` links into `t`,
/// by the columns in `levels`.
spec fn reach_into(links: Seq<Link>, popped: Seq<bool>, levels: Seq<usize>, t: nat, m: nat) -> nat
    decreases m,
{
    if m == 0 || m > links.len() {
        0
    } else {
        let earlier = reach_into(links, popped, levels, t, (m - 1) as nat);
        let e = links[m - 1];
        if e.1 == t && popped[e.0 as int] {
            let here = levels[e.0 as int] + 1;
            if here > earlier { here as nat } else { earlier }
        } else {
            earlier
        }
    }
}

/// `lp + 1` if one of the first `m` links goes from `p` to `t`, else 0.
spec fn reach_from(links: Seq<Link>, p: nat, lp: nat, t: nat, m: nat) -> nat
    decreases m,
{
    if m == 0 || m > links.len() {
        0
    } else if links[m - 1].0 == p && links[m - 1].1 == t {
        lp + 1
    } else {
        reach_from(links, p, lp, t, (m - 1) as nat)
    }
}

spec fn nat_max(a: nat, b: nat) -> nat {
    if a > b { a } else { b }
}

/// Every link joins two of the `n` nodes.
pub open spec fn links_within(links: Seq<Link>, n: nat) -> bool {
    forall|j: int| 0 <= j < links.len() ==> #[trigger] links[j].0 < n && links[j].1 < n
}

proof fn lemma_pending_split(links: Seq<Link>, popped: Seq<bool>, p: nat, t: nat, m: nat)
    requires
        links_within(links, popped.len()),
        p < popped.len(),
        !popped[p as int],
        m <= links.len(),
    ensures
        pending_into(links, popped.update(p as int, true), t, m) + count_from(links, p, t, m)
            == pending_into(links, popped, t, m),
    decreases m,
{
    if m > 0 {
        lemma_pending_split(links, popped, p, t, (m - 1) as nat);
        let e = links[m - 1];
        assert(e.0 < popped.len());
    }
}

proof fn lemma_pending_zero(links: Seq<Link>, popped: Seq<bool>, t: nat, m: nat)
    requires
        pending_into(links, popped, t, m) == 0,
        m <= links.len(),
    ensures
        forall|j: int| 0 <= j < m && #[trigger] links[j].1 == t ==> popped[links[j].0 as int],
    decreases m,
{
    if m > 0 {
        lemma_pending_zero(links, popped, t, (m - 1) as nat);
    }
}

proof fn lemma_reach_split(
    links: Seq<Link>,
    popped: Seq<bool>,
    levels0: Seq<usize>,
    levels: Seq<usize>,
    p: nat,
    t: nat,
    m: nat,
)
    requires
        links_within(links, popped.len()),
        p < popped.len(),
        levels0.len() == popped.len(),
        levels.len() == popped.len(),
        levels[p as int] == levels0[p as int],
        forall|u: int| 0 <= u < popped.len() && #[trigger] popped[u] ==> levels[u] == levels0[u],
        m <= links.len(),
    ensures
        reach_into(links, popped.update(p as int, true), levels, t, m) == nat_max(
            reach_into(links, popped, levels0, t, m),
            reach_from(links, p, levels0[p as int] as nat, t, m),
        ),
    decreases m,
{
    if m > 0 {
        lemma_reach_split(links, popped, levels0, levels, p, t, (m - 1) as nat);
        let e = links[m - 1];
        assert(e.0 < popped.len());
        lemma_reach_from_value(links, p, levels0[p as int] as nat, t, (m - 1) as nat);
    }
}

proof fn lemma_reach_from_value(links: Seq<Link>, p: nat, lp: nat, t: nat, m: nat)
    ensures
        reach_from(links, p, lp, t, m) == 0 || reach_from(links, p, lp, t, m) == lp + 1,
    decreases m,
{
    if m > 0 {
        lemma_reach_from_value(links, p, lp, t, (m - 1) as nat);
    }
}

proof fn lemma_reach_none(links: Seq<Link>, popped: Seq<bool>, levels: Seq<usize>, t: nat, m: nat)
    requires
        forall|u: int| 0 <= u < popped.len() ==> !#[trigger] popped[u],
        links_within(links, popped.len()),
        m <= links.len(),
    ensures
        reach_into(links, popped, levels, t, m) == 0,
    decreases m,
{
    if m > 0 {
        lemma_reach_none(links, popped, levels, t, (m - 1) as nat);
        assert(links[m - 1].0 < popped.len());
    }
}

/// A node whose every upstream node is placed within `k` rounds is placed
/// within `k + 1`, one column past the furthest of them.
proof fn lemma_settle_on_pop(
    links: Seq<Link>,
    popped: Seq<bool>,
    levels: Seq<usize>,
    t: nat,
    k: nat,
    m: nat,
)
    requires
        links_within(links, popped.len()),
        levels.len() == popped.len(),
        m <= links.len(),
        forall|j: int| 0 <= j < m && #[trigger] links[j].1 == t ==> popped[links[j].0 as int],
        forall|u: int|
            0 <= u < popped.len() && #[trigger] popped[u] ==> settled_within(links, u as nat, k)
                && depth_within(links, u as nat, k) == levels[u],
    ensures
        settled_sources(links, t, k + 1, m),
        depth_over(links, t, k + 1, m) == reach_into(links, popped, levels, t, m),
    decreases m,
{
    if m > 0 {
        lemma_settle_on_pop(links, popped, levels, t, k, (m - 1) as nat);
        let e = links[m - 1];
        assert(e.0 < popped.len());
        assert(((k + 1) - 1) as nat == k);
        if e.1 == t {
            assert(popped[e.0 as int]);
        }
    }
}

/// With every node left unplaced still waiting on an unplaced source, a
/// node placed within some number of rounds is among the placed ones.
proof fn lemma_closed_world(links: Seq<Link>, popped: Seq<bool>, v: nat, k: nat)
    requires
        links_within(links, popped.len()),
        v < popped.len(),
        forall|u: int|
            0 <= u < popped.len() && !#[trigger] popped[u] ==> pending_into(
                links,
                popped,
                u as nat,
                links.len(),
            ) > 0,
        settled_within(links, v, k),
    ensures
        popped[v as int],
    decreases k, 1nat, 0nat,
{
    lemma_closed_sources(links, popped, v, k, links.len());
}

proof fn lemma_closed_sources(links: Seq<Link>, popped: Seq<bool>, v: nat, k: nat, m: nat)
    requires
        links_within(links, popped.len()),
        forall|u: int|
            0 <= u < popped.len() && !#[trigger] popped[u] ==> pending_into(
                links,
                popped,
                u as nat,
                links.len(),
            ) > 0,
        k > 0,
        m <= links.len(),
        settled_sources(links, v, k, m),
    ensures
        pending_into(links, popped, v, m) == 0,
    decreases k, 0nat, m,
{
    if m > 0 {
        lemma_closed_sources(links, popped, v, k, (m - 1) as nat);
        let e = links[m - 1];
        assert(e.0 < popped.len());
        if e.1 == v {
            lemma_closed_world(links, popped, e.0, (k - 1) as nat);
        }
    }
}

/// Once the placed nodes are exactly the settled ones, at their depths, the
/// reach of the placed sources is the column the spec gives.
proof fn lemma_reach_is_placed(
    links: Seq<Link>,
    n: nat,
    popped: Seq<bool>,
    levels: Seq<usize>,
    v: nat,
    m: nat,
)
    requires
        popped.len() == n,
        levels.len() == n,
        links_within(links, n),
        m <= links.len(),
        forall|u: int|
            0 <= u < n ==> (#[trigger] popped[u] <==> settled_within(links, u as nat, n)),
        forall|u: int|
            0 <= u < n && #[trigger] popped[u] ==> levels[u] == depth_within(links, u as nat, n),
    ensures
        reach_into(links, popped, levels, v, m) == placed_sources_over(links, n, v, m),
    decreases m,
{
    if m > 0 {
        lemma_reach_is_placed(links, n, popped, levels, v, (m - 1) as nat);
        let e = links[m - 1];
        assert(e.0 < n);
        assert(popped[e.0 as int] == settled_within(links, e.0, n));
    }
}

/// A list of distinct positions below `n` holds at most `n` of them.
proof fn lemma_distinct_below(s: Seq<usize>, n: nat)
    requires
        s.no_duplicates(),
        forall|i: int| 0 <= i < s.len() ==> #[trigger] s[i] < n,
    ensures
        s.len() <= n,
{
    let m = s.map_values(|x: usize| x as int);
    assert(m.no_duplicates()) by {
        assert forall|i: int, j: int| 0 <= i < m.len() && 0 <= j < m.len() && i != j implies m[i]
            != m[j] by {
            assert(s[i] != s[j]);
        }
    }
    m.unique_seq_to_set();
    vstd::set_lib::lemma_int_range(0, n as int);
    assert(m.to_set().subset_of(vstd::set_lib::set_int_range(0, n as int))) by {
        assert forall|x: int| m.to_set().contains(x) implies vstd::set_lib::set_int_range(
            0,
            n as int,
        ).contains(x) by {
            let i = choose|i: int| 0 <= i < m.len() && m[i] == x;
            assert(s[i] < n);
        }
    }
    vstd::set_lib::lemma_len_subset(m.to_set(), vstd::set_lib::set_int_range(0, n as int));
}

/// Links held as pairs of positions, taken as plain numbers.
pub open spec fn link_view(links: Seq<(usize, usize)>) -> Seq<Link> {
    links.map_values(|e: (usize, usize)| (e.0 as nat, e.1 as nat))
}

/// The column of each of `n` nodes joined by `links`: nodes are placed in
/// rounds, each once every source of an edge into it is placed, one column
/// past the furthest of those sources; the nodes that are never placed go to
/// the last column that any node reached.
pub fn place_levels(n: usize, links: &Vec<(usize, usize)>) -> (levels: Vec<usize>)
    requires
        links_within(link_view(links@), n as nat),
    ensures
        levels@.len() == n,
        forall|v: int| 0 <= v < n ==> #[trigger] levels@[v] == diagram_level(
            link_view(links@),
            n as nat,
            v as nat,
        ),
{
    let ghost lk = link_view(links@);
    let ghost len = links@.len();
    let mut indeg: Vec<usize> = Vec::new();
    let mut levels: Vec<usize> = Vec::new();
    let mut popped: Vec<bool> = Vec::new();
    let mut i: usize = 0;
    while i < n
        invariant
            i <= n,
            indeg@.len() == i,
            levels@.len() == i,
            popped@.len() == i,
            forall|u: int| 0 <= u < i ==> indeg@[u] == 0 && levels@[u] == 0 && !popped@[u],
        decreases n - i,
    {
        indeg.push(0);
        levels.push(0);
        popped.push(false);
        i = i + 1;
    }
    let mut j: usize = 0;
    while j < links.len()
        invariant
            lk == link_view(links@),
            len == links@.len(),
            links_within(lk, n as nat),
            j <= len,
            indeg@.len() == n,
            popped@.len() == n,
            forall|u: int| 0 <= u < n ==> !#[trigger] popped@[u],
            forall|t: int| 0 <= t < n ==> #[trigger] indeg@[t] == pending_into(lk, popped@, t as nat, j as nat),
        decreases len - j,
    {
        let t = links[j].1;
        assert(lk[j as int].1 == t);
        assert(t < n);
        proof {
            lemma_pending_bound(lk, popped@, t as nat, j as nat);
        }
        indeg.set(t, indeg[t] + 1);
        j = j + 1;
    }
    proof {
        assert forall|t: int| 0 <= t < n implies #[trigger] reach_into(lk, popped@, levels@, t as nat, len) == 0 by {
            lemma_reach_none(lk, popped@, levels@, t as nat, len);
        }
    }
    let mut queue: Vec<usize> = Vec::new();
    let mut v: usize = 0;
    while v < n
        invariant
            v <= n,
            indeg@.len() == n,
            forall|a: int, b: int| 0 <= a < b < queue@.len() ==> queue@[a] < queue@[b],
            forall|a: int| 0 <= a < queue@.len() ==> #[trigger] queue@[a] < v && indeg@[queue@[a] as int] == 0,
            forall|u: int| 0 <= u < v && #[trigger] indeg@[u] == 0 ==> exists|a: int| 0 <= a < queue@.len() && queue@[a] == u,
        decreases n - v,
    {
        if indeg[v] == 0 {
            let ghost before = queue@;
            queue.push(v);
            proof {
                assert forall|u: int| 0 <= u < v + 1 && #[trigger] indeg@[u] == 0 implies exists|a: int| 0 <= a < queue@.len() && queue@[a] == u by {
                    if u == v {
                        assert(queue@[before.len() as int] == v);
                    } else {
                        let a = choose|a: int| 0 <= a < before.len() && before[a] == u;
                        assert(queue@[a] == u);
                    }
                }
            }
        }
        v = v + 1;
    }
    let mut head: usize = 0;
    while head < queue.len()
        invariant
            lk == link_view(links@),
            len == links@.len(),
            links_within(lk, n as nat),
            indeg@.len() == n,
            levels@.len() == n,
            popped@.len() == n,
            head <= queue@.len(),
            queue@.no_duplicates(),
            forall|a: int| 0 <= a < queue@.len() ==> #[trigger] queue@[a] < n,
            forall|a: int| 0 <= a < head ==> popped@[#[trigger] queue@[a] as int],
            forall|a: int| head <= a < queue@.len() ==> !popped@[#[trigger] queue@[a] as int] && indeg@[queue@[a] as int] == 0,
            forall|u: int| 0 <= u < n && !#[trigger] popped@[u] && indeg@[u] == 0 ==> exists|a: int| head <= a < queue@.len() && queue@[a] == u,
            forall|t: int| 0 <= t < n ==> #[trigger] indeg@[t] == pending_into(lk, popped@, t as nat, len),
            forall|t: int| 0 <= t < n && !#[trigger] popped@[t] ==> levels@[t] == reach_into(lk, popped@, levels@, t as nat, len),
            forall|t: int| 0 <= t < n && #[trigger] popped@[t] ==> settled_within(lk, t as nat, head as nat) && depth_within(lk, t as nat, head as nat) == levels@[t],
            forall|e: int| 0 <= e < len && #[trigger] popped@[lk[e].1 as int] ==> popped@[lk[e].0 as int],
            forall|t: int| 0 <= t < n ==> #[trigger] levels@[t] <= head,
        decreases n - head,
    {
        proof {
            lemma_distinct_below(queue@, n as nat);
        }
        let p = queue[head];
        let ghost popped0 = popped@;
        let ghost levels0 = levels@;
        let ghost indeg0 = indeg@;
        let ghost head0 = head as nat;
        proof {
            lemma_pending_zero(lk, popped0, p as nat, len);
            lemma_settle_on_pop(lk, popped0, levels0, p as nat, head0, len);
            assert forall|t: int| 0 <= t < n && #[trigger] popped0[t] implies settled_within(lk, t as nat, head0 + 1) && depth_within(lk, t as nat, head0 + 1) == levels0[t] by {
                lemma_settled_stable(lk, t as nat, head0);
            }
            assert forall|t: int| 0 <= t < n implies pending_into(lk, popped0.update(p as int, true), t as nat, len) + count_from(lk, p as nat, t as nat, len) == #[trigger] pending_into(lk, popped0, t as nat, len) by {
                lemma_pending_split(lk, popped0, p as nat, t as nat, len);
            }
            assert forall|e: int| 0 <= e < len && #[trigger] lk[e].0 == p implies !popped0[lk[e].1 as int] && lk[e].1 != p by {
                if lk[e].1 == p {
                    assert(popped0[lk[e].0 as int]);
                }
            }
        }
        popped.set(p, true);
        head = head + 1;
        let lp = levels[p];
        let mut j: usize = 0;
        while j < links.len()
            invariant
                lk == link_view(links@),
                len == links@.len(),
                links_within(lk, n as nat),
                p < n,
                !popped0[p as int],
                popped0.len() == n,
                levels0.len() == n,
                lp == levels0[p as int],
                lp <= head0,
                head == head0 + 1,
                j <= len,
                indeg@.len() == n,
                levels@.len() == n,
                popped@ == popped0.update(p as int, true),
                head <= queue@.len(),
                queue@.no_duplicates(),
                forall|a: int| 0 <= a < queue@.len() ==> #[trigger] queue@[a] < n,
                forall|a: int| 0 <= a < head ==> popped@[#[trigger] queue@[a] as int],
                forall|a: int| head <= a < queue@.len() ==> !popped@[#[trigger] queue@[a] as int] && indeg@[queue@[a] as int] == 0,
                forall|u: int| 0 <= u < n && !#[trigger] popped@[u] && indeg@[u] == 0 ==> exists|a: int| head <= a < queue@.len() && queue@[a] == u,
                forall|t: int| 0 <= t < n ==> #[trigger] indeg@[t] + count_from(lk, p as nat, t as nat, j as nat) == pending_into(lk, popped0, t as nat, len),
                forall|t: int| 0 <= t < n ==> pending_into(lk, popped@, t as nat, len) + count_from(lk, p as nat, t as nat, len) == #[trigger] pending_into(lk, popped0, t as nat, len),
                forall|t: int| 0 <= t < n && !#[trigger] popped@[t] ==> levels@[t] == nat_max(reach_into(lk, popped0, levels0, t as nat, len), reach_from(lk, p as nat, lp as nat, t as nat, j as nat)),
                forall|t: int| 0 <= t < n && #[trigger] popped@[t] ==> levels@[t] == levels0[t],
                forall|e: int| 0 <= e < len && #[trigger] lk[e].0 == p ==> !popped0[lk[e].1 as int] && lk[e].1 != p,
                forall|t: int| 0 <= t < n ==> #[trigger] levels@[t] <= head,
            decreases len - j,
        {
            let e = links[j];
            assert(lk[j as int] == (e.0 as nat, e.1 as nat));
            if e.0 == p {
                let t = e.1;
                proof {
                    lemma_count_from_bound(lk, p as nat, t as nat, j as nat);
                    lemma_count_from_mono(lk, p as nat, t as nat, (j + 1) as nat, len);
                    assert(!popped@[t as int]);
                }
                assert(indeg@[t as int] >= 1);
                let ghost levels_before = levels@;
                if levels[t] < lp + 1 {
                    levels.set(t, lp + 1);
                }
                proof {
                    assert forall|u: int| 0 <= u < n && !#[trigger] popped@[u] implies levels@[u] == nat_max(reach_into(lk, popped0, levels0, u as nat, len), reach_from(lk, p as nat, lp as nat, u as nat, (j + 1) as nat)) by {
                        lemma_reach_from_value(lk, p as nat, lp as nat, u as nat, j as nat);
                        if u != t {
                            assert(reach_from(lk, p as nat, lp as nat, u as nat, (j + 1) as nat) == reach_from(lk, p as nat, lp as nat, u as nat, j as nat));
                        } else {
                            assert(reach_from(lk, p as nat, lp as nat, u as nat, (j + 1) as nat) == lp + 1);
                        }
                    }
                }
                let ghost indeg_before = indeg@;
                let d = indeg[t] - 1;
                indeg.set(t, d);
                if d == 0 {
                    let ghost before = queue@;
                    proof {
                        assert forall|a: int| 0 <= a < before.len() implies before[a] != t by {
                            if a >= head {
                                assert(indeg_before[before[a] as int] == 0);
                            } else {
                                assert(popped@[before[a] as int]);
                            }
                        }
                    }
                    queue.push(t);
                    proof {
                        assert(queue@[before.len() as int] == t);
                        assert forall|u: int| 0 <= u < n && !#[trigger] popped@[u] && indeg@[u] == 0 implies exists|a: int| head <= a < queue@.len() && queue@[a] == u by {
                            if u != t {
                                assert(indeg_before[u] == 0);
                                let a = choose|a: int| head <= a < before.len() && before[a] == u;
                                assert(queue@[a] == u);
                            }
                        }
                    }
                } else {
                    proof {
                        assert forall|u: int| 0 <= u < n && !#[trigger] popped@[u] && indeg@[u] == 0 implies exists|a: int| head <= a < queue@.len() && queue@[a] == u by {
                            assert(indeg_before[u] == 0);
                        }
                    }
                }
            }
            j = j + 1;
        }
        proof {
            assert forall|t: int| 0 <= t < n && !#[trigger] popped@[t] implies levels@[t] == reach_into(lk, popped@, levels@, t as nat, len) by {
                assert(popped@[p as int]);
                assert forall|u: int| 0 <= u < n && #[trigger] popped0[u] implies levels@[u] == levels0[u] by {
                    assert(popped@[u]);
                }
                lemma_reach_split(lk, popped0, levels0, levels@, p as nat, t as nat, len);
            }
        }
    }
    proof {
        assert forall|u: int| 0 <= u < n && !#[trigger] popped@[u] implies pending_into(lk, popped@, u as nat, len) > 0 by {
            if indeg@[u] == 0 {
                let a = choose|a: int| head <= a < queue@.len() && queue@[a] == u;
            }
        }
        lemma_distinct_below(queue@, n as nat);
        assert forall|u: int| 0 <= u < n implies (#[trigger] popped@[u] <==> settled_within(lk, u as nat, n as nat)) by {
            if popped@[u] {
                lemma_settled_mono(lk, u as nat, head as nat, n as nat);
            } else if settled_within(lk, u as nat, n as nat) {
                lemma_closed_world(lk, popped@, u as nat, n as nat);
            }
        }
        assert forall|u: int| 0 <= u < n && #[trigger] popped@[u] implies levels@[u] == depth_within(lk, u as nat, n as nat) by {
            lemma_settled_mono(lk, u as nat, head as nat, n as nat);
        }
        assert forall|u: int| 0 <= u < n implies #[trigger] levels@[u] == pre_level(lk, n as nat, u as nat) by {
            if !popped@[u] {
                lemma_reach_is_placed(lk, n as nat, popped@, levels@, u as nat, len);
            }
        }
    }
    let mut fallback: usize = 0;
    let mut w: usize = 0;
    while w < n
        invariant
            w <= n,
            levels@.len() == n,
            forall|u: int| 0 <= u < n ==> #[trigger] levels@[u] == pre_level(lk, n as nat, u as nat),
            fallback == max_pre_level(lk, n as nat, w as nat),
        decreases n - w,
    {
        if levels[w] > fallback {
            fallback = levels[w];
        }
        w = w + 1;
    }
    let ghost placed = popped@;
    let mut w: usize = 0;
    while w < n
        invariant
            w <= n,
            levels@.len() == n,
            popped@ == placed,
            placed.len() == n,
            fallback == max_pre_level(lk, n as nat, n as nat),
            forall|u: int| 0 <= u < n ==> (#[trigger] placed[u] <==> settled_within(lk, u as nat, n as nat)),
            forall|u: int| 0 <= u < w ==> #[trigger] levels@[u] == diagram_level(lk, n as nat, u as nat),
            forall|u: int| w <= u < n ==> #[trigger] levels@[u] == pre_level(lk, n as nat, u as nat),
        decreases n - w,
    {
        if !popped[w] {
            levels.set(w, fallback);
        }
        w = w + 1;
    }
    levels
}

proof fn lemma_pending_bound(links: Seq<Link>, popped: Seq<bool>, t: nat, m: nat)
    ensures
        pending_into(links, popped, t, m) <= m,
    decreases m,
{
    if m > 0 {
        lemma_pending_bound(links, popped, t, (m - 1) as nat);
    }
}

proof fn lemma_count_from_bound(links: Seq<Link>, p: nat, t: nat, m: nat)
    requires
        m < links.len(),
        links[m as int].0 == p,
        links[m as int].1 == t,
    ensures
        count_from(links, p, t, (m + 1) as nat) == count_from(links, p, t, m) + 1,
{
}

proof fn lemma_count_from_mono(links: Seq<Link>, p: nat, t: nat, m: nat, m2: nat)
    requires
        m <= m2 <= links.len(),
    ensures
        count_from(links, p, t, m) <= count_from(links, p, t, m2),
    decreases m2 - m,
{
    if m < m2 {
        lemma_count_from_mono(links, p, t, m, (m2 - 1) as nat);
    }
}

/// The position of the last node of `ids` among the first `m` whose id is
/// `id`: a later node with the same id replaces an earlier one.
pub open spec fn index_of_id(ids: Seq<Seq<char>>, id: Seq<char>, m: nat) -> Option<nat>
    decreases m,
{
    if m == 0 || m > ids.len() {
        None
    } else if ids[m - 1] == id {
        Some((m - 1) as nat)
    } else {
        index_of_id(ids, id, (m - 1) as nat)
    }
}

/// The first `m` edges, by the ids of their ends, as links between node
/// positions; an edge with an end that names no node is left out.
pub open spec fn resolved_links(ids: Seq<Seq<char>>, edges: Seq<(Seq<char>, Seq<char>)>, m: nat) -> Seq<Link>
    decreases m,
{
    if m == 0 || m > edges.len() {
        Seq::empty()
    } else {
        let earlier = resolved_links(ids, edges, (m - 1) as nat);
        match (index_of_id(ids, edges[m - 1].0, ids.len()), index_of_id(ids, edges[m - 1].1, ids.len())) {
            (Some(a), Some(b)) => earlier.push((a, b)),
            _ => earlier,
        }
    }
}

/// Node ids as character sequences.
pub open spec fn ids_view(ids: Seq<String>) -> Seq<Seq<char>> {
    ids.map_values(|s: String| s@)
}

/// Edges, each from one id to another, as character sequences.
pub open spec fn edges_view(edges: Seq<(String, String)>) -> Seq<(Seq<char>, Seq<char>)> {
    edges.map_values(|e: (String, String)| (e.0@, e.1@))
}

/// The column of every node of the diagram.
pub open spec fn columns_of(links: Seq<Link>, n: nat) -> Seq<nat> {
    Seq::new(n, |v: int| diagram_level(links, n, v as nat))
}

/// How many of the first `m` nodes sit on column `c`.
pub open spec fn nodes_on(cols: Seq<nat>, c: nat, m: nat) -> nat
    decreases m,
{
    if m == 0 || m > cols.len() {
        0
    } else {
        nodes_on(cols, c, (m - 1) as nat) + if cols[m - 1] == c {
            1nat
        } else {
            0nat
        }
    }
}

/// The furthest column among the first `m` nodes (0 when there are none).
pub open spec fn last_column(cols: Seq<nat>, m: nat) -> nat
    decreases m,
{
    if m == 0 || m > cols.len() {
        0
    } else {
        let earlier = last_column(cols, (m - 1) as nat);
        if cols[m - 1] > earlier { cols[m - 1] } else { earlier }
    }
}

/// Where each node of a diagram goes: its column, its row within the
/// column, how many nodes each column holds, and the edges as links between
/// node positions.
pub struct DiagramLayout {
    pub levels: Vec<usize>,
    pub rows: Vec<usize>,
    pub column_sizes: Vec<usize>,
    pub links: Vec<(usize, usize)>,
}

/// The position of the last node whose id is `id`.
pub fn node_index(ids: &Vec<String>, id: &String) -> (found: Option<usize>)
    ensures
        match found {
            Some(i) => index_of_id(ids_view(ids@), id@, ids@.len()) == Some(i as nat),
            None => index_of_id(ids_view(ids@), id@, ids@.len()) is None,
        },
{
    let ghost view = ids_view(ids@);
    let mut k: usize = ids.len();
    while k > 0
        invariant
            k <= ids@.len(),
            view == ids_view(ids@),
            index_of_id(view, id@, ids@.len()) == index_of_id(view, id@, k as nat),
        decreases k,
    {
        if same_text(ids[k - 1].as_str(), id.as_str()) {
            assert(view[k - 1] == ids@[k - 1]@);
            return Some(k - 1);
        }
        assert(view[k - 1] == ids@[k - 1]@);
        k = k - 1;
    }
    None
}

proof fn lemma_index_of_id_bound(ids: Seq<Seq<char>>, id: Seq<char>, m: nat)
    requires
        m <= ids.len(),
    ensures
        match index_of_id(ids, id, m) {
            Some(i) => i < m,
            None => true,
        },
    decreases m,
{
    if m > 0 {
        lemma_index_of_id_bound(ids, id, (m - 1) as nat);
    }
}

/// The edges as links between node positions, in their order, without the
/// edges that name an unknown node.
pub fn resolve_links(node_ids: &Vec<String>, edges: &Vec<(String, String)>) -> (links: Vec<(usize, usize)>)
    ensures
        link_view(links@) == resolved_links(ids_view(node_ids@), edges_view(edges@), edges@.len()),
        links_within(link_view(links@), node_ids@.len()),
{
    let ghost ids = ids_view(node_ids@);
    let ghost es = edges_view(edges@);
    let mut links: Vec<(usize, usize)> = Vec::new();
    let mut j: usize = 0;
    while j < edges.len()
        invariant
            j <= edges@.len(),
            ids == ids_view(node_ids@),
            es == edges_view(edges@),
            link_view(links@) == resolved_links(ids, es, j as nat),
            links_within(link_view(links@), node_ids@.len()),
        decreases edges@.len() - j,
    {
        let from = node_index(node_ids, &edges[j].0);
        let to = node_index(node_ids, &edges[j].1);
        assert(es[j as int] == (edges@[j as int].0@, edges@[j as int].1@));
        proof {
            lemma_index_of_id_bound(ids, es[j as int].0, node_ids@.len());
            lemma_index_of_id_bound(ids, es[j as int].1, node_ids@.len());
        }
        match (from, to) {
            (Some(a), Some(b)) => {
                let ghost before = links@;
                links.push((a, b));
                assert(link_view(links@) == link_view(before).push((a as nat, b as nat)));
            },
            _ => {},
        }
        j = j + 1;
    }
    links
}

/// Lays out a diagram of nodes, known by their ids, joined by edges from
/// one id to another: the column of each node (see `place_levels`), its
/// row as the number of earlier nodes on the same column, the number of
/// nodes on each column up to the furthest one, and the edges that join
/// two known nodes.
pub fn diagram_layout(node_ids: &Vec<String>, edges: &Vec<(String, String)>) -> (layout: DiagramLayout)
    ensures
        ({
            let lk = resolved_links(ids_view(node_ids@), edges_view(edges@), edges@.len());
            let n = node_ids@.len();
            let cols = columns_of(lk, n);
            &&& link_view(layout.links@) == lk
            &&& layout.levels@.len() == n
            &&& layout.rows@.len() == n
            &&& forall|v: int| 0 <= v < n ==> #[trigger] layout.levels@[v] == cols[v]
            &&& forall|v: int| 0 <= v < n ==> #[trigger] layout.rows@[v] == nodes_on(cols, cols[v], v as nat)
            &&& layout.column_sizes@.len() == last_column(cols, n) + 1
            &&& forall|c: int| 0 <= c < layout.column_sizes@.len() ==> #[trigger] layout.column_sizes@[c] == nodes_on(cols, c as nat, n)
        }),
{
    let ghost lk = resolved_links(ids_view(node_ids@), edges_view(edges@), edges@.len());
    let n = node_ids.len();
    let ghost cols = columns_of(lk, n as nat);
    let links = resolve_links(node_ids, edges);
    let levels = place_levels(n, &links);
    assert(levels@.map_values(|x: usize| x as nat) == cols);
    let mut top: usize = 0;
    let mut v: usize = 0;
    while v < n
        invariant
            v <= n,
            levels@.len() == n,
            cols.len() == n,
            forall|u: int| 0 <= u < n ==> #[trigger] levels@[u] == cols[u],
            top == last_column(cols, v as nat),
            forall|u: int| 0 <= u < v ==> #[trigger] levels@[u] <= top,
        decreases n - v,
    {
        if levels[v] > top {
            top = levels[v];
        }
        v = v + 1;
    }
    let mut column_sizes: Vec<usize> = Vec::new();
    while column_sizes.len() <= top
        invariant
            column_sizes@.len() <= top + 1,
            forall|d: int| 0 <= d < column_sizes@.len() ==> #[trigger] column_sizes@[d] == 0,
        decreases top + 1 - column_sizes@.len(),
    {
        column_sizes.push(0);
    }
    let mut rows: Vec<usize> = Vec::new();
    let mut v: usize = 0;
    while v < n
        invariant
            v <= n,
            levels@.len() == n,
            cols.len() == n,
            forall|u: int| 0 <= u < n ==> #[trigger] levels@[u] == cols[u],
            forall|u: int| 0 <= u < n ==> #[trigger] levels@[u] <= top,
            column_sizes@.len() == top + 1,
            rows@.len() == v,
            forall|d: int| 0 <= d <= top ==> #[trigger] column_sizes@[d] == nodes_on(cols, d as nat, v as nat),
            forall|u: int| 0 <= u < v ==> #[trigger] rows@[u] == nodes_on(cols, cols[u], u as nat),
        decreases n - v,
    {
        let level = levels[v];
        let row = column_sizes[level];
        proof {
            lemma_nodes_on_bound(cols, level as nat, v as nat);
        }
        rows.push(row);
        column_sizes.set(level, row + 1);
        v = v + 1;
    }
    DiagramLayout { levels, rows, column_sizes, links }
}

proof fn lemma_nodes_on_bound(cols: Seq<nat>, c: nat, m: nat)
    ensures
        nodes_on(cols, c, m) <= m,
    decreases m,
{
    if m > 0 {
        lemma_nodes_on_bound(cols, c, (m - 1) as nat);
    }
}

proof fn lemma_sources_settled(links: Seq<Link>, v: nat, k: nat, m: nat)
    requires
        k > 0,
        m <= links.len(),
        settled_sources(links, v, k, m),
    ensures
        forall|j: int|
            0 <= j < m && #[trigger] links[j].1 == v ==> settled_within(links, links[j].0, (k - 1) as nat)
                && depth_within(links, links[j].0, (k - 1) as nat) + 1 <= depth_over(links, v, k, m),
    decreases m,
{
    if m > 0 {
        lemma_sources_settled(links, v, k, (m - 1) as nat);
    }
}

proof fn lemma_max_pre_level_bound(links: Seq<Link>, n: nat, u: nat, m: nat)
    requires
        u < m,
    ensures
        pre_level(links, n, u) <= max_pre_level(links, n, m),
    decreases m,
{
    if u < m - 1 {
        lemma_max_pre_level_bound(links, n, u, (m - 1) as nat);
    }
}

/// An edge into a placed node comes from a placed node on an earlier
/// column, so every edge drawn between placed nodes runs forward.
pub proof fn law_edges_into_placed_nodes_run_forward(links: Seq<Link>, n: nat, j: int)
    requires
        links_within(links, n),
        0 <= j < links.len(),
        settled_within(links, links[j].1, n),
    ensures
        settled_within(links, links[j].0, n),
        diagram_level(links, n, links[j].0) < diagram_level(links, n, links[j].1),
{
    let a = links[j].0;
    let b = links[j].1;
    lemma_sources_settled(links, b, n, links.len());
    lemma_settled_mono(links, a, (n - 1) as nat, n);
}

/// The nodes that are never placed (those in or behind a cycle) all share
/// one column, and no node lies beyond it.
pub proof fn law_unplaced_nodes_share_the_last_column(links: Seq<Link>, n: nat, v: nat, u: nat)
    requires
        v < n,
        u < n,
        !settled_within(links, v, n),
    ensures
        diagram_level(links, n, u) <= diagram_level(links, n, v),
{
    lemma_max_pre_level_bound(links, n, u, n);
}

/// A numbering of the `n` nodes below `n` that every edge climbs: such a
/// numbering exists exactly when the diagram has no cycle.
pub open spec fn climbs(links: Seq<Link>, order: Seq<nat>, n: nat) -> bool {
    &&& order.len() == n
    &&& forall|v: int| 0 <= v < n ==> #[trigger] order[v] < n
    &&& forall|j: int| 0 <= j < links.len() ==> order[#[trigger] links[j].0 as int] < order[links[j].1 as int]
}

proof fn lemma_climbing_sources(links: Seq<Link>, order: Seq<nat>, n: nat, v: nat, m: nat)
    requires
        links_within(links, n),
        climbs(links, order, n),
        v < n,
        m <= links.len(),
        forall|u: nat| u < n && order[u as int] < order[v as int] ==> #[trigger] settled_within(links, u, order[u as int] + 1),
    ensures
        settled_sources(links, v, order[v as int] + 1, m),
    decreases m,
{
    if m > 0 {
        lemma_climbing_sources(links, order, n, v, (m - 1) as nat);
        let e = links[m - 1];
        assert(e.0 < n && e.1 < n);
        if e.1 == v {
            assert(order[e.0 as int] < order[v as int]);
            assert(settled_within(links, e.0, order[e.0 as int] + 1));
            lemma_settled_mono(links, e.0, order[e.0 as int] + 1, order[v as int]);
            assert(((order[v as int] + 1) - 1) as nat == order[v as int]);
        }
    }
}

proof fn lemma_climbing_settles(links: Seq<Link>, order: Seq<nat>, n: nat, v: nat)
    requires
        links_within(links, n),
        climbs(links, order, n),
        v < n,
    ensures
        settled_within(links, v, order[v as int] + 1),
    decreases order[v as int],
{
    assert forall|u: nat| u < n && order[u as int] < order[v as int] implies #[trigger] settled_within(links, u, order[u as int] + 1) by {
        lemma_climbing_settles(links, order, n, u);
    }
    lemma_climbing_sources(links, order, n, v, links.len());
}

/// A diagram without cycles places every node: none is moved to the last
/// column, and every node sits one column past the furthest node with an
/// edge into it.
pub proof fn law_acyclic_diagrams_place_every_node(links: Seq<Link>, order: Seq<nat>, n: nat, v: nat)
    requires
        links_within(links, n),
        climbs(links, order, n),
        v < n,
    ensures
        settled_within(links, v, n),
        diagram_level(links, n, v) == depth_within(links, v, n),
{
    lemma_climbing_settles(links, order, n, v);
    lemma_settled_mono(links, v, order[v as int] + 1, n);
}

} // verus!
