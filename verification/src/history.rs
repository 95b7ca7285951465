use vstd::prelude::*;
use crate::chars::{chars_of, same_chars, string_of};
use crate::markdown::append;
use crate::textops::{split_words, words};

verus! {

/// A file changed by a commit, with its line counts when git reports them.
#[derive(Clone, Debug, PartialEq, Eq)]
pub struct CommitFileChange {
    pub path: String,
    pub original_path: Option<String>,
    pub additions: Option<usize>,
    pub deletions: Option<usize>,
}

/// A commit of the history: its hash, its parents' hashes, and the files it
/// changed.
#[derive(Clone, Debug, PartialEq, Eq)]
pub struct CommitEntry {
    pub hash: String,
    pub parents: Vec<String>,
    pub files: Vec<CommitFileChange>,
}

/// One row of the commit graph: the lane of the commit's node, the number
/// of lanes above and below the row, and the (upper lane, lower lane) pairs
/// that the row connects.
#[derive(Clone, Debug, PartialEq, Eq)]
pub struct HistoryGraphRow {
    pub node_lane: usize,
    pub top_lanes: usize,
    pub bottom_lanes: usize,
    pub connections: Vec<(usize, usize)>,
}

/// A graph row as plain values.
pub struct GraphRowView {
    pub node_lane: nat,
    pub top_lanes: nat,
    pub bottom_lanes: nat,
    pub connections: Seq<(nat, nat)>,
}

impl View for HistoryGraphRow {
    type V = GraphRowView;

    open spec fn view(&self) -> GraphRowView {
        GraphRowView {
            node_lane: self.node_lane as nat,
            top_lanes: self.top_lanes as nat,
            bottom_lanes: self.bottom_lanes as nat,
            connections: self.connections@.map_values(|c: (usize, usize)| (c.0 as nat, c.1 as nat)),
        }
    }
}

/// The first position at or after `from` that holds `hash`.
pub open spec fn lane_index_from(lanes: Seq<Seq<char>>, hash: Seq<char>, from: nat) -> Option<nat>
    decreases lanes.len() - from,
{
    if from >= lanes.len() {
        None
    } else if lanes[from as int] == hash {
        Some(from)
    } else {
        lane_index_from(lanes, hash, from + 1)
    }
}

/// The lane that holds `hash`.
pub open spec fn lane_index(lanes: Seq<Seq<char>>, hash: Seq<char>) -> Option<nat> {
    lane_index_from(lanes, hash, 0)
}

pub proof fn lemma_lane_index_bounds(lanes: Seq<Seq<char>>, hash: Seq<char>, from: nat)
    ensures
        lane_index_from(lanes, hash, from) matches Some(i) ==> from <= i < lanes.len() && lanes[i as int] == hash,
        lane_index_from(lanes, hash, from) is None ==> forall|k: int| from <= k < lanes.len() ==> lanes[k] != hash,
    decreases lanes.len() - from,
{
    if from < lanes.len() && lanes[from as int] != hash {
        lemma_lane_index_bounds(lanes, hash, from + 1);
    }
}

/// The lanes with the commit's node: its lane, or a new first lane when no
/// lane waits for it.
pub open spec fn lanes_with_node(lanes: Seq<Seq<char>>, hash: Seq<char>) -> (Seq<Seq<char>>, nat) {
    match lane_index(lanes, hash) {
        Some(i) => (lanes, i),
        None => (seq![hash] + lanes, 0),
    }
}

/// The lanes below a node: each parent that no lane waits for yet gets a
/// lane, inserted in order from position `at` on.
pub open spec fn insert_parents(lanes: Seq<Seq<char>>, parents: Seq<Seq<char>>, at: nat) -> Seq<Seq<char>>
    decreases parents.len(),
{
    if parents.len() == 0 {
        lanes
    } else if lanes.contains(parents[0]) {
        insert_parents(lanes, parents.drop_first(), at)
    } else {
        insert_parents(lanes.insert(at as int, parents[0]), parents.drop_first(), at + 1)
    }
}

/// The connections of the lanes that pass the node, among the first `n`
/// upper lanes: each upper lane but the node's to the lower lane of the same
/// commit.
pub open spec fn passing_connections(before: Seq<Seq<char>>, after: Seq<Seq<char>>, node: nat, n: nat) -> Seq<(nat, nat)>
    decreases n,
{
    if n == 0 {
        Seq::empty()
    } else {
        let earlier = passing_connections(before, after, node, (n - 1) as nat);
        let from = (n - 1) as nat;
        if from != node && lane_index(after, before[from as int]) is Some {
            earlier.push((from, lane_index(after, before[from as int])->0))
        } else {
            earlier
        }
    }
}

/// The connections from the node to the lanes of its first `n` parents.
pub open spec fn parent_connections(after: Seq<Seq<char>>, parents: Seq<Seq<char>>, node: nat, n: nat) -> Seq<(nat, nat)>
    decreases n,
{
    if n == 0 {
        Seq::empty()
    } else {
        let earlier = parent_connections(after, parents, node, (n - 1) as nat);
        match lane_index(after, parents[n - 1]) {
            Some(to) => earlier.push((node, to)),
            None => earlier,
        }
    }
}

/// The lanes below a commit's row.
pub open spec fn lanes_after(lanes: Seq<Seq<char>>, hash: Seq<char>, parents: Seq<Seq<char>>) -> Seq<Seq<char>> {
    let (before, node) = lanes_with_node(lanes, hash);
    let removed = before.remove(node as int);
    insert_parents(removed, parents, if node <= removed.len() { node } else { removed.len() })
}

/// The row of a commit drawn below `lanes`.
pub open spec fn graph_row(lanes: Seq<Seq<char>>, hash: Seq<char>, parents: Seq<Seq<char>>, first: bool) -> GraphRowView {
    let (before, node) = lanes_with_node(lanes, hash);
    let after = lanes_after(lanes, hash, parents);
    GraphRowView {
        node_lane: node,
        top_lanes: if first { 0 } else { before.len() },
        bottom_lanes: after.len(),
        connections: passing_connections(before, after, node, before.len()) + parent_connections(
            after,
            parents,
            node,
            parents.len(),
        ),
    }
}

/// A commit as its hash and its parents' hashes.
pub open spec fn commit_link(commit: CommitEntry) -> (Seq<char>, Seq<Seq<char>>) {
    (commit.hash@, commit.parents@.map_values(|p: String| p@))
}

/// The rows of the commits, drawn below `lanes`; `first` tells whether the
/// first of them is the top row.
pub open spec fn graph_rows_from(commits: Seq<(Seq<char>, Seq<Seq<char>>)>, lanes: Seq<Seq<char>>, first: bool) -> Seq<
    GraphRowView,
>
    decreases commits.len(),
{
    if commits.len() == 0 {
        Seq::empty()
    } else {
        let (hash, parents) = commits[0];
        seq![graph_row(lanes, hash, parents, first)] + graph_rows_from(
            commits.drop_first(),
            lanes_after(lanes, hash, parents),
            false,
        )
    }
}

/// The commit graph of a history, newest commit first: every commit is a
/// node on the lane that waits for its hash (or a new first lane), its lane
/// is then taken by those of its parents that no lane waits for yet, and
/// every other lane passes on.
pub open spec fn graph_rows(commits: Seq<CommitEntry>) -> Seq<GraphRowView> {
    graph_rows_from(commits.map_values(|c: CommitEntry| commit_link(c)), Seq::empty(), true)
}

pub open spec fn texts_view(texts: Seq<String>) -> Seq<Seq<char>> {
    texts.map_values(|t: String| t@)
}

fn lane_position(lanes: &Vec<String>, hash: &String) -> (found: Option<usize>)
    ensures
        match found {
            Some(i) => lane_index(texts_view(lanes@), hash@) == Some(i as nat),
            None => lane_index(texts_view(lanes@), hash@) is None,
        },
{
    let ghost lv = texts_view(lanes@);
    let h = chars_of(hash.as_str());
    let mut i: usize = 0;
    while i < lanes.len()
        invariant
            lv == texts_view(lanes@),
            h@ == hash@,
            i <= lanes@.len(),
            lane_index(lv, hash@) == lane_index_from(lv, hash@, i as nat),
        decreases lanes@.len() - i,
    {
        if same_chars(&chars_of(lanes[i].as_str()), &h) {
            return Some(i);
        }
        i = i + 1;
    }
    None
}

fn copy_texts(texts: &Vec<String>) -> (copy: Vec<String>)
    ensures
        texts_view(copy@) == texts_view(texts@),
{
    let mut copy: Vec<String> = Vec::new();
    let mut i: usize = 0;
    while i < texts.len()
        invariant
            i <= texts@.len(),
            texts_view(copy@) == texts_view(texts@.subrange(0, i as int)),
        decreases texts@.len() - i,
    {
        let ghost before = texts_view(copy@);
        let item = texts[i].clone();
        assert(item@ == texts@[i as int]@);
        copy.push(item);
        assert(texts_view(copy@) =~= before.push(texts@[i as int]@));
        i = i + 1;
        assert(texts_view(copy@) =~= texts_view(texts@.subrange(0, i as int)));
    }
    assert(texts@.subrange(0, texts@.len() as int) =~= texts@);
    copy
}

fn graph_row_of(lanes: &mut Vec<String>, commit: &CommitEntry, first: bool) -> (row: HistoryGraphRow)
    ensures
        row@ == graph_row(texts_view(old(lanes)@), commit.hash@, texts_view(commit.parents@), first),
        texts_view(final(lanes)@) == lanes_after(texts_view(old(lanes)@), commit.hash@, texts_view(commit.parents@)),
{
    let ghost start = texts_view(lanes@);
    let ghost hash = commit.hash@;
    let ghost parents = texts_view(commit.parents@);
    let found = lane_position(lanes, &commit.hash);
    let node_lane: usize = match found {
        Some(i) => i,
        None => {
            lanes.insert(0, commit.hash.clone());
            0
        },
    };
    let before = copy_texts(lanes);
    let ghost bv = texts_view(before@);
    proof {
        lemma_lane_index_bounds(start, hash, 0);
        match found {
            Some(i) => {
                assert(bv == start);
            },
            None => {
                assert(bv =~= seq![hash] + start);
            },
        }
        assert(lanes_with_node(start, hash).0 == bv);
        assert(lanes_with_node(start, hash).1 == node_lane as nat);
        assert(node_lane < bv.len());
    }
    let mut after = copy_texts(&before);
    after.remove(node_lane);
    let ghost removed = bv.remove(node_lane as int);
    assert(texts_view(after@) =~= removed);
    let mut insertion: usize = if node_lane <= after.len() { node_lane } else { after.len() };
    let ghost at0 = insertion as nat;
    let mut p: usize = 0;
    assert(parents.subrange(0, parents.len() as int) =~= parents);
    assert(parents.subrange(0, 0) =~= Seq::<Seq<char>>::empty());
    while p < commit.parents.len()
        invariant
            parents == texts_view(commit.parents@),
            bv == texts_view(before@),
            p <= parents.len(),
            insertion <= after@.len(),
            insert_parents(removed, parents, at0) == insert_parents(
                texts_view(after@),
                parents.subrange(p as int, parents.len() as int),
                insertion as nat,
            ),
        decreases parents.len() - p,
    {
        let ghost rest = parents.subrange(p as int, parents.len() as int);
        assert(rest.drop_first() =~= parents.subrange(p + 1, parents.len() as int));
        assert(rest[0] == commit.parents@[p as int]@);
        let parent = &commit.parents[p];
        match lane_position(&after, parent) {
            Some(_) => {
                proof {
                    lemma_lane_index_bounds(texts_view(after@), parent@, 0);
                    let k = (lane_index(texts_view(after@), parent@)->0) as int;
                    assert(texts_view(after@)[k] == parent@);
                    assert(texts_view(after@).contains(parent@));
                }
            },
            None => {
                proof {
                    lemma_lane_index_bounds(texts_view(after@), parent@, 0);
                    assert(!texts_view(after@).contains(parent@));
                }
                let ghost av = texts_view(after@);
                after.insert(insertion, parent.clone());
                assert(texts_view(after@) =~= av.insert(insertion as int, parent@));
                let grown = after.len();
                assert(insertion < grown);
                insertion = insertion + 1;
            },
        }
        p = p + 1;
    }
    let ghost avv = texts_view(after@);
    assert(avv == lanes_after(start, hash, parents));
    let mut connections: Vec<(usize, usize)> = Vec::new();
    let mut from: usize = 0;
    while from < before.len()
        invariant
            bv == texts_view(before@),
            avv == texts_view(after@),
            from <= bv.len(),
            connections@.map_values(|c: (usize, usize)| (c.0 as nat, c.1 as nat)) == passing_connections(
                bv,
                avv,
                node_lane as nat,
                from as nat,
            ),
        decreases bv.len() - from,
    {
        let ghost cv = connections@.map_values(|c: (usize, usize)| (c.0 as nat, c.1 as nat));
        if from != node_lane {
            match lane_position(&after, &before[from]) {
                Some(to) => {
                    connections.push((from, to));
                    assert(connections@.map_values(|c: (usize, usize)| (c.0 as nat, c.1 as nat)) =~= cv.push(
                        (from as nat, to as nat),
                    ));
                },
                None => {},
            }
        }
        from = from + 1;
    }
    let ghost passing = connections@.map_values(|c: (usize, usize)| (c.0 as nat, c.1 as nat));
    let mut q: usize = 0;
    while q < commit.parents.len()
        invariant
            parents == texts_view(commit.parents@),
            avv == texts_view(after@),
            q <= parents.len(),
            connections@.map_values(|c: (usize, usize)| (c.0 as nat, c.1 as nat)) == passing + parent_connections(
                avv,
                parents,
                node_lane as nat,
                q as nat,
            ),
        decreases parents.len() - q,
    {
        let ghost cv = connections@.map_values(|c: (usize, usize)| (c.0 as nat, c.1 as nat));
        assert(parents[q as int] == commit.parents@[q as int]@);
        match lane_position(&after, &commit.parents[q]) {
            Some(to) => {
                connections.push((node_lane, to));
                assert(connections@.map_values(|c: (usize, usize)| (c.0 as nat, c.1 as nat)) =~= cv.push(
                    (node_lane as nat, to as nat),
                ));
            },
            None => {},
        }
        q = q + 1;
    }
    let row = HistoryGraphRow {
        node_lane,
        top_lanes: if first { 0 } else { before.len() },
        bottom_lanes: after.len(),
        connections,
    };
    *lanes = after;
    row
}

/// The commit graph of a history (see `graph_rows`).
pub fn history_graph_rows(commits: &Vec<CommitEntry>) -> (rows: Vec<HistoryGraphRow>)
    ensures
        rows@.map_values(|r: HistoryGraphRow| r@) == graph_rows(commits@),
{
    let ghost links = commits@.map_values(|c: CommitEntry| commit_link(c));
    let mut lanes: Vec<String> = Vec::new();
    let mut rows: Vec<HistoryGraphRow> = Vec::new();
    let mut i: usize = 0;
    assert(links.subrange(0, links.len() as int) =~= links);
    assert(texts_view(lanes@) =~= Seq::<Seq<char>>::empty());
    while i < commits.len()
        invariant
            links == commits@.map_values(|c: CommitEntry| commit_link(c)),
            i <= commits@.len(),
            rows@.map_values(|r: HistoryGraphRow| r@) + graph_rows_from(
                links.subrange(i as int, links.len() as int),
                texts_view(lanes@),
                i == 0,
            ) == graph_rows(commits@),
        decreases commits@.len() - i,
    {
        let ghost rest = links.subrange(i as int, links.len() as int);
        let ghost before_rows = rows@.map_values(|r: HistoryGraphRow| r@);
        let ghost lv = texts_view(lanes@);
        assert(rest.drop_first() =~= links.subrange(i + 1, links.len() as int));
        assert(rest[0] == commit_link(commits@[i as int]));
        let row = graph_row_of(&mut lanes, &commits[i], i == 0);
        rows.push(row);
        proof {
            assert(rows@.map_values(|r: HistoryGraphRow| r@) =~= before_rows.push(row@));
            assert(before_rows.push(row@) + graph_rows_from(rest.drop_first(), texts_view(lanes@), false)
                =~= before_rows + (seq![row@] + graph_rows_from(rest.drop_first(), texts_view(lanes@), false)));
        }
        i = i + 1;
    }
    rows
}

proof fn lemma_passing_in_lanes(before: Seq<Seq<char>>, after: Seq<Seq<char>>, node: nat, n: nat)
    requires
        n <= before.len(),
    ensures
        forall|k: int| 0 <= k < passing_connections(before, after, node, n).len() ==> {
            let c = #[trigger] passing_connections(before, after, node, n)[k];
            c.0 < before.len() && c.1 < after.len()
        },
    decreases n,
{
    if n > 0 {
        lemma_passing_in_lanes(before, after, node, (n - 1) as nat);
        lemma_lane_index_bounds(after, before[n - 1], 0);
        let earlier = passing_connections(before, after, node, (n - 1) as nat);
        assert forall|k: int| 0 <= k < passing_connections(before, after, node, n).len() implies {
            let c = #[trigger] passing_connections(before, after, node, n)[k];
            c.0 < before.len() && c.1 < after.len()
        } by {
            if k < earlier.len() {
                assert(passing_connections(before, after, node, n)[k] == earlier[k]);
            }
        }
    }
}

proof fn lemma_parents_in_lanes(after: Seq<Seq<char>>, parents: Seq<Seq<char>>, node: nat, n: nat)
    requires
        n <= parents.len(),
    ensures
        forall|k: int| 0 <= k < parent_connections(after, parents, node, n).len() ==> {
            let c = #[trigger] parent_connections(after, parents, node, n)[k];
            c.0 == node && c.1 < after.len()
        },
    decreases n,
{
    if n > 0 {
        lemma_parents_in_lanes(after, parents, node, (n - 1) as nat);
        lemma_lane_index_bounds(after, parents[n - 1], 0);
        let earlier = parent_connections(after, parents, node, (n - 1) as nat);
        assert forall|k: int| 0 <= k < parent_connections(after, parents, node, n).len() implies {
            let c = #[trigger] parent_connections(after, parents, node, n)[k];
            c.0 == node && c.1 < after.len()
        } by {
            if k < earlier.len() {
                assert(parent_connections(after, parents, node, n)[k] == earlier[k]);
            }
        }
    }
}

/// Below the top row, a row's node sits on one of the lanes above it, and
/// every connection joins a lane above the row to a lane below it.
pub proof fn law_graph_rows_stay_within_their_lanes(lanes: Seq<Seq<char>>, hash: Seq<char>, parents: Seq<Seq<char>>)
    ensures
        ({
            let row = graph_row(lanes, hash, parents, false);
            &&& row.node_lane < row.top_lanes
            &&& forall|k: int| 0 <= k < row.connections.len() ==> (#[trigger] row.connections[k]).0 < row.top_lanes
                && row.connections[k].1 < row.bottom_lanes
        }),
{
    let (before, node) = lanes_with_node(lanes, hash);
    let after = lanes_after(lanes, hash, parents);
    lemma_lane_index_bounds(lanes, hash, 0);
    lemma_passing_in_lanes(before, after, node, before.len());
    lemma_parents_in_lanes(after, parents, node, parents.len());
    let passing = passing_connections(before, after, node, before.len());
    let linked = parent_connections(after, parents, node, parents.len());
    let row = graph_row(lanes, hash, parents, false);
    assert forall|k: int| 0 <= k < row.connections.len() implies (#[trigger] row.connections[k]).0 < row.top_lanes
        && row.connections[k].1 < row.bottom_lanes by {
        if k < passing.len() {
            assert(row.connections[k] == passing[k]);
        } else {
            assert(row.connections[k] == linked[k - passing.len()]);
        }
    }
}

/// The added and deleted line counts of the files (a missing count adding
/// nothing), and how many files lack a count.
pub open spec fn change_totals(files: Seq<CommitFileChange>) -> (nat, nat, nat)
    decreases files.len(),
{
    if files.len() == 0 {
        (0, 0, 0)
    } else {
        let (a, d, u) = change_totals(files.drop_last());
        let f = files.last();
        (
            a + match f.additions {
                Some(n) => n as nat,
                None => 0nat,
            },
            d + match f.deletions {
                Some(n) => n as nat,
                None => 0nat,
            },
            u + if f.additions is None || f.deletions is None { 1nat } else { 0nat },
        )
    }
}

proof fn lemma_totals_grow(files: Seq<CommitFileChange>, k: int)
    requires
        0 <= k <= files.len(),
    ensures
        change_totals(files.subrange(0, k)).0 <= change_totals(files).0,
        change_totals(files.subrange(0, k)).1 <= change_totals(files).1,
        change_totals(files).2 <= files.len(),
    decreases files.len(),
{
    if files.len() > 0 {
        if k < files.len() {
            assert(files.drop_last().subrange(0, k) =~= files.subrange(0, k));
            lemma_totals_grow(files.drop_last(), k);
        } else {
            assert(files.subrange(0, k) =~= files);
            lemma_totals_grow(files.drop_last(), 0);
        }
    }
}

/// The line totals of a commit (see `change_totals`), for totals that fit
/// in a `usize`.
pub fn commit_totals(commit: &CommitEntry) -> (totals: (usize, usize, usize))
    requires
        change_totals(commit.files@).0 <= usize::MAX,
        change_totals(commit.files@).1 <= usize::MAX,
    ensures
        (totals.0 as nat, totals.1 as nat, totals.2 as nat) == change_totals(commit.files@),
{
    let mut added: usize = 0;
    let mut deleted: usize = 0;
    let mut unknown: usize = 0;
    let mut i: usize = 0;
    assert(commit.files@.subrange(0, 0) =~= Seq::<CommitFileChange>::empty());
    while i < commit.files.len()
        invariant
            change_totals(commit.files@).0 <= usize::MAX,
            change_totals(commit.files@).1 <= usize::MAX,
            i <= commit.files@.len(),
            (added as nat, deleted as nat, unknown as nat) == change_totals(commit.files@.subrange(0, i as int)),
        decreases commit.files@.len() - i,
    {
        let file = &commit.files[i];
        proof {
            let next = commit.files@.subrange(0, i + 1);
            assert(next.drop_last() =~= commit.files@.subrange(0, i as int));
            lemma_totals_grow(commit.files@, i + 1);
            lemma_totals_grow(next, i as int);
        }
        added = added + match file.additions {
            Some(n) => n,
            None => 0,
        };
        deleted = deleted + match file.deletions {
            Some(n) => n,
            None => 0,
        };
        if file.additions.is_none() || file.deletions.is_none() {
            unknown = unknown + 1;
        }
        i = i + 1;
    }
    assert(commit.files@.subrange(0, commit.files@.len() as int) =~= commit.files@);
    (added, deleted, unknown)
}

/// The upper-case mapping of a character, as `char::to_uppercase` gives it.
pub uninterp spec fn uppercase_of(c: char) -> Seq<char>;

/// `char::to_uppercase`, collected: the upper-case mapping of the character
/// (the character itself when it has none), one or more characters.
#[verifier::external_body]
fn char_uppercase(c: char) -> (upper: Vec<char>)
    ensures
        upper@ == uppercase_of(c),
        upper@.len() >= 1,
{
    c.to_uppercase().collect()
}

/// The initials shown for an author: the upper-cased first letters of the
/// first two words of the name, or "?" for a name without words.
pub open spec fn author_initials_spec(author: Seq<char>) -> Seq<char> {
    let ws = words(author);
    let initials = if ws.len() == 0 {
        Seq::empty()
    } else if ws.len() == 1 {
        uppercase_of(ws[0][0])
    } else {
        uppercase_of(ws[0][0]) + uppercase_of(ws[1][0])
    };
    if initials.len() == 0 {
        "?"@
    } else {
        initials
    }
}

proof fn lemma_words_not_empty(s: Seq<char>, cur: Seq<char>)
    ensures
        forall|k: int| 0 <= k < crate::textops::words_from(s, cur).len() ==> (#[trigger] crate::textops::words_from(s, cur)[k]).len() > 0,
    decreases s.len(),
{
    if s.len() > 0 {
        if crate::textops::is_white_space(s[0]) {
            lemma_words_not_empty(s.drop_first(), Seq::empty());
            let head: Seq<Seq<char>> = if cur.len() > 0 { seq![cur] } else { Seq::empty() };
            let tail = crate::textops::words_from(s.drop_first(), Seq::empty());
            assert forall|k: int| 0 <= k < crate::textops::words_from(s, cur).len() implies (#[trigger] crate::textops::words_from(s, cur)[k]).len() > 0 by {
                if k < head.len() {
                    assert(crate::textops::words_from(s, cur)[k] == head[k]);
                } else {
                    assert(crate::textops::words_from(s, cur)[k] == tail[k - head.len()]);
                }
            }
        } else {
            lemma_words_not_empty(s.drop_first(), cur.push(s[0]));
            assert(crate::textops::words_from(s, cur) == crate::textops::words_from(s.drop_first(), cur.push(s[0])));
        }
    } else if cur.len() > 0 {
        assert(crate::textops::words_from(s, cur) == seq![cur]);
        assert forall|k: int| 0 <= k < crate::textops::words_from(s, cur).len() implies (#[trigger] crate::textops::words_from(s, cur)[k]).len() > 0 by {
            assert(k == 0);
            assert(seq![cur][0] == cur);
        }
    } else {
        assert(crate::textops::words_from(s, cur) =~= Seq::<Seq<char>>::empty());
    }
}

/// The initials shown for an author (see `author_initials_spec`).
pub fn author_initials(author: &str) -> (initials: String)
    ensures
        initials@ == author_initials_spec(author@),
{
    let ws = split_words(&chars_of(author));
    proof {
        lemma_words_not_empty(author@, Seq::empty());
        assert(ws@.map_values(|w: Vec<char>| w@) == words(author@));
    }
    let mut out: Vec<char> = Vec::new();
    if ws.len() >= 1 {
        assert(ws@[0]@ == words(author@)[0]);
        let first = char_uppercase(ws[0][0]);
        append(&mut out, &first);
    }
    if ws.len() >= 2 {
        assert(ws@[1]@ == words(author@)[1]);
        let second = char_uppercase(ws[1][0]);
        append(&mut out, &second);
    }
    if out.len() == 0 {
        string_of(&chars_of("?"))
    } else {
        string_of(&out)
    }
}

} // verus!
