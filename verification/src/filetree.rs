use vstd::prelude::*;
use crate::chars::{chars_of, same_chars, string_of};
use crate::editors::{key_order, lemma_key_order_total, sort_positions};
use crate::git::{escaped, escaped_of, GitFileChange};
use crate::history::CommitFileChange;
use crate::markdown::append;
use vstd::relations::total_ordering;
use vstd::seq_lib::to_multiset_contains;

verus! {

/// The components of a path as git reports it, relative to the repository
/// and with `/` between components, after a component `cur` still being
/// read; empty components (from repeated or trailing separators) are
/// dropped.
pub open spec fn components_from(s: Seq<char>, cur: Seq<char>) -> Seq<Seq<char>>
    decreases s.len(),
{
    if s.len() == 0 {
        if cur.len() > 0 {
            seq![cur]
        } else {
            Seq::empty()
        }
    } else if s[0] == '/' {
        (if cur.len() > 0 {
            seq![cur]
        } else {
            Seq::empty()
        }) + components_from(s.drop_first(), Seq::empty())
    } else {
        components_from(s.drop_first(), cur.push(s[0]))
    }
}

/// The components of a path.
pub open spec fn components(s: Seq<char>) -> Seq<Seq<char>> {
    components_from(s, Seq::empty())
}

/// Splits a path into its components (see `components`).
pub fn path_components(s: &Vec<char>) -> (parts: Vec<Vec<char>>)
    ensures
        parts@.map_values(|w: Vec<char>| w@) == components(s@),
{
    let mut result: Vec<Vec<char>> = Vec::new();
    let mut cur: Vec<char> = Vec::new();
    let mut i: usize = 0;
    assert(s@.subrange(0, s@.len() as int) =~= s@);
    while i < s.len()
        invariant
            i <= s@.len(),
            result@.map_values(|w: Vec<char>| w@) + components_from(s@.subrange(i as int, s@.len() as int), cur@)
                == components(s@),
        decreases s@.len() - i,
    {
        let ghost rest = s@.subrange(i as int, s@.len() as int);
        let ghost r0 = result@.map_values(|w: Vec<char>| w@);
        assert(rest.drop_first() =~= s@.subrange(i + 1, s@.len() as int));
        assert(rest[0] == s@[i as int]);
        let c = s[i];
        if c == '/' {
            if cur.len() > 0 {
                let ghost cw = cur@;
                let mut part: Vec<char> = Vec::new();
                std::mem::swap(&mut part, &mut cur);
                result.push(part);
                assert(result@.map_values(|w: Vec<char>| w@) =~= r0 + seq![cw]);
                assert(r0 + seq![cw] + components_from(rest.drop_first(), Seq::empty()) =~= r0 + (seq![cw]
                    + components_from(rest.drop_first(), Seq::empty())));
            } else {
                assert(Seq::<Seq<char>>::empty() + components_from(rest.drop_first(), Seq::empty())
                    =~= components_from(rest.drop_first(), Seq::empty()));
                assert(cur@ =~= Seq::<char>::empty());
            }
        } else {
            cur.push(c);
        }
        i = i + 1;
    }
    let ghost r0 = result@.map_values(|w: Vec<char>| w@);
    if cur.len() > 0 {
        let ghost cw = cur@;
        result.push(cur);
        assert(result@.map_values(|w: Vec<char>| w@) =~= r0 + seq![cw]);
    } else {
        assert(r0 + Seq::<Seq<char>>::empty() =~= r0);
    }
    result
}

/// Whether a path's components begin with those of `pre`.
pub open spec fn starts_with(c: Seq<Seq<char>>, pre: Seq<Seq<char>>) -> bool {
    c.len() >= pre.len() && c.subrange(0, pre.len() as int) == pre
}

/// Whether a path names a file directly inside the directory `pre` (a
/// path without components sits at the top).
pub open spec fn file_at(c: Seq<Seq<char>>, pre: Seq<Seq<char>>) -> bool {
    (starts_with(c, pre) && c.len() == pre.len() + 1) || (c.len() == 0 && pre.len() == 0)
}

/// Whether a path lies below a directory directly inside `pre`.
pub open spec fn below_dir_at(c: Seq<Seq<char>>, pre: Seq<Seq<char>>) -> bool {
    starts_with(c, pre) && c.len() >= pre.len() + 2
}

/// The positions, in order, of the first `m` paths that name files directly
/// inside `pre`.
pub open spec fn files_at(cs: Seq<Seq<Seq<char>>>, pre: Seq<Seq<char>>, m: nat) -> Seq<usize>
    decreases m,
{
    if m == 0 || m > cs.len() {
        Seq::empty()
    } else if file_at(cs[m - 1], pre) {
        files_at(cs, pre, (m - 1) as nat).push((m - 1) as usize)
    } else {
        files_at(cs, pre, (m - 1) as nat)
    }
}

/// What a file is ordered by among its siblings: its last component (none
/// for a path without components, which comes first).
pub open spec fn file_key(c: Seq<Seq<char>>) -> Seq<char> {
    if c.len() == 0 {
        Seq::empty()
    } else {
        c.last()
    }
}

/// The files directly inside `pre`, ordered by name, and by position among
/// equal names.
pub open spec fn sorted_files_at(cs: Seq<Seq<Seq<char>>>, pre: Seq<Seq<char>>) -> Seq<usize> {
    let q = files_at(cs, pre, cs.len());
    let keys = q.map_values(|i: usize| file_key(cs[i as int]));
    Seq::new(q.len(), |k: int| k as usize).sort_by(key_order(keys)).map_values(|k: usize| q[k as int])
}

/// The names of the directories directly inside `pre` among the first `m`
/// paths, each once, in the order they first appear.
pub open spec fn names_at(cs: Seq<Seq<Seq<char>>>, pre: Seq<Seq<char>>, m: nat) -> Seq<Seq<char>>
    decreases m,
{
    if m == 0 || m > cs.len() {
        Seq::empty()
    } else {
        let earlier = names_at(cs, pre, (m - 1) as nat);
        let c = cs[m - 1];
        if below_dir_at(c, pre) && !earlier.contains(c[pre.len() as int]) {
            earlier.push(c[pre.len() as int])
        } else {
            earlier
        }
    }
}

/// The directories directly inside `pre`, by name.
pub open spec fn sorted_names_at(cs: Seq<Seq<Seq<char>>>, pre: Seq<Seq<char>>) -> Seq<Seq<char>> {
    let ns = names_at(cs, pre, cs.len());
    Seq::new(ns.len(), |k: int| k as usize).sort_by(key_order(ns)).map_values(|k: usize| ns[k as int])
}

/// The components of all paths, as plain values.
pub open spec fn paths_view(cs: Seq<Vec<Vec<char>>>) -> Seq<Seq<Seq<char>>> {
    cs.map_values(|c: Vec<Vec<char>>| c@.map_values(|w: Vec<char>| w@))
}

/// Whether the components of `c` begin with `pre`.
fn has_prefix(c: &Vec<Vec<char>>, pre: &Vec<Vec<char>>) -> (yes: bool)
    ensures
        yes == starts_with(c@.map_values(|w: Vec<char>| w@), pre@.map_values(|w: Vec<char>| w@)),
{
    let ghost cv = c@.map_values(|w: Vec<char>| w@);
    let ghost pv = pre@.map_values(|w: Vec<char>| w@);
    if c.len() < pre.len() {
        return false;
    }
    let mut k: usize = 0;
    while k < pre.len()
        invariant
            k <= pre@.len(),
            pre@.len() <= c@.len(),
            cv == c@.map_values(|w: Vec<char>| w@),
            pv == pre@.map_values(|w: Vec<char>| w@),
            forall|a: int| 0 <= a < k ==> cv[a] == pv[a],
        decreases pre@.len() - k,
    {
        if !same_chars(&c[k], &pre[k]) {
            assert(cv.subrange(0, pv.len() as int)[k as int] != pv[k as int]);
            return false;
        }
        k = k + 1;
    }
    assert(cv.subrange(0, pv.len() as int) =~= pv);
    true
}

fn contains_name(names: &Vec<Vec<char>>, name: &Vec<char>) -> (found: bool)
    ensures
        found == names@.map_values(|w: Vec<char>| w@).contains(name@),
{
    let ghost nv = names@.map_values(|w: Vec<char>| w@);
    let mut k: usize = 0;
    while k < names.len()
        invariant
            k <= names@.len(),
            nv == names@.map_values(|w: Vec<char>| w@),
            forall|a: int| 0 <= a < k ==> nv[a] != name@,
        decreases names@.len() - k,
    {
        if same_chars(&names[k], name) {
            assert(nv[k as int] == name@);
            return true;
        }
        k = k + 1;
    }
    false
}

/// The directories directly inside `pre` (see `sorted_names_at`).
fn child_directories(cs: &Vec<Vec<Vec<char>>>, pre: &Vec<Vec<char>>) -> (names: Vec<Vec<char>>)
    ensures
        names@.map_values(|w: Vec<char>| w@) == sorted_names_at(paths_view(cs@), pre@.map_values(|w: Vec<char>| w@)),
{
    let ghost csv = paths_view(cs@);
    let ghost pv = pre@.map_values(|w: Vec<char>| w@);
    let mut found: Vec<Vec<char>> = Vec::new();
    let mut m: usize = 0;
    while m < cs.len()
        invariant
            m <= cs@.len(),
            csv == paths_view(cs@),
            pv == pre@.map_values(|w: Vec<char>| w@),
            found@.map_values(|w: Vec<char>| w@) == names_at(csv, pv, m as nat),
        decreases cs@.len() - m,
    {
        let c = &cs[m];
        assert(csv[m as int] == c@.map_values(|w: Vec<char>| w@));
        if c.len() >= pre.len() && c.len() - pre.len() >= 2 && has_prefix(c, pre) {
            let name = &c[pre.len()];
            if !contains_name(&found, name) {
                let ghost before = found@;
                found.push(name.clone());
                assert(found@.map_values(|w: Vec<char>| w@) =~= before.map_values(|w: Vec<char>| w@).push(name@));
            }
        }
        m = m + 1;
    }
    let order = sort_positions(&found);
    let ghost fv = found@.map_values(|w: Vec<char>| w@);
    let ghost ids = Seq::new(fv.len(), |k: int| k as usize);
    proof {
        lemma_key_order_total(fv);
        ids.lemma_sort_by_ensures(key_order(fv));
    }
    let mut names: Vec<Vec<char>> = Vec::new();
    let mut k: usize = 0;
    while k < order.len()
        invariant
            k <= order@.len(),
            fv == found@.map_values(|w: Vec<char>| w@),
            ids == Seq::new(fv.len(), |k: int| k as usize),
            order@ == ids.sort_by(key_order(fv)),
            forall|x: usize| !ids.contains(x) ==> !(#[trigger] order@.contains(x)),
            names@.map_values(|w: Vec<char>| w@) == order@.subrange(0, k as int).map_values(|j: usize| fv[j as int]),
        decreases order@.len() - k,
    {
        let j = order[k];
        proof {
            assert(order@[k as int] == j);
            assert(order@.contains(j));
            assert(ids.contains(j));
            let i = choose|i: int| 0 <= i < ids.len() && ids[i] == j;
        }
        let ghost before = names@;
        let item = found[j].clone();
        assert(item@ =~= fv[j as int]);
        names.push(item);
        assert(names@.map_values(|w: Vec<char>| w@) =~= before.map_values(|w: Vec<char>| w@).push(fv[j as int]));
        assert(order@.subrange(0, k + 1) =~= order@.subrange(0, k as int).push(j));
        assert(names@.map_values(|w: Vec<char>| w@) =~= order@.subrange(0, k + 1).map_values(|j: usize| fv[j as int]));
        k = k + 1;
    }
    assert(order@.subrange(0, order@.len() as int) =~= order@);
    names
}

/// The files directly inside `pre` (see `sorted_files_at`).
fn child_files(cs: &Vec<Vec<Vec<char>>>, pre: &Vec<Vec<char>>) -> (files: Vec<usize>)
    ensures
        files@ == sorted_files_at(paths_view(cs@), pre@.map_values(|w: Vec<char>| w@)),
{
    let ghost csv = paths_view(cs@);
    let ghost pv = pre@.map_values(|w: Vec<char>| w@);
    let mut q: Vec<usize> = Vec::new();
    let mut keys: Vec<Vec<char>> = Vec::new();
    let mut m: usize = 0;
    while m < cs.len()
        invariant
            m <= cs@.len(),
            csv == paths_view(cs@),
            pv == pre@.map_values(|w: Vec<char>| w@),
            q@ == files_at(csv, pv, m as nat),
            keys@.len() == q@.len(),
            forall|k: int| 0 <= k < q@.len() ==> q@[k] < m,
            forall|k: int| 0 <= k < q@.len() ==> #[trigger] keys@[k]@ == file_key(csv[q@[k] as int]),
        decreases cs@.len() - m,
    {
        let c = &cs[m];
        assert(csv[m as int] == c@.map_values(|w: Vec<char>| w@));
        let direct = (c.len() >= pre.len() && c.len() - pre.len() == 1 && has_prefix(c, pre)) || (c.len() == 0
            && pre.len() == 0);
        if direct {
            q.push(m);
            if c.len() == 0 {
                keys.push(Vec::new());
            } else {
                let key = c[c.len() - 1].clone();
                assert(key@ =~= csv[m as int].last());
                keys.push(key);
            }
        }
        m = m + 1;
    }
    let order = sort_positions(&keys);
    let ghost kv = keys@.map_values(|w: Vec<char>| w@);
    assert(kv =~= q@.map_values(|i: usize| file_key(csv[i as int])));
    let ghost ids = Seq::new(kv.len(), |k: int| k as usize);
    proof {
        lemma_key_order_total(kv);
        ids.lemma_sort_by_ensures(key_order(kv));
    }
    let mut files: Vec<usize> = Vec::new();
    let mut k: usize = 0;
    while k < order.len()
        invariant
            k <= order@.len(),
            kv == keys@.map_values(|w: Vec<char>| w@),
            keys@.len() == q@.len(),
            ids == Seq::new(kv.len(), |k: int| k as usize),
            order@ == ids.sort_by(key_order(kv)),
            forall|x: usize| !ids.contains(x) ==> !(#[trigger] order@.contains(x)),
            files@ == order@.subrange(0, k as int).map_values(|j: usize| q@[j as int]),
        decreases order@.len() - k,
    {
        let j = order[k];
        proof {
            assert(order@[k as int] == j);
            assert(order@.contains(j));
            assert(ids.contains(j));
            let i = choose|i: int| 0 <= i < ids.len() && ids[i] == j;
        }
        files.push(q[j]);
        assert(order@.subrange(0, k + 1) =~= order@.subrange(0, k as int).push(j));
        assert(files@ =~= order@.subrange(0, k + 1).map_values(|j: usize| q@[j as int]));
        k = k + 1;
    }
    assert(order@.subrange(0, order@.len() as int) =~= order@);
    files
}

/// A row of a file tree: a directory, by its components, or a file, by
/// its position among the paths; the guides drawn left of it (whether the
/// tree continues below at each level above), and whether it is the last
/// child of its directory.
pub struct TreeRowView {
    pub directory: Option<Seq<Seq<char>>>,
    pub file: Option<nat>,
    pub guides: Seq<bool>,
    pub is_last: bool,
}

/// The rows of the tree below `pre`: its directories by name, each followed
/// by the rows below it, then its files by name. `fuel` bounds the depth
/// explored; the depth of the deepest path is enough.
pub open spec fn tree_rows(cs: Seq<Seq<Seq<char>>>, pre: Seq<Seq<char>>, guides: Seq<bool>, fuel: nat) -> Seq<TreeRowView>
    decreases fuel, 1nat, 0nat,
{
    let dirs = sorted_names_at(cs, pre);
    dir_rows(cs, pre, guides, fuel, dirs.len()) + file_rows(cs, pre, guides, sorted_files_at(cs, pre).len())
}

/// The rows of the first `k` directories directly inside `pre`, each with
/// the rows below it.
pub open spec fn dir_rows(cs: Seq<Seq<Seq<char>>>, pre: Seq<Seq<char>>, guides: Seq<bool>, fuel: nat, k: nat) -> Seq<TreeRowView>
    decreases fuel, 0nat, k,
{
    let dirs = sorted_names_at(cs, pre);
    let count = dirs.len() + sorted_files_at(cs, pre).len();
    if fuel == 0 || k == 0 || k > dirs.len() {
        Seq::empty()
    } else {
        let is_last = k == count;
        let dir = pre.push(dirs[k - 1]);
        dir_rows(cs, pre, guides, fuel, (k - 1) as nat).push(
            TreeRowView { directory: Some(dir), file: None, guides: guides, is_last: is_last },
        ) + tree_rows(cs, dir, guides.push(!is_last), (fuel - 1) as nat)
    }
}

/// The rows of the first `k` files directly inside `pre`.
pub open spec fn file_rows(cs: Seq<Seq<Seq<char>>>, pre: Seq<Seq<char>>, guides: Seq<bool>, k: nat) -> Seq<TreeRowView>
    decreases k,
{
    let files = sorted_files_at(cs, pre);
    let count = sorted_names_at(cs, pre).len() + files.len();
    if k == 0 || k > files.len() {
        Seq::empty()
    } else {
        file_rows(cs, pre, guides, (k - 1) as nat).push(
            TreeRowView {
                directory: None,
                file: Some(files[k - 1] as nat),
                guides: guides,
                is_last: sorted_names_at(cs, pre).len() + k == count,
            },
        )
    }
}

/// A row of a file tree (see `TreeRowView`).
pub struct FileTreeRow {
    pub directory: Option<Vec<Vec<char>>>,
    pub file: Option<usize>,
    pub guides: Vec<bool>,
    pub is_last: bool,
}

/// A row as plain values.
pub open spec fn row_view(r: FileTreeRow) -> TreeRowView {
    TreeRowView {
        directory: match r.directory {
            Some(d) => Some(d@.map_values(|w: Vec<char>| w@)),
            None => None,
        },
        file: match r.file {
            Some(f) => Some(f as nat),
            None => None,
        },
        guides: r.guides@,
        is_last: r.is_last,
    }
}

/// Rows as plain values.
pub open spec fn rows_view(rows: Seq<FileTreeRow>) -> Seq<TreeRowView> {
    rows.map_values(|r: FileTreeRow| row_view(r))
}

fn copy_components(c: &Vec<Vec<char>>) -> (copy: Vec<Vec<char>>)
    ensures
        copy@.map_values(|w: Vec<char>| w@) == c@.map_values(|w: Vec<char>| w@),
{
    let mut out: Vec<Vec<char>> = Vec::new();
    let mut k: usize = 0;
    while k < c.len()
        invariant
            k <= c@.len(),
            out@.map_values(|w: Vec<char>| w@) == c@.subrange(0, k as int).map_values(|w: Vec<char>| w@),
        decreases c@.len() - k,
    {
        let item = c[k].clone();
        assert(item@ =~= c@[k as int]@);
        let ghost before = out@;
        out.push(item);
        assert(out@.map_values(|w: Vec<char>| w@) =~= before.map_values(|w: Vec<char>| w@).push(item@));
        assert(c@.subrange(0, k + 1) =~= c@.subrange(0, k as int).push(c@[k as int]));
        assert(out@.map_values(|w: Vec<char>| w@) =~= c@.subrange(0, k + 1).map_values(|w: Vec<char>| w@));
        k = k + 1;
    }
    assert(c@.subrange(0, c@.len() as int) =~= c@);
    out
}

fn copy_flags(g: &Vec<bool>) -> (copy: Vec<bool>)
    ensures
        copy@ == g@,
{
    let mut out: Vec<bool> = Vec::new();
    let mut k: usize = 0;
    while k < g.len()
        invariant
            k <= g@.len(),
            out@ == g@.subrange(0, k as int),
        decreases g@.len() - k,
    {
        out.push(g[k]);
        assert(g@.subrange(0, k + 1) =~= g@.subrange(0, k as int).push(g@[k as int]));
        k = k + 1;
    }
    assert(g@.subrange(0, g@.len() as int) =~= g@);
    out
}

/// Appends the rows of the tree below `pre` (see `tree_rows`).
fn append_tree_rows(
    cs: &Vec<Vec<Vec<char>>>,
    pre: &Vec<Vec<char>>,
    guides: &Vec<bool>,
    fuel: usize,
    out: &mut Vec<FileTreeRow>,
)
    ensures
        rows_view(final(out)@) == rows_view(old(out)@) + tree_rows(
            paths_view(cs@),
            pre@.map_values(|w: Vec<char>| w@),
            guides@,
            fuel as nat,
        ),
    decreases fuel,
{
    let ghost csv = paths_view(cs@);
    let ghost pv = pre@.map_values(|w: Vec<char>| w@);
    let ghost start = rows_view(out@);
    let dirs = child_directories(cs, pre);
    let files = child_files(cs, pre);
    let ghost dv = dirs@.map_values(|w: Vec<char>| w@);
    assert(dv == sorted_names_at(csv, pv));
    let mut k: usize = 0;
    if fuel > 0 {
        while k < dirs.len()
            invariant
                fuel > 0,
                k <= dirs@.len(),
                csv == paths_view(cs@),
                pv == pre@.map_values(|w: Vec<char>| w@),
                dv == dirs@.map_values(|w: Vec<char>| w@),
                dv == sorted_names_at(csv, pv),
                files@ == sorted_files_at(csv, pv),
                rows_view(out@) == start + dir_rows(csv, pv, guides@, fuel as nat, k as nat),
            decreases dirs@.len() - k,
        {
            let is_last = files.len() == 0 && k + 1 == dirs.len();
            let mut dir = copy_components(pre);
            let name = dirs[k].clone();
            assert(name@ =~= dv[k as int]);
            let ghost before_push = dir@;
            dir.push(name);
            assert(dir@.map_values(|w: Vec<char>| w@) =~= pv.push(dv[k as int]));
            let mut below = copy_flags(guides);
            below.push(!is_last);
            let row = FileTreeRow {
                directory: Some(copy_components(&dir)),
                file: None,
                guides: copy_flags(guides),
                is_last,
            };
            let ghost mid = rows_view(out@);
            out.push(row);
            assert(rows_view(out@) =~= mid.push(
                TreeRowView { directory: Some(pv.push(dv[k as int])), file: None, guides: guides@, is_last: is_last },
            ));
            let ghost after_row = rows_view(out@);
            append_tree_rows(cs, &dir, &below, fuel - 1, out);
            assert(rows_view(out@) == after_row + tree_rows(csv, pv.push(dv[k as int]), guides@.push(!is_last), (fuel - 1) as nat));
            assert(dir_rows(csv, pv, guides@, fuel as nat, (k + 1) as nat) == dir_rows(csv, pv, guides@, fuel as nat, k as nat).push(
                TreeRowView { directory: Some(pv.push(dv[k as int])), file: None, guides: guides@, is_last: is_last },
            ) + tree_rows(csv, pv.push(dv[k as int]), guides@.push(!is_last), (fuel - 1) as nat));
            assert(rows_view(out@) =~= start + dir_rows(csv, pv, guides@, fuel as nat, (k + 1) as nat));
            k = k + 1;
        }
    } else {
        assert(dir_rows(csv, pv, guides@, fuel as nat, dirs@.len() as nat) =~= Seq::<TreeRowView>::empty());
        assert(rows_view(out@) =~= start + dir_rows(csv, pv, guides@, fuel as nat, dirs@.len() as nat));
    }
    let ghost after_dirs = rows_view(out@);
    let mut f: usize = 0;
    while f < files.len()
        invariant
            f <= files@.len(),
            csv == paths_view(cs@),
            pv == pre@.map_values(|w: Vec<char>| w@),
            dv == sorted_names_at(csv, pv),
            dirs@.len() == dv.len(),
            files@ == sorted_files_at(csv, pv),
            rows_view(out@) == after_dirs + file_rows(csv, pv, guides@, f as nat),
        decreases files@.len() - f,
    {
        let row = FileTreeRow {
            directory: None,
            file: Some(files[f]),
            guides: copy_flags(guides),
            is_last: f + 1 == files.len(),
        };
        let ghost mid = rows_view(out@);
        out.push(row);
        assert(rows_view(out@) =~= mid.push(row_view(row)));
        assert(rows_view(out@) =~= after_dirs + file_rows(csv, pv, guides@, (f + 1) as nat));
        f = f + 1;
    }
    assert(rows_view(out@) =~= start + tree_rows(csv, pv, guides@, fuel as nat));
}

/// The number of components of the deepest path.
pub open spec fn tree_depth(cs: Seq<Seq<Seq<char>>>, m: nat) -> nat
    decreases m,
{
    if m == 0 || m > cs.len() {
        0
    } else {
        let earlier = tree_depth(cs, (m - 1) as nat);
        if cs[m - 1].len() > earlier { cs[m - 1].len() } else { earlier }
    }
}

/// The components of each path.
pub open spec fn path_texts_components(paths: Seq<Seq<char>>) -> Seq<Seq<Seq<char>>> {
    paths.map_values(|p: Seq<char>| components(p))
}

/// The whole tree of the given paths (see `tree_rows`).
pub open spec fn file_tree(paths: Seq<Seq<char>>) -> Seq<TreeRowView> {
    let cs = path_texts_components(paths);
    tree_rows(cs, Seq::empty(), Seq::empty(), tree_depth(cs, cs.len()))
}

/// The rows of the tree of directories and files that the paths make.
pub fn file_tree_rows(paths: &Vec<Vec<char>>) -> (rows: Vec<FileTreeRow>)
    ensures
        rows_view(rows@) == file_tree(paths@.map_values(|p: Vec<char>| p@)),
{
    let ghost pv = paths@.map_values(|p: Vec<char>| p@);
    let mut cs: Vec<Vec<Vec<char>>> = Vec::new();
    let mut depth: usize = 0;
    let mut m: usize = 0;
    while m < paths.len()
        invariant
            m <= paths@.len(),
            pv == paths@.map_values(|p: Vec<char>| p@),
            paths_view(cs@) == path_texts_components(pv.subrange(0, m as int)),
            depth == tree_depth(paths_view(cs@), m as nat),
            cs@.len() == m,
        decreases paths@.len() - m,
    {
        let c = path_components(&paths[m]);
        let ghost before = paths_view(cs@);
        if c.len() > depth {
            depth = c.len();
        }
        cs.push(c);
        assert(pv.subrange(0, m + 1) =~= pv.subrange(0, m as int).push(pv[m as int]));
        assert(paths_view(cs@) =~= before.push(components(pv[m as int])));
        assert(paths_view(cs@).subrange(0, m as int) =~= before);
        proof {
            lemma_tree_depth_prefix(paths_view(cs@), before, m as nat);
        }
        m = m + 1;
    }
    assert(pv.subrange(0, pv.len() as int) =~= pv);
    assert(paths_view(cs@) =~= path_texts_components(pv));
    let mut rows: Vec<FileTreeRow> = Vec::new();
    let top: Vec<Vec<char>> = Vec::new();
    let no_guides: Vec<bool> = Vec::new();
    assert(top@.map_values(|w: Vec<char>| w@) =~= Seq::<Seq<char>>::empty());
    assert(no_guides@ =~= Seq::<bool>::empty());
    assert(rows_view(rows@) =~= Seq::<TreeRowView>::empty());
    append_tree_rows(&cs, &top, &no_guides, depth, &mut rows);
    assert(rows_view(rows@) =~= file_tree(pv));
    rows
}

proof fn lemma_tree_depth_prefix(cs: Seq<Seq<Seq<char>>>, prefix: Seq<Seq<Seq<char>>>, m: nat)
    requires
        m <= prefix.len(),
        prefix.len() <= cs.len(),
        forall|i: int| 0 <= i < prefix.len() ==> cs[i] == prefix[i],
    ensures
        tree_depth(cs, m) == tree_depth(prefix, m),
    decreases m,
{
    if m > 0 {
        lemma_tree_depth_prefix(cs, prefix, (m - 1) as nat);
    }
}

/// The name a path shows: its last component, or the whole path when it
/// has none.
pub open spec fn path_name(path: Seq<char>) -> Seq<char> {
    let c = components(path);
    if c.len() == 0 {
        path
    } else {
        c.last()
    }
}

/// The label of a changed file in a tree: its name, after the original
/// name and an arrow when it was renamed.
pub open spec fn file_label(path: Seq<char>, original: Option<Seq<char>>) -> Seq<char> {
    match original {
        Some(o) => path_name(o) + " -> "@ + path_name(path),
        None => path_name(path),
    }
}

fn path_name_of(path: &Vec<char>) -> (name: Vec<char>)
    ensures
        name@ == path_name(path@),
{
    let c = path_components(path);
    if c.len() == 0 {
        let mut copy: Vec<char> = Vec::new();
        append(&mut copy, path);
        copy
    } else {
        let last = c[c.len() - 1].clone();
        assert(last@ =~= components(path@).last());
        last
    }
}

fn file_label_of(path: &str, original: &Option<String>) -> (label: Vec<char>)
    ensures
        label@ == file_label(
            path@,
            match original {
                Some(o) => Some(o@),
                None => None,
            },
        ),
{
    let name = path_name_of(&chars_of(path));
    match original {
        Some(o) => {
            let mut out = path_name_of(&chars_of(o.as_str()));
            append(&mut out, &chars_of(" -> "));
            append(&mut out, &name);
            out
        },
        None => name,
    }
}

/// An entry of the tree of files that a commit changed: its label (with
/// control characters escaped), the guides left of it, whether it is the
/// last child of its directory, and the changed file it stands for, by
/// position, when it is not a directory.
pub struct HistoryFileTreeEntry {
    pub label: String,
    pub guides: Vec<bool>,
    pub is_last: bool,
    pub file_index: Option<usize>,
}

/// The label that a row of a commit's file tree shows.
pub open spec fn history_row_label(files: Seq<CommitFileChange>, r: TreeRowView) -> Seq<char> {
    match r.directory {
        Some(d) => escaped(d.last()),
        None => escaped(
            file_label(
                files[r.file.unwrap() as int].path@,
                match files[r.file.unwrap() as int].original_path {
                    Some(o) => Some(o@),
                    None => None,
                },
            ),
        ),
    }
}

/// The paths of changed files.
pub open spec fn commit_paths(files: Seq<CommitFileChange>) -> Seq<Seq<char>> {
    files.map_values(|f: CommitFileChange| f.path@)
}

/// A row stands either for a directory, by its components, or for one of
/// the `n` files.
pub open spec fn row_ok(n: nat, r: TreeRowView) -> bool {
    ||| r.directory is Some && r.directory.unwrap().len() > 0 && r.file is None
    ||| r.directory is None && r.file is Some && r.file.unwrap() < n
}

proof fn lemma_concat_ok(n: nat, a: Seq<TreeRowView>, b: Seq<TreeRowView>)
    requires
        forall|i: int| 0 <= i < a.len() ==> row_ok(n, #[trigger] a[i]),
        forall|i: int| 0 <= i < b.len() ==> row_ok(n, #[trigger] b[i]),
    ensures
        forall|i: int| 0 <= i < (a + b).len() ==> row_ok(n, #[trigger] (a + b)[i]),
{
    assert forall|i: int| 0 <= i < (a + b).len() implies row_ok(n, #[trigger] (a + b)[i]) by {
        if i < a.len() {
            assert((a + b)[i] == a[i]);
        } else {
            assert((a + b)[i] == b[i - a.len()]);
        }
    }
}

proof fn lemma_files_at_below(cs: Seq<Seq<Seq<char>>>, pre: Seq<Seq<char>>, m: nat)
    requires
        cs.len() <= usize::MAX,
    ensures
        forall|k: int| 0 <= k < files_at(cs, pre, m).len() ==> #[trigger] files_at(cs, pre, m)[k] < cs.len(),
    decreases m,
{
    if m > 0 && m <= cs.len() {
        lemma_files_at_below(cs, pre, (m - 1) as nat);
        let e = files_at(cs, pre, (m - 1) as nat);
        if file_at(cs[m - 1], pre) {
            assert(((m - 1) as usize) as int == m - 1);
            assert forall|k: int| 0 <= k < files_at(cs, pre, m).len() implies #[trigger] files_at(cs, pre, m)[k] < cs.len() by {
                if k < e.len() {
                    assert(files_at(cs, pre, m)[k] == e[k]);
                }
            }
        }
    }
}

proof fn lemma_sorted_files_below(cs: Seq<Seq<Seq<char>>>, pre: Seq<Seq<char>>)
    requires
        cs.len() <= usize::MAX,
    ensures
        forall|k: int| 0 <= k < sorted_files_at(cs, pre).len() ==> #[trigger] sorted_files_at(cs, pre)[k] < cs.len(),
{
    let q = files_at(cs, pre, cs.len());
    let keys = q.map_values(|i: usize| file_key(cs[i as int]));
    let ids = Seq::new(q.len(), |k: int| k as usize);
    lemma_key_order_total(keys);
    ids.lemma_sort_by_ensures(key_order(keys));
    lemma_files_at_below(cs, pre, cs.len());
    let sorted = ids.sort_by(key_order(keys));
    assert forall|k: int| 0 <= k < sorted_files_at(cs, pre).len() implies #[trigger] sorted_files_at(cs, pre)[k] < cs.len() by {
        let j = sorted[k];
        assert(sorted.contains(j));
        assert(ids.contains(j));
        let i = choose|i: int| 0 <= i < ids.len() && ids[i] == j;
        assert(q[j as int] < cs.len());
    }
}

proof fn lemma_file_rows_ok(cs: Seq<Seq<Seq<char>>>, pre: Seq<Seq<char>>, guides: Seq<bool>, k: nat)
    requires
        cs.len() <= usize::MAX,
    ensures
        forall|i: int| 0 <= i < file_rows(cs, pre, guides, k).len() ==> row_ok(cs.len(), #[trigger] file_rows(cs, pre, guides, k)[i]),
    decreases k,
{
    let files = sorted_files_at(cs, pre);
    if k > 0 && k <= files.len() {
        lemma_file_rows_ok(cs, pre, guides, (k - 1) as nat);
        lemma_sorted_files_below(cs, pre);
        assert(files[k - 1] < cs.len());
        let earlier = file_rows(cs, pre, guides, (k - 1) as nat);
        assert forall|i: int| 0 <= i < file_rows(cs, pre, guides, k).len() implies row_ok(cs.len(), #[trigger] file_rows(cs, pre, guides, k)[i]) by {
            if i < earlier.len() {
                assert(file_rows(cs, pre, guides, k)[i] == earlier[i]);
            }
        }
    }
}

proof fn lemma_tree_rows_ok(cs: Seq<Seq<Seq<char>>>, pre: Seq<Seq<char>>, guides: Seq<bool>, fuel: nat)
    requires
        cs.len() <= usize::MAX,
    ensures
        forall|i: int| 0 <= i < tree_rows(cs, pre, guides, fuel).len() ==> row_ok(cs.len(), #[trigger] tree_rows(cs, pre, guides, fuel)[i]),
    decreases fuel, 1nat, 0nat,
{
    lemma_dir_rows_ok(cs, pre, guides, fuel, sorted_names_at(cs, pre).len());
    lemma_file_rows_ok(cs, pre, guides, sorted_files_at(cs, pre).len());
    lemma_concat_ok(
        cs.len(),
        dir_rows(cs, pre, guides, fuel, sorted_names_at(cs, pre).len()),
        file_rows(cs, pre, guides, sorted_files_at(cs, pre).len()),
    );
}

proof fn lemma_dir_rows_ok(cs: Seq<Seq<Seq<char>>>, pre: Seq<Seq<char>>, guides: Seq<bool>, fuel: nat, k: nat)
    requires
        cs.len() <= usize::MAX,
    ensures
        forall|i: int| 0 <= i < dir_rows(cs, pre, guides, fuel, k).len() ==> row_ok(cs.len(), #[trigger] dir_rows(cs, pre, guides, fuel, k)[i]),
    decreases fuel, 0nat, k,
{
    let dirs = sorted_names_at(cs, pre);
    let count = dirs.len() + sorted_files_at(cs, pre).len();
    if !(fuel == 0 || k == 0 || k > dirs.len()) {
        let is_last = k == count;
        let dir = pre.push(dirs[k - 1]);
        let earlier = dir_rows(cs, pre, guides, fuel, (k - 1) as nat);
        let row = TreeRowView { directory: Some(dir), file: None, guides: guides, is_last: is_last };
        lemma_dir_rows_ok(cs, pre, guides, fuel, (k - 1) as nat);
        lemma_tree_rows_ok(cs, dir, guides.push(!is_last), (fuel - 1) as nat);
        assert(row_ok(cs.len(), row));
        lemma_concat_ok(cs.len(), earlier, seq![row]);
        assert(earlier.push(row) =~= earlier + seq![row]);
        lemma_concat_ok(cs.len(), earlier.push(row), tree_rows(cs, dir, guides.push(!is_last), (fuel - 1) as nat));
    }
}

/// The tree of the files that a commit changed: its directories by name,
/// each followed by what lies below it, then its files by name, with the
/// guides and last-child marks that draw the tree.
pub fn history_file_tree_entries(files: &Vec<CommitFileChange>) -> (entries: Vec<HistoryFileTreeEntry>)
    ensures
        entries@.len() == file_tree(commit_paths(files@)).len(),
        forall|i: int|
            0 <= i < entries@.len() ==> {
                let r = #[trigger] file_tree(commit_paths(files@))[i];
                &&& entries@[i].label@ == history_row_label(files@, r)
                &&& entries@[i].guides@ == r.guides
                &&& entries@[i].is_last == r.is_last
                &&& entries@[i].file_index == match r.file {
                    Some(f) => Some(f as usize),
                    None => None::<usize>,
                }
            },
{
    let mut paths: Vec<Vec<char>> = Vec::new();
    let mut k: usize = 0;
    while k < files.len()
        invariant
            k <= files@.len(),
            paths@.map_values(|p: Vec<char>| p@) == commit_paths(files@).subrange(0, k as int),
        decreases files@.len() - k,
    {
        let ghost before = paths@;
        paths.push(chars_of(files[k].path.as_str()));
        assert(paths@.map_values(|p: Vec<char>| p@) =~= before.map_values(|p: Vec<char>| p@).push(files@[k as int].path@));
        assert(commit_paths(files@).subrange(0, k + 1) =~= commit_paths(files@).subrange(0, k as int).push(files@[k as int].path@));
        k = k + 1;
    }
    assert(commit_paths(files@).subrange(0, files@.len() as int) =~= commit_paths(files@));
    let rows = file_tree_rows(&paths);
    let nfiles = files.len();
    let ghost tree = file_tree(commit_paths(files@));
    let mut entries: Vec<HistoryFileTreeEntry> = Vec::new();
    let mut k: usize = 0;
    while k < rows.len()
        invariant
            k <= rows@.len(),
            rows_view(rows@) == tree,
            tree == file_tree(commit_paths(files@)),
            nfiles == files@.len(),
            entries@.len() == k,
            forall|i: int|
                0 <= i < k ==> {
                    let r = #[trigger] tree[i];
                    &&& entries@[i].label@ == history_row_label(files@, r)
                    &&& entries@[i].guides@ == r.guides
                    &&& entries@[i].is_last == r.is_last
                    &&& entries@[i].file_index == match r.file {
                        Some(f) => Some(f as usize),
                        None => None::<usize>,
                    }
                },
        decreases rows@.len() - k,
    {
        let row = &rows[k];
        let ghost r = tree[k as int];
        assert(r == row_view(*row));
        proof {
            let cs = path_texts_components(commit_paths(files@));
            assert(cs.len() == files@.len());
            lemma_tree_rows_ok(cs, Seq::empty(), Seq::empty(), tree_depth(cs, cs.len()));
            assert(row_ok(cs.len(), r));
        }
        let label = match &row.directory {
            Some(d) => {
                let name = d[d.len() - 1].clone();
                assert(name@ =~= r.directory.unwrap().last());
                escaped_of(&name)
            },
            None => {
                let f = row.file.unwrap();
                escaped_of(&file_label_of(files[f].path.as_str(), &files[f].original_path))
            },
        };
        entries.push(HistoryFileTreeEntry {
            label: string_of(&label),
            guides: copy_flags(&row.guides),
            is_last: row.is_last,
            file_index: row.file,
        });
        k = k + 1;
    }
    entries
}

/// Which side of the working tree a change is shown from.
#[derive(Clone, Copy, Debug, PartialEq, Eq, Structural)]
pub enum GitDiffKind {
    Unstaged,
    Staged,
}

/// A change picked in the git view, and the side it is shown from.
#[derive(Clone, Debug, PartialEq, Eq)]
pub struct GitSelection {
    pub change: GitFileChange,
    pub kind: GitDiffKind,
}

/// An entry of the tree of changed files in the git view: the path of the
/// directory or file, its label, its depth, and for a file the selection
/// that picking it makes.
#[derive(Clone, Debug, PartialEq, Eq)]
pub struct GitTreeEntry {
    pub path: String,
    pub label: String,
    pub depth: usize,
    pub selection: Option<GitSelection>,
}

/// Components joined with `/`.
pub open spec fn joined(c: Seq<Seq<char>>) -> Seq<char>
    decreases c.len(),
{
    if c.len() == 0 {
        Seq::empty()
    } else if c.len() == 1 {
        c[0]
    } else {
        joined(c.drop_last()) + "/"@ + c.last()
    }
}

fn join_components(c: &Vec<Vec<char>>) -> (text: Vec<char>)
    ensures
        text@ == joined(c@.map_values(|w: Vec<char>| w@)),
{
    let ghost cv = c@.map_values(|w: Vec<char>| w@);
    let mut out: Vec<char> = Vec::new();
    if c.len() == 0 {
        return out;
    }
    append(&mut out, &c[0]);
    assert(cv.subrange(0, 1) =~= seq![cv[0]]);
    let mut i: usize = 1;
    while i < c.len()
        invariant
            1 <= i <= c@.len(),
            cv == c@.map_values(|w: Vec<char>| w@),
            out@ == joined(cv.subrange(0, i as int)),
        decreases c@.len() - i,
    {
        append(&mut out, &chars_of("/"));
        append(&mut out, &c[i]);
        assert(cv.subrange(0, i + 1).drop_last() =~= cv.subrange(0, i as int));
        proof {
            reveal_strlit("/");
        }
        i = i + 1;
    }
    assert(cv.subrange(0, cv.len() as int) =~= cv);
    out
}

/// What a file's change reads as plain values.
pub open spec fn change_view(c: GitFileChange) -> (Seq<char>, Option<Seq<char>>) {
    (
        c.path@,
        match c.original_path {
            Some(o) => Some(o@),
            None => None,
        },
    )
}

fn copy_change(c: &GitFileChange) -> (copy: GitFileChange)
    ensures
        change_view(copy) == change_view(*c),
{
    GitFileChange {
        path: c.path.clone(),
        original_path: match &c.original_path {
            Some(o) => Some(o.clone()),
            None => None,
        },
    }
}

/// The paths of changes.
pub open spec fn change_paths(changes: Seq<GitFileChange>) -> Seq<Seq<char>> {
    changes.map_values(|c: GitFileChange| c.path@)
}

/// What a row of the git view's tree shows, for changes of the kind
/// `kind`.
pub open spec fn git_entry_matches(changes: Seq<GitFileChange>, kind: GitDiffKind, r: TreeRowView, e: GitTreeEntry) -> bool {
    &&& e.depth == r.guides.len()
    &&& match r.directory {
        Some(d) => {
            &&& e.path@ == joined(d)
            &&& e.label@ == d.last()
            &&& e.selection is None
        },
        None => {
            let c = changes[r.file.unwrap() as int];
            &&& e.path@ == c.path@
            &&& e.label@ == file_label(change_view(c).0, change_view(c).1)
            &&& e.selection is Some
            &&& change_view(e.selection.unwrap().change) == change_view(c)
            &&& e.selection.unwrap().kind == kind
        },
    }
}

/// The tree of changed files in the git view: directories by name, each
/// followed by what lies below it, then files by name; each file's entry
/// selects its change, shown from the side `kind`.
pub fn git_tree_entries(changes: &Vec<GitFileChange>, kind: GitDiffKind) -> (entries: Vec<GitTreeEntry>)
    ensures
        entries@.len() == file_tree(change_paths(changes@)).len(),
        forall|i: int|
            0 <= i < entries@.len() ==> git_entry_matches(
                changes@,
                kind,
                #[trigger] file_tree(change_paths(changes@))[i],
                entries@[i],
            ),
{
    let mut paths: Vec<Vec<char>> = Vec::new();
    let mut k: usize = 0;
    while k < changes.len()
        invariant
            k <= changes@.len(),
            paths@.map_values(|p: Vec<char>| p@) == change_paths(changes@).subrange(0, k as int),
        decreases changes@.len() - k,
    {
        let ghost before = paths@;
        paths.push(chars_of(changes[k].path.as_str()));
        assert(paths@.map_values(|p: Vec<char>| p@) =~= before.map_values(|p: Vec<char>| p@).push(changes@[k as int].path@));
        assert(change_paths(changes@).subrange(0, k + 1) =~= change_paths(changes@).subrange(0, k as int).push(changes@[k as int].path@));
        k = k + 1;
    }
    assert(change_paths(changes@).subrange(0, changes@.len() as int) =~= change_paths(changes@));
    let rows = file_tree_rows(&paths);
    let count = changes.len();
    let ghost tree = file_tree(change_paths(changes@));
    let mut entries: Vec<GitTreeEntry> = Vec::new();
    let mut k: usize = 0;
    while k < rows.len()
        invariant
            k <= rows@.len(),
            rows_view(rows@) == tree,
            tree == file_tree(change_paths(changes@)),
            count == changes@.len(),
            entries@.len() == k,
            forall|i: int| 0 <= i < k ==> git_entry_matches(changes@, kind, #[trigger] tree[i], entries@[i]),
        decreases rows@.len() - k,
    {
        let row = &rows[k];
        let ghost r = tree[k as int];
        assert(r == row_view(*row));
        proof {
            let cs = path_texts_components(change_paths(changes@));
            assert(cs.len() == changes@.len());
            lemma_tree_rows_ok(cs, Seq::empty(), Seq::empty(), tree_depth(cs, cs.len()));
            assert(row_ok(cs.len(), r));
        }
        let entry = match &row.directory {
            Some(d) => {
                let name = d[d.len() - 1].clone();
                assert(name@ =~= r.directory.unwrap().last());
                GitTreeEntry {
                    path: string_of(&join_components(d)),
                    label: string_of(&name),
                    depth: row.guides.len(),
                    selection: None,
                }
            },
            None => {
                let f = row.file.unwrap();
                let c = &changes[f];
                GitTreeEntry {
                    path: c.path.clone(),
                    label: string_of(&file_label_of(c.path.as_str(), &c.original_path)),
                    depth: row.guides.len(),
                    selection: Some(GitSelection { change: copy_change(c), kind }),
                }
            },
        };
        entries.push(entry);
        k = k + 1;
    }
    entries
}

/// How many rows stand for the file at position `i`.
pub open spec fn file_count(rows: Seq<TreeRowView>, i: nat) -> nat
    decreases rows.len(),
{
    if rows.len() == 0 {
        0
    } else {
        file_count(rows.drop_last(), i) + if rows.last().file == Some(i) {
            1nat
        } else {
            0nat
        }
    }
}

proof fn lemma_file_count_concat(a: Seq<TreeRowView>, b: Seq<TreeRowView>, i: nat)
    ensures
        file_count(a + b, i) == file_count(a, i) + file_count(b, i),
    decreases b.len(),
{
    if b.len() > 0 {
        lemma_file_count_concat(a, b.drop_last(), i);
        assert((a + b).drop_last() =~= a + b.drop_last());
    } else {
        assert(a + b =~= a);
    }
}

/// Sorting positions by a total order and reading the items at them keeps
/// the items, and keeps them distinct.
proof fn lemma_sorted_view<A>(ns: Seq<A>, leq: spec_fn(usize, usize) -> bool)
    requires
        total_ordering(leq),
        ns.len() <= usize::MAX,
    ensures
        forall|x: A|
            Seq::new(ns.len(), |k: int| k as usize).sort_by(leq).map_values(|k: usize| ns[k as int]).contains(x)
                <==> ns.contains(x),
        ns.no_duplicates() ==> Seq::new(ns.len(), |k: int| k as usize).sort_by(leq).map_values(
            |k: usize| ns[k as int],
        ).no_duplicates(),
        Seq::new(ns.len(), |k: int| k as usize).sort_by(leq).map_values(|k: usize| ns[k as int]).len()
            == ns.len(),
{
    broadcast use to_multiset_contains;
    broadcast use vstd::seq_lib::to_multiset_len;
    let ids = Seq::new(ns.len(), |k: int| k as usize);
    let sorted = ids.sort_by(leq);
    let view = sorted.map_values(|k: usize| ns[k as int]);
    ids.lemma_sort_by_ensures(leq);
    assert(sorted.len() == ids.len()) by {
        assert(sorted.to_multiset().len() == ids.to_multiset().len());
    }
    assert forall|k: int| 0 <= k < sorted.len() implies #[trigger] sorted[k] < ns.len() by {
        assert(sorted.contains(sorted[k]));
        assert(ids.contains(sorted[k]));
    }
    assert forall|x: A| view.contains(x) <==> ns.contains(x) by {
        if ns.contains(x) {
            let j = choose|j: int| 0 <= j < ns.len() && ns[j] == x;
            assert(ids[j] == j as usize);
            assert(ids.contains(j as usize));
            assert(ids.to_multiset().count(j as usize) > 0);
            assert(sorted.to_multiset().count(j as usize) > 0);
            assert(sorted.contains(j as usize));
            let k = choose|k: int| 0 <= k < sorted.len() && sorted[k] == j as usize;
            assert(view[k] == x);
        }
        if view.contains(x) {
            let k = choose|k: int| 0 <= k < view.len() && view[k] == x;
            assert(sorted[k] < ns.len());
        }
    }
    if ns.no_duplicates() {
        assert(ids.no_duplicates());
        ids.lemma_multiset_has_no_duplicates();
        sorted.lemma_multiset_has_no_duplicates_conv();
        assert forall|a: int, b: int| 0 <= a < view.len() && 0 <= b < view.len() && a != b implies view[a]
            != view[b] by {
            assert(sorted[a] != sorted[b]);
            assert(sorted[a] < ns.len() && sorted[b] < ns.len());
        }
    }
}

/// Whether a path lies inside the directory `pre`, at any depth.
pub open spec fn belongs(c: Seq<Seq<char>>, pre: Seq<Seq<char>>) -> bool {
    file_at(c, pre) || below_dir_at(c, pre)
}

proof fn lemma_names_at(cs: Seq<Seq<Seq<char>>>, pre: Seq<Seq<char>>, m: nat)
    requires
        m <= cs.len(),
    ensures
        names_at(cs, pre, m).no_duplicates(),
        forall|j: int| 0 <= j < m && below_dir_at(#[trigger] cs[j], pre) ==> names_at(cs, pre, m).contains(
            cs[j][pre.len() as int],
        ),
        forall|x: Seq<char>| #[trigger] names_at(cs, pre, m).contains(x) ==> exists|j: int|
            0 <= j < m && below_dir_at(cs[j], pre) && cs[j][pre.len() as int] == x,
    decreases m,
{
    if m > 0 {
        lemma_names_at(cs, pre, (m - 1) as nat);
        let e = names_at(cs, pre, (m - 1) as nat);
        let c = cs[m - 1];
        if below_dir_at(c, pre) && !e.contains(c[pre.len() as int]) {
            let n = e.push(c[pre.len() as int]);
            assert forall|j: int| 0 <= j < m && below_dir_at(#[trigger] cs[j], pre) implies n.contains(cs[j][pre.len() as int]) by {
                if j < m - 1 {
                    let k = choose|k: int| 0 <= k < e.len() && e[k] == cs[j][pre.len() as int];
                    assert(n[k] == e[k]);
                } else {
                    assert(n[e.len() as int] == c[pre.len() as int]);
                }
            }
            assert forall|x: Seq<char>| #[trigger] n.contains(x) implies exists|j: int|
                0 <= j < m && below_dir_at(cs[j], pre) && cs[j][pre.len() as int] == x by {
                let k = choose|k: int| 0 <= k < n.len() && n[k] == x;
                if k < e.len() {
                    assert(e[k] == x);
                    assert(e.contains(x));
                } else {
                    assert(below_dir_at(cs[m - 1], pre));
                }
            }
        } else {
            assert forall|j: int| 0 <= j < m && below_dir_at(#[trigger] cs[j], pre) implies e.contains(cs[j][pre.len() as int]) by {
            }
        }
    }
}

proof fn lemma_files_at(cs: Seq<Seq<Seq<char>>>, pre: Seq<Seq<char>>, m: nat)
    requires
        m <= cs.len(),
        cs.len() <= usize::MAX,
    ensures
        files_at(cs, pre, m).no_duplicates(),
        forall|k: int| 0 <= k < files_at(cs, pre, m).len() ==> #[trigger] files_at(cs, pre, m)[k] < m,
        forall|j: int| 0 <= j < m ==> (file_at(#[trigger] cs[j], pre) <==> files_at(cs, pre, m).contains(j as usize)),
    decreases m,
{
    if m > 0 {
        lemma_files_at(cs, pre, (m - 1) as nat);
        let e = files_at(cs, pre, (m - 1) as nat);
        assert(((m - 1) as usize) as int == m - 1);
        if file_at(cs[m - 1], pre) {
            let n = e.push((m - 1) as usize);
            assert forall|k: int| 0 <= k < n.len() implies #[trigger] n[k] < m by {
                if k < e.len() {
                    assert(n[k] == e[k]);
                }
            }
            assert forall|j: int| 0 <= j < m implies (file_at(#[trigger] cs[j], pre) <==> n.contains(j as usize)) by {
                if j < m - 1 {
                    if n.contains(j as usize) {
                        let k = choose|k: int| 0 <= k < n.len() && n[k] == j as usize;
                        if k == e.len() {
                            assert(n[k] == (m - 1) as usize);
                        } else {
                            assert(e[k] == n[k]);
                            assert(e.contains(j as usize));
                        }
                    }
                    if e.contains(j as usize) {
                        let k = choose|k: int| 0 <= k < e.len() && e[k] == j as usize;
                        assert(n[k] == e[k]);
                    }
                } else {
                    assert(n[e.len() as int] == (m - 1) as usize);
                }
            }
            assert forall|a: int, b: int| 0 <= a < n.len() && 0 <= b < n.len() && a != b implies n[a] != n[b] by {
                if a < e.len() && b < e.len() {
                } else if a < e.len() {
                    assert(e[a] < m - 1);
                } else {
                    assert(e[b] < m - 1);
                }
            }
        } else {
            assert forall|k: int| 0 <= k < e.len() implies #[trigger] e[k] < m by {
            }
            assert forall|j: int| 0 <= j < m implies (file_at(#[trigger] cs[j], pre) <==> e.contains(j as usize)) by {
                if j == m - 1 && e.contains(j as usize) {
                    let k = choose|k: int| 0 <= k < e.len() && e[k] == j as usize;
                }
            }
        }
    }
}

/// Counting over a list without repeats: a position occurs once if it is
/// there at all.
proof fn lemma_file_rows_count(cs: Seq<Seq<Seq<char>>>, pre: Seq<Seq<char>>, guides: Seq<bool>, k: nat, i: nat)
    requires
        k <= sorted_files_at(cs, pre).len(),
        sorted_files_at(cs, pre).no_duplicates(),
        cs.len() <= usize::MAX,
        i < cs.len(),
    ensures
        file_count(file_rows(cs, pre, guides, k), i) == if sorted_files_at(cs, pre).subrange(0, k as int).contains(
            i as usize,
        ) {
            1nat
        } else {
            0nat
        },
    decreases k,
{
    let files = sorted_files_at(cs, pre);
    if k > 0 {
        lemma_file_rows_count(cs, pre, guides, (k - 1) as nat, i);
        lemma_sorted_files_below(cs, pre);
        let rows = file_rows(cs, pre, guides, k);
        let earlier = file_rows(cs, pre, guides, (k - 1) as nat);
        let count = sorted_names_at(cs, pre).len() + files.len();
        let row = TreeRowView {
            directory: None,
            file: Some(files[k - 1] as nat),
            guides: guides,
            is_last: sorted_names_at(cs, pre).len() + k == count,
        };
        assert(rows == earlier.push(row));
        assert(rows.drop_last() =~= earlier);
        assert(rows.last() == row);
        let before = files.subrange(0, k - 1);
        let now = files.subrange(0, k as int);
        assert(now =~= before.push(files[k - 1]));
        assert(files[k - 1] < cs.len());
        assert((i as usize) as nat == i);
        assert((files[k - 1] as nat == i) <==> (files[k - 1] == i as usize));
        if files[k - 1] == i as usize {
            assert(now[k - 1] == i as usize);
            if before.contains(i as usize) {
                let a = choose|a: int| 0 <= a < before.len() && before[a] == i as usize;
                assert(files[a] == files[k - 1]);
            }
            assert(file_count(rows, i) == 1);
        } else {
            if before.contains(i as usize) {
                let a = choose|a: int| 0 <= a < before.len() && before[a] == i as usize;
                assert(now[a] == i as usize);
            }
            if now.contains(i as usize) {
                let a = choose|a: int| 0 <= a < now.len() && now[a] == i as usize;
                assert(a < k - 1);
                assert(before[a] == i as usize);
            }
        }
    } else {
        assert(files.subrange(0, 0) =~= Seq::<usize>::empty());
    }
}

proof fn lemma_tree_count(cs: Seq<Seq<Seq<char>>>, pre: Seq<Seq<char>>, guides: Seq<bool>, fuel: nat, i: nat)
    requires
        cs.len() <= usize::MAX,
        i < cs.len(),
        fuel + pre.len() >= cs[i as int].len(),
    ensures
        file_count(tree_rows(cs, pre, guides, fuel), i) == if belongs(cs[i as int], pre) {
            1nat
        } else {
            0nat
        },
    decreases fuel, 1nat, 0nat,
{
    let c = cs[i as int];
    let names = sorted_names_at(cs, pre);
    let files = sorted_files_at(cs, pre);
    let ns = names_at(cs, pre, cs.len());
    let q = files_at(cs, pre, cs.len());
    lemma_names_at(cs, pre, cs.len());
    lemma_names_bound(cs, pre, cs.len());
    lemma_files_len(cs, pre, cs.len());
    lemma_key_order_total(ns);
    lemma_sorted_view(ns, key_order(ns));
    lemma_files_at(cs, pre, cs.len());
    let keys = q.map_values(|j: usize| file_key(cs[j as int]));
    lemma_key_order_total(keys);
    lemma_sorted_view(q, key_order(keys));
    assert(files =~= Seq::new(q.len(), |k: int| k as usize).sort_by(key_order(keys)).map_values(|k: usize| q[k as int]));
    lemma_dir_count(cs, pre, guides, fuel, names.len(), i);
    lemma_file_rows_count(cs, pre, guides, files.len(), i);
    assert(files.subrange(0, files.len() as int) =~= files);
    assert(names.subrange(0, names.len() as int) =~= names);
    lemma_file_count_concat(dir_rows(cs, pre, guides, fuel, names.len()), file_rows(cs, pre, guides, files.len()), i);
    assert((i as usize) as nat == i);
    if below_dir_at(c, pre) {
        assert(ns.contains(c[pre.len() as int]));
    }
    assert(files.contains(i as usize) <==> q.contains(i as usize));
}

proof fn lemma_belongs_child(c: Seq<Seq<char>>, pre: Seq<Seq<char>>, n: Seq<char>)
    ensures
        belongs(c, pre.push(n)) <==> (below_dir_at(c, pre) && c[pre.len() as int] == n),
{
    let dir = pre.push(n);
    assert(dir.subrange(0, pre.len() as int) =~= pre);
    if belongs(c, dir) {
        assert(starts_with(c, dir));
        assert(c.subrange(0, pre.len() as int) =~= c.subrange(0, dir.len() as int).subrange(0, pre.len() as int));
        assert(c.subrange(0, dir.len() as int)[pre.len() as int] == c[pre.len() as int]);
        assert(dir[pre.len() as int] == n);
    }
    if below_dir_at(c, pre) && c[pre.len() as int] == n {
        assert(c.subrange(0, dir.len() as int) =~= dir);
    }
}

proof fn lemma_files_len(cs: Seq<Seq<Seq<char>>>, pre: Seq<Seq<char>>, m: nat)
    ensures
        files_at(cs, pre, m).len() <= m,
    decreases m,
{
    if m > 0 {
        lemma_files_len(cs, pre, (m - 1) as nat);
    }
}

proof fn lemma_names_bound(cs: Seq<Seq<Seq<char>>>, pre: Seq<Seq<char>>, m: nat)
    ensures
        names_at(cs, pre, m).len() <= m,
    decreases m,
{
    if m > 0 {
        lemma_names_bound(cs, pre, (m - 1) as nat);
    }
}

proof fn lemma_dir_count(cs: Seq<Seq<Seq<char>>>, pre: Seq<Seq<char>>, guides: Seq<bool>, fuel: nat, k: nat, i: nat)
    requires
        cs.len() <= usize::MAX,
        i < cs.len(),
        fuel + pre.len() >= cs[i as int].len(),
        k <= sorted_names_at(cs, pre).len(),
        sorted_names_at(cs, pre).no_duplicates(),
    ensures
        file_count(dir_rows(cs, pre, guides, fuel, k), i) == if below_dir_at(cs[i as int], pre)
            && sorted_names_at(cs, pre).subrange(0, k as int).contains(cs[i as int][pre.len() as int]) {
            1nat
        } else {
            0nat
        },
    decreases fuel, 0nat, k,
{
    let c = cs[i as int];
    let names = sorted_names_at(cs, pre);
    let count = names.len() + sorted_files_at(cs, pre).len();
    if k == 0 {
        assert(names.subrange(0, 0) =~= Seq::<Seq<char>>::empty());
        assert(dir_rows(cs, pre, guides, fuel, k) =~= Seq::<TreeRowView>::empty());
    } else if fuel == 0 {
        assert(!below_dir_at(c, pre));
        assert(dir_rows(cs, pre, guides, fuel, k) =~= Seq::<TreeRowView>::empty());
    } else {
        let is_last = k == count;
        let dir = pre.push(names[k - 1]);
        let earlier = dir_rows(cs, pre, guides, fuel, (k - 1) as nat);
        let row = TreeRowView { directory: Some(dir), file: None, guides: guides, is_last: is_last };
        let sub = tree_rows(cs, dir, guides.push(!is_last), (fuel - 1) as nat);
        lemma_dir_count(cs, pre, guides, fuel, (k - 1) as nat, i);
        lemma_tree_count(cs, dir, guides.push(!is_last), (fuel - 1) as nat, i);
        lemma_file_count_concat(earlier.push(row), sub, i);
        assert(earlier.push(row).drop_last() =~= earlier);
        assert(file_count(earlier.push(row), i) == file_count(earlier, i));
        assert(dir_rows(cs, pre, guides, fuel, k) == earlier.push(row) + sub);
        let before = names.subrange(0, k - 1);
        let now = names.subrange(0, k as int);
        assert(now =~= before.push(names[k - 1]));
        lemma_belongs_child(c, pre, names[k - 1]);
        if below_dir_at(c, pre) {
            let x = c[pre.len() as int];
            if x == names[k - 1] {
                if before.contains(x) {
                    let a = choose|a: int| 0 <= a < before.len() && before[a] == x;
                    assert(names[a] == names[k - 1]);
                }
                assert(now[k - 1] == x);
                assert(file_count(sub, i) == 1);
            } else {
                assert(file_count(sub, i) == 0);
                if before.contains(x) {
                    let a = choose|a: int| 0 <= a < before.len() && before[a] == x;
                    assert(now[a] == x);
                }
                if now.contains(x) {
                    let a = choose|a: int| 0 <= a < now.len() && now[a] == x;
                    assert(a != k - 1);
                    assert(before[a] == x);
                }
            }
        } else {
            assert(file_count(sub, i) == 0);
        }
    }
}

proof fn lemma_tree_depth_covers(cs: Seq<Seq<Seq<char>>>, m: nat, i: int)
    requires
        0 <= i < m <= cs.len(),
    ensures
        cs[i].len() <= tree_depth(cs, m),
    decreases m,
{
    if i < m - 1 {
        lemma_tree_depth_covers(cs, (m - 1) as nat, i);
    }
}

/// Every path given appears in the tree exactly once, as a file row.
pub proof fn law_each_file_appears_once(paths: Seq<Seq<char>>, i: nat)
    requires
        i < paths.len(),
        paths.len() <= usize::MAX,
    ensures
        file_count(file_tree(paths), i) == 1,
{
    let cs = path_texts_components(paths);
    lemma_tree_depth_covers(cs, cs.len(), i as int);
    lemma_tree_count(cs, Seq::empty(), Seq::empty(), tree_depth(cs, cs.len()), i);
    let c = cs[i as int];
    assert(c.subrange(0, 0) =~= Seq::<Seq<char>>::empty());
}

/// Whether an entry of a file listing at `depth` below the top shows: every
/// one of the `depth` directories above it is expanded (a directory is
/// known by its components).
pub open spec fn entry_visible(path: Seq<char>, depth: nat, expanded: Seq<Seq<char>>) -> bool {
    let c = components(path);
    depth == 0 || (c.len() >= depth && forall|k: int|
        1 <= k <= depth ==> #[trigger] path_texts_components(expanded).contains(c.subrange(0, c.len() - k)))
}

pub(crate) fn same_component_lists(a: &Vec<Vec<char>>, b: &Vec<Vec<char>>) -> (same: bool)
    ensures
        same == (a@.map_values(|w: Vec<char>| w@) == b@.map_values(|w: Vec<char>| w@)),
{
    let ghost av = a@.map_values(|w: Vec<char>| w@);
    let ghost bv = b@.map_values(|w: Vec<char>| w@);
    if a.len() != b.len() {
        assert(av.len() != bv.len());
        return false;
    }
    let mut k: usize = 0;
    while k < a.len()
        invariant
            k <= a@.len(),
            a@.len() == b@.len(),
            av == a@.map_values(|w: Vec<char>| w@),
            bv == b@.map_values(|w: Vec<char>| w@),
            forall|j: int| 0 <= j < k ==> av[j] == bv[j],
        decreases a@.len() - k,
    {
        if !same_chars(&a[k], &b[k]) {
            assert(av[k as int] != bv[k as int]);
            return false;
        }
        k = k + 1;
    }
    assert(av =~= bv);
    true
}

/// Whether an entry of a file listing shows (see `entry_visible`).
pub fn is_entry_visible(path: &str, depth: usize, expanded: &Vec<String>) -> (visible: bool)
    ensures
        visible == entry_visible(path@, depth as nat, expanded@.map_values(|e: String| e@)),
{
    let ghost ev = expanded@.map_values(|e: String| e@);
    let ghost ecs = path_texts_components(ev);
    if depth == 0 {
        return true;
    }
    let c = path_components(&chars_of(path));
    let ghost cv = c@.map_values(|w: Vec<char>| w@);
    if c.len() < depth {
        return false;
    }
    let mut dirs: Vec<Vec<Vec<char>>> = Vec::new();
    let mut e: usize = 0;
    while e < expanded.len()
        invariant
            e <= expanded@.len(),
            ev == expanded@.map_values(|e: String| e@),
            ecs == path_texts_components(ev),
            paths_view(dirs@) == ecs.subrange(0, e as int),
        decreases expanded@.len() - e,
    {
        let ghost before = paths_view(dirs@);
        dirs.push(path_components(&chars_of(expanded[e].as_str())));
        assert(ecs[e as int] == components(expanded@[e as int]@));
        assert(paths_view(dirs@) =~= before.push(ecs[e as int]));
        assert(ecs.subrange(0, e + 1) =~= ecs.subrange(0, e as int).push(ecs[e as int]));
        e = e + 1;
    }
    assert(ecs.subrange(0, ecs.len() as int) =~= ecs);
    let mut k: usize = 0;
    while k < depth
        invariant
            k <= depth,
            depth <= cv.len(),
            cv == c@.map_values(|w: Vec<char>| w@),
            cv == components(path@),
            ecs == path_texts_components(ev),
            ev == expanded@.map_values(|e: String| e@),
            paths_view(dirs@) == ecs,
            forall|m: int| 1 <= m <= k ==> #[trigger] ecs.contains(cv.subrange(0, cv.len() - m)),
        decreases depth - k,
    {
        let ancestor = slice_components(&c, c.len() - (k + 1));
        let ghost av = cv.subrange(0, cv.len() - (k + 1));
        let mut found = false;
        let mut j: usize = 0;
        while j < dirs.len() && !found
            invariant
                j <= dirs@.len(),
                paths_view(dirs@) == ecs,
                ancestor@.map_values(|w: Vec<char>| w@) == av,
                found ==> ecs.contains(av),
                !found ==> forall|i: int| 0 <= i < j ==> ecs[i] != av,
            decreases dirs@.len() - j,
        {
            assert(paths_view(dirs@)[j as int] == dirs@[j as int]@.map_values(|w: Vec<char>| w@));
            if same_component_lists(&dirs[j], &ancestor) {
                assert(ecs[j as int] == av);
                found = true;
            }
            j = j + 1;
        }
        if !found {
            assert(!ecs.contains(av));
            assert(!entry_visible(path@, depth as nat, ev)) by {
                assert(1 <= k + 1 <= depth);
                assert(!path_texts_components(ev).contains(components(path@).subrange(0, components(path@).len() - (k + 1))));
            }
            return false;
        }
        k = k + 1;
    }
    true
}

fn slice_components(c: &Vec<Vec<char>>, to: usize) -> (part: Vec<Vec<char>>)
    requires
        to <= c@.len(),
    ensures
        part@.map_values(|w: Vec<char>| w@) == c@.map_values(|w: Vec<char>| w@).subrange(0, to as int),
{
    let mut out: Vec<Vec<char>> = Vec::new();
    let mut k: usize = 0;
    while k < to
        invariant
            k <= to <= c@.len(),
            out@.map_values(|w: Vec<char>| w@) == c@.map_values(|w: Vec<char>| w@).subrange(0, k as int),
        decreases to - k,
    {
        let item = c[k].clone();
        assert(item@ =~= c@[k as int]@);
        let ghost before = out@;
        out.push(item);
        assert(out@.map_values(|w: Vec<char>| w@) =~= before.map_values(|w: Vec<char>| w@).push(item@));
        assert(out@.map_values(|w: Vec<char>| w@) =~= c@.map_values(|w: Vec<char>| w@).subrange(0, k + 1));
        k = k + 1;
    }
    out
}

} // verus!
