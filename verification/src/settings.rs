use vstd::prelude::*;
use crate::chars::{chars_of, same_text, string_of};
use crate::filetree::{components, path_components};
use crate::project::{hosts_view, strings_view, RemoteHostConfig};
use crate::textops::{trim, trimmed};

verus! {

/// Whether two paths name the same place: both or neither start at the
/// root, and they have the same components.
pub open spec fn same_path(a: Seq<char>, b: Seq<char>) -> bool {
    (a.len() > 0 && a[0] == '/') == (b.len() > 0 && b[0] == '/') && components(a) == components(b)
}

/// The first position at or after `from` of a path that is the same as
/// `p`.
pub open spec fn first_same_path(list: Seq<Seq<char>>, p: Seq<char>, from: nat) -> Option<nat>
    decreases list.len() - from,
{
    if from >= list.len() {
        None
    } else if same_path(list[from as int], p) {
        Some(from)
    } else {
        first_same_path(list, p, from + 1)
    }
}

fn starts_at_root(p: &Vec<char>) -> (root: bool)
    ensures
        root == (p@.len() > 0 && p@[0] == '/'),
{
    p.len() > 0 && p[0] == '/'
}

/// Whether two paths name the same place (see `same_path`).
pub fn is_same_path_text(a: &str, b: &str) -> (same: bool)
    ensures
        same == same_path(a@, b@),
{
    let x = chars_of(a);
    let y = chars_of(b);
    if starts_at_root(&x) != starts_at_root(&y) {
        return false;
    }
    let cx = path_components(&x);
    let cy = path_components(&y);
    crate::filetree::same_component_lists(&cx, &cy)
}

/// The position of the first path of the list that is the same as `path`.
pub fn path_position(list: &Vec<String>, path: &str) -> (found: Option<usize>)
    ensures
        match found {
            Some(i) => first_same_path(strings_view(list@), path@, 0) == Some(i as nat),
            None => first_same_path(strings_view(list@), path@, 0) is None,
        },
{
    let ghost lv = strings_view(list@);
    let mut i: usize = 0;
    while i < list.len()
        invariant
            i <= list@.len(),
            lv == strings_view(list@),
            first_same_path(lv, path@, 0) == first_same_path(lv, path@, i as nat),
        decreases list@.len() - i,
    {
        assert(lv[i as int] == list@[i as int]@);
        if is_same_path_text(list[i].as_str(), path) {
            return Some(i);
        }
        i = i + 1;
    }
    None
}

/// Pins or unpins (hides or shows) a project: removes the first entry for
/// its path, or adds the path when there is none. Says whether the path is
/// listed afterwards.
pub fn toggle_path(list: &mut Vec<String>, path: &str) -> (listed: bool)
    ensures
        listed == (first_same_path(strings_view(old(list)@), path@, 0) is None),
        match first_same_path(strings_view(old(list)@), path@, 0) {
            Some(i) => strings_view(final(list)@) == strings_view(old(list)@).remove(i as int),
            None => strings_view(final(list)@) == strings_view(old(list)@).push(path@),
        },
{
    let ghost before = strings_view(list@);
    match path_position(list, path) {
        Some(i) => {
            proof {
                lemma_first_same_path_bound(before, path@, 0);
            }
            list.remove(i);
            assert(strings_view(list@) =~= before.remove(i as int));
            false
        },
        None => {
            list.push(string_of(&chars_of(path)));
            assert(strings_view(list@) =~= before.push(path@));
            true
        },
    }
}

/// Removes the first entry for a path, if there is one.
pub fn remove_path(list: &mut Vec<String>, path: &str)
    ensures
        match first_same_path(strings_view(old(list)@), path@, 0) {
            Some(i) => strings_view(final(list)@) == strings_view(old(list)@).remove(i as int),
            None => strings_view(final(list)@) == strings_view(old(list)@),
        },
{
    let ghost before = strings_view(list@);
    if let Some(i) = path_position(list, path) {
        proof {
            lemma_first_same_path_bound(before, path@, 0);
        }
        list.remove(i);
        assert(strings_view(list@) =~= before.remove(i as int));
    }
}

/// Adds a folder to scan unless the same folder is listed already.
pub fn add_path_once(list: &mut Vec<String>, path: &str)
    ensures
        match first_same_path(strings_view(old(list)@), path@, 0) {
            Some(_) => strings_view(final(list)@) == strings_view(old(list)@),
            None => strings_view(final(list)@) == strings_view(old(list)@).push(path@),
        },
{
    let ghost before = strings_view(list@);
    if path_position(list, path).is_none() {
        list.push(string_of(&chars_of(path)));
        assert(strings_view(list@) =~= before.push(path@));
    }
}

/// Adds a root of a remote host unless it is listed already, as text.
pub fn add_root_once(roots: &mut Vec<String>, root: &str)
    ensures
        strings_view(old(roots)@).contains(root@) ==> strings_view(final(roots)@) == strings_view(old(roots)@),
        !strings_view(old(roots)@).contains(root@) ==> strings_view(final(roots)@) == strings_view(old(roots)@).push(
            root@,
        ),
{
    let ghost before = strings_view(roots@);
    let mut i: usize = 0;
    while i < roots.len()
        invariant
            i <= roots@.len(),
            before == strings_view(roots@),
            forall|j: int| 0 <= j < i ==> before[j] != root@,
        decreases roots@.len() - i,
    {
        if same_text(roots[i].as_str(), root) {
            assert(before[i as int] == root@);
            return;
        }
        i = i + 1;
    }
    roots.push(string_of(&chars_of(root)));
    assert(strings_view(roots@) =~= before.push(root@));
}

/// Removes the item at `index`; an index past the end changes nothing.
/// Says whether an item was removed.
pub fn remove_at<T>(list: &mut Vec<T>, index: usize) -> (removed: bool)
    ensures
        removed == (index < old(list)@.len()),
        removed ==> final(list)@ == old(list)@.remove(index as int),
        !removed ==> final(list)@ == old(list)@,
{
    if index < list.len() {
        list.remove(index);
        true
    } else {
        false
    }
}

/// The deepest a scan may go, and the shallowest.
pub open spec fn depth_in_range(d: int) -> int {
    if d < 1 {
        1
    } else if d > 20 {
        20
    } else {
        d
    }
}

/// One level deeper, up to 20.
pub fn increase_depth(depth: usize) -> (next: usize)
    ensures
        next == if depth < 20 { depth + 1 } else { depth as int },
{
    if depth < 20 { depth + 1 } else { depth }
}

/// One level shallower, down to 1.
pub fn decrease_depth(depth: usize) -> (next: usize)
    ensures
        next == if depth > 1 { depth - 1 } else { depth as int },
{
    if depth > 1 { depth - 1 } else { depth }
}

/// A remote host's depth moved by `delta` and kept between 1 and 20.
pub fn shifted_depth(depth: usize, delta: isize) -> (next: usize)
    ensures
        next == depth_in_range(depth + delta),
{
    let moved: usize = if delta >= 0 {
        depth.saturating_add(delta as usize)
    } else {
        let down: usize = (-(delta + 1)) as usize + 1;
        assert(down == -delta);
        depth.saturating_sub(down)
    };
    if moved < 1 {
        1
    } else if moved > 20 {
        20
    } else {
        moved
    }
}

/// The position of the host whose address is `host`.
pub open spec fn host_position(hosts: Seq<RemoteHostConfig>, host: Seq<char>, from: nat) -> Option<nat>
    decreases hosts.len() - from,
{
    if from >= hosts.len() {
        None
    } else if hosts[from as int].host@ == host {
        Some(from)
    } else {
        host_position(hosts, host, from + 1)
    }
}

/// Adds a remote host (its address already checked) with a name and a
/// depth, or, when the address is listed already, renames that host if the
/// trimmed name is not empty. Gives the position of the host.
pub fn add_remote_host(hosts: &mut Vec<RemoteHostConfig>, name: &str, host: String, max_depth: usize) -> (index: usize)
    ensures
        match host_position(old(hosts)@, host@, 0) {
            Some(i) => {
                &&& index == i
                &&& trim(name@).len() > 0 ==> hosts_view(final(hosts)@) == hosts_view(old(hosts)@).update(
                    i as int,
                    (trim(name@), old(hosts)@[i as int].host@, strings_view(old(hosts)@[i as int].roots@), old(hosts)@[i as int].max_depth),
                )
                &&& trim(name@).len() == 0 ==> hosts_view(final(hosts)@) == hosts_view(old(hosts)@)
            },
            None => {
                &&& index == old(hosts)@.len()
                &&& hosts_view(final(hosts)@) == hosts_view(old(hosts)@).push((trim(name@), host@, Seq::empty(), max_depth))
            },
        },
{
    let ghost before = hosts_view(hosts@);
    let ghost orig = hosts@;
    let clean = trimmed(&chars_of(name));
    let mut i: usize = 0;
    while i < hosts.len()
        invariant
            i <= hosts@.len(),
            hosts@ == orig,
            orig == old(hosts)@,
            before == hosts_view(hosts@),
            clean@ == trim(name@),
            host_position(hosts@, host@, 0) == host_position(hosts@, host@, i as nat),
        decreases hosts@.len() - i,
    {
        if same_text(hosts[i].host.as_str(), host.as_str()) {
            assert(host_position(orig, host@, i as nat) == Some(i as nat));
            assert(host_position(old(hosts)@, host@, 0) == Some(i as nat));
            if clean.len() > 0 {
                let old_host = hosts[i].host.clone();
                let roots = copy_roots(&hosts[i].roots);
                let depth = hosts[i].max_depth;
                hosts.set(i, RemoteHostConfig { name: string_of(&clean), host: old_host, roots, max_depth: depth });
                assert(hosts_view(hosts@) =~= before.update(
                    i as int,
                    (trim(name@), orig[i as int].host@, strings_view(orig[i as int].roots@), orig[i as int].max_depth),
                ));
            }
            return i;
        }
        i = i + 1;
    }
    let n = hosts.len();
    let fresh = RemoteHostConfig { name: string_of(&clean), host, roots: Vec::new(), max_depth };
    assert(strings_view(fresh.roots@) =~= Seq::<Seq<char>>::empty());
    hosts.push(fresh);
    assert(hosts_view(hosts@) =~= before.push((trim(name@), host@, Seq::empty(), max_depth)));
    n
}

fn copy_roots(roots: &Vec<String>) -> (copy: Vec<String>)
    ensures
        strings_view(copy@) == strings_view(roots@),
{
    let mut out: Vec<String> = Vec::new();
    let mut k: usize = 0;
    while k < roots.len()
        invariant
            k <= roots@.len(),
            strings_view(out@) == strings_view(roots@).subrange(0, k as int),
        decreases roots@.len() - k,
    {
        let ghost before = strings_view(out@);
        let item = roots[k].clone();
        assert(item@ == roots@[k as int]@);
        out.push(item);
        assert(strings_view(out@) =~= before.push(item@));
        assert(strings_view(roots@).subrange(0, k + 1) =~= strings_view(roots@).subrange(0, k as int).push(roots@[k as int]@));
        assert(strings_view(out@) =~= strings_view(roots@).subrange(0, k + 1));
        k = k + 1;
    }
    assert(strings_view(roots@).subrange(0, roots@.len() as int) =~= strings_view(roots@));
    out
}

proof fn lemma_first_same_path_bound(list: Seq<Seq<char>>, p: Seq<char>, from: nat)
    ensures
        match first_same_path(list, p, from) {
            Some(i) => from <= i < list.len() && same_path(list[i as int], p) && forall|j: int| from <= j < i ==> !same_path(#[trigger] list[j], p),
            None => forall|j: int| from <= j < list.len() ==> !same_path(#[trigger] list[j], p),
        },
    decreases list.len() - from,
{
    if from < list.len() && !same_path(list[from as int], p) {
        lemma_first_same_path_bound(list, p, from + 1);
    }
}

/// Toggling a pin flips whether the project is pinned, as long as its path
/// was listed at most once.
pub proof fn law_toggle_flips_membership(list: Seq<Seq<char>>, p: Seq<char>)
    requires
        forall|a: int, b: int| 0 <= a < b < list.len() && same_path(#[trigger] list[a], p) ==> !same_path(#[trigger] list[b], p),
    ensures
        match first_same_path(list, p, 0) {
            Some(i) => first_same_path(list.remove(i as int), p, 0) is None,
            None => first_same_path(list.push(p), p, 0) is Some,
        },
{
    lemma_first_same_path_bound(list, p, 0);
    match first_same_path(list, p, 0) {
        Some(i) => {
            let r = list.remove(i as int);
            lemma_first_same_path_bound(r, p, 0);
            if first_same_path(r, p, 0) is Some {
                let j = first_same_path(r, p, 0).unwrap();
                if j < i {
                    assert(r[j as int] == list[j as int]);
                } else {
                    assert(r[j as int] == list[j as int + 1]);
                }
            }
        },
        None => {
            let q = list.push(p);
            lemma_first_same_path_bound(q, p, 0);
            assert(q[list.len() as int] == p);
        },
    }
}

/// A remote host's depth always ends between 1 and 20, and stepping the
/// scan depth up or down keeps it there.
pub proof fn law_depths_stay_between_one_and_twenty(depth: int, delta: int)
    ensures
        1 <= depth_in_range(depth + delta) <= 20,
        1 <= depth <= 20 ==> 1 <= (if depth < 20 { depth + 1 } else { depth }) <= 20,
        1 <= depth <= 20 ==> 1 <= (if depth > 1 { depth - 1 } else { depth }) <= 20,
{
}

} // verus!
