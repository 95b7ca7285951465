use vstd::prelude::*;
use crate::chars::{chars_of, contains_chars, contains_seq, push_text, same_text, same_texts, string_of};
use crate::project::{hosts_view, strings_view, Config, Project, RemoteHostConfig};
use crate::digits::{decimal_chars, decimal_chars_of};
use crate::markdown::{append, slice_of};

verus! {

/// The first-run screen opens only when neither a configuration nor a
/// project cache exists.
pub fn should_show_ftue(config_exists: bool, cache_exists: bool) -> (show: bool)
    ensures
        show == (!config_exists && !cache_exists),
{
    !config_exists && !cache_exists
}

/// A scan needs at least one local root or one remote host.
pub fn has_scan_sources(local_roots: usize, remote_hosts: usize) -> (has: bool)
    ensures
        has == (local_roots > 0 || remote_hosts > 0),
{
    local_roots > 0 || remote_hosts > 0
}

fn same_host(a: &RemoteHostConfig, b: &RemoteHostConfig) -> (same: bool)
    ensures
        same == (host_view_eq(*a, *b)),
{
    same_text(a.name.as_str(), b.name.as_str()) && same_text(a.host.as_str(), b.host.as_str())
        && same_texts(&a.roots, &b.roots) && a.max_depth == b.max_depth
}

pub open spec fn host_view_eq(a: RemoteHostConfig, b: RemoteHostConfig) -> bool {
    crate::project::host_view(a) == crate::project::host_view(b)
}

fn same_hosts(a: &Vec<RemoteHostConfig>, b: &Vec<RemoteHostConfig>) -> (same: bool)
    ensures
        same == (hosts_view(a@) == hosts_view(b@)),
{
    if a.len() != b.len() {
        assert(hosts_view(a@).len() != hosts_view(b@).len());
        return false;
    }
    let mut i: usize = 0;
    while i < a.len()
        invariant
            a@.len() == b@.len(),
            i <= a@.len(),
            forall|k: int| 0 <= k < i ==> host_view_eq(a@[k], b@[k]),
        decreases a@.len() - i,
    {
        if !same_host(&a[i], &b[i]) {
            assert(hosts_view(a@)[i as int] != hosts_view(b@)[i as int]);
            return false;
        }
        i = i + 1;
    }
    assert(hosts_view(a@) =~= hosts_view(b@));
    true
}

/// Whether the edited settings change what a catalog scan covers: the local
/// roots, the remote hosts, or the depth.
pub fn scan_sources_changed(
    current: &Config,
    scan_dirs: &Vec<String>,
    remote_hosts: &Vec<RemoteHostConfig>,
    max_depth: usize,
) -> (changed: bool)
    ensures
        changed == (strings_view(current.scan_dirs@) != strings_view(scan_dirs@)
            || hosts_view(current.remote_hosts@) != hosts_view(remote_hosts@)
            || current.max_depth != max_depth),
{
    !same_texts(&current.scan_dirs, scan_dirs) || !same_hosts(&current.remote_hosts, remote_hosts)
        || current.max_depth != max_depth
}

/// The indices, in catalog order, of the projects among the first `n`
/// whose search key contains the query.
pub open spec fn matching_project_indices(keys: Seq<Seq<char>>, query: Seq<char>, n: nat) -> Seq<usize>
    decreases n,
{
    if n == 0 {
        Seq::empty()
    } else {
        let earlier = matching_project_indices(keys, query, (n - 1) as nat);
        if contains_seq(keys[n - 1], query) {
            earlier.push((n - 1) as usize)
        } else {
            earlier
        }
    }
}

pub(crate) proof fn lemma_matching_indices_below(keys: Seq<Seq<char>>, query: Seq<char>, n: nat)
    requires
        n <= usize::MAX,
    ensures
        forall|j: int| 0 <= j < matching_project_indices(keys, query, n).len() ==> #[trigger] matching_project_indices(keys, query, n)[j] < n,
    decreases n,
{
    if n > 0 {
        lemma_matching_indices_below(keys, query, (n - 1) as nat);
        let e = matching_project_indices(keys, query, (n - 1) as nat);
        assert(((n - 1) as usize) as int == n - 1);
        assert forall|j: int| 0 <= j < matching_project_indices(keys, query, n).len() implies #[trigger] matching_project_indices(keys, query, n)[j] < n by {
            if j < e.len() {
                assert(matching_project_indices(keys, query, n)[j] == e[j]);
            }
        }
    }
}

pub open spec fn search_keys(projects: Seq<Project>) -> Seq<Seq<char>> {
    projects.map_values(|p: Project| p.search_key@)
}

/// The catalog positions of the projects whose search key contains `query`;
/// an empty query keeps every project.
pub fn filtered_project_indices(projects: &Vec<Project>, query: &str) -> (indices: Vec<usize>)
    ensures
        indices@ == matching_project_indices(search_keys(projects@), query@, projects@.len()),
{
    let needle = chars_of(query);
    let mut indices: Vec<usize> = Vec::new();
    let mut i: usize = 0;
    while i < projects.len()
        invariant
            i <= projects@.len(),
            needle@ == query@,
            indices@ == matching_project_indices(search_keys(projects@), query@, i as nat),
        decreases projects@.len() - i,
    {
        let key = chars_of(projects[i].search_key.as_str());
        assert(search_keys(projects@)[i as int] == key@);
        if contains_chars(&key, &needle) {
            indices.push(i);
        }
        i = i + 1;
    }
    indices
}

/// What a scan root turned out to be when it was looked up.
#[derive(Clone, Debug, PartialEq, Eq)]
pub enum RootStatus {
    Directory,
    NotDirectory,
    Unreadable(String),
}

pub open spec fn root_error_message(path: Seq<char>, status: RootStatus) -> Seq<char> {
    match status {
        RootStatus::Directory => Seq::empty(),
        RootStatus::NotDirectory => "Scan root is not a directory: "@ + path,
        RootStatus::Unreadable(error) => "Cannot scan "@ + path + ": "@ + error@,
    }
}

/// The roots that can be scanned (directories) among the first `n`, in order.
pub open spec fn available_roots(roots: Seq<(String, RootStatus)>, n: nat) -> Seq<Seq<char>>
    decreases n,
{
    if n == 0 {
        Seq::empty()
    } else {
        let earlier = available_roots(roots, (n - 1) as nat);
        if roots[n - 1].1 is Directory {
            earlier.push(roots[n - 1].0@)
        } else {
            earlier
        }
    }
}

/// One message for each of the first `n` roots that cannot be scanned.
pub open spec fn root_errors(roots: Seq<(String, RootStatus)>, n: nat) -> Seq<Seq<char>>
    decreases n,
{
    if n == 0 {
        Seq::empty()
    } else {
        let earlier = root_errors(roots, (n - 1) as nat);
        if roots[n - 1].1 is Directory {
            earlier
        } else {
            earlier.push(root_error_message(roots[n - 1].0@, roots[n - 1].1))
        }
    }
}

/// Splits the local scan roots into those that can be scanned and an error
/// message for each of the others, so that one unavailable root does not
/// block the rest.
pub fn partition_local_scan_roots(roots: Vec<(String, RootStatus)>) -> (parts: (Vec<String>, Vec<String>))
    ensures
        strings_view(parts.0@) == available_roots(roots@, roots@.len()),
        strings_view(parts.1@) == root_errors(roots@, roots@.len()),
{
    let mut available: Vec<String> = Vec::new();
    let mut errors: Vec<String> = Vec::new();
    let mut i: usize = 0;
    while i < roots.len()
        invariant
            i <= roots@.len(),
            strings_view(available@) == available_roots(roots@, i as nat),
            strings_view(errors@) == root_errors(roots@, i as nat),
        decreases roots@.len() - i,
    {
        let (path, status) = (&roots[i].0, &roots[i].1);
        let ghost a0 = available@;
        let ghost e0 = errors@;
        match status {
            RootStatus::Directory => {
                available.push(path.clone());
                assert(strings_view(available@) =~= strings_view(a0).push(path@));
            },
            RootStatus::NotDirectory => {
                let mut message: Vec<char> = Vec::new();
                push_text(&mut message, "Scan root is not a directory: ");
                push_text(&mut message, path.as_str());
                let text = string_of(&message);
                errors.push(text);
                assert(strings_view(errors@) =~= strings_view(e0).push(text@));
            },
            RootStatus::Unreadable(error) => {
                let mut message: Vec<char> = Vec::new();
                push_text(&mut message, "Cannot scan ");
                push_text(&mut message, path.as_str());
                push_text(&mut message, ": ");
                push_text(&mut message, error.as_str());
                let text = string_of(&message);
                errors.push(text);
                assert(strings_view(errors@) =~= strings_view(e0).push(text@));
            },
        }
        i = i + 1;
    }
    (available, errors)
}

/// How long ago a project changed, in the largest whole unit: "just now"
/// under a minute, then minutes, hours, and days ("5m ago"); a time in the
/// future counts as now.
pub open spec fn age_text(timestamp: u64, now: u64) -> Seq<char> {
    let elapsed: nat = if now >= timestamp { (now - timestamp) as nat } else { 0 };
    if elapsed < 60 {
        "just now"@
    } else if elapsed < 3600 {
        decimal_chars(elapsed / 60) + "m ago"@
    } else if elapsed < 86400 {
        decimal_chars(elapsed / 3600) + "h ago"@
    } else {
        decimal_chars(elapsed / 86400) + "d ago"@
    }
}

/// How long before `now` (seconds since the Unix epoch) the `timestamp`
/// lies (see `age_text`).
pub fn relative_age(timestamp: u64, now: u64) -> (text: String)
    ensures
        text@ == age_text(timestamp, now),
{
    let elapsed: u64 = if now >= timestamp { now - timestamp } else { 0 };
    if elapsed < 60 {
        return string_of(&chars_of("just now"));
    }
    let (count, unit) = if elapsed < 3600 {
        (elapsed / 60, "m ago")
    } else if elapsed < 86400 {
        (elapsed / 3600, "h ago")
    } else {
        (elapsed / 86400, "d ago")
    };
    let mut out = decimal_chars_of(count);
    append(&mut out, &chars_of(unit));
    string_of(&out)
}

/// The current time in whole seconds since the Unix epoch, from
/// `SystemTime::elapsed` on `std::time::UNIX_EPOCH`; `None` when the clock
/// is before the epoch. Nothing is said of the value: it is the time.
#[verifier::external_body]
fn unix_now() -> (now: Option<u64>)
{
    std::time::UNIX_EPOCH.elapsed().ok().map(|d| d.as_secs())
}

/// How long ago a project changed, measured from the current time (see
/// `age_text`); a clock before the epoch counts as no time passed.
pub fn relative_modified(timestamp: u64) -> (text: String)
    ensures
        exists|now: u64| text@ == age_text(timestamp, now),
{
    let now = match unix_now() {
        Some(n) => n,
        None => timestamp,
    };
    relative_age(timestamp, now)
}

/// The text without trailing slashes.
pub open spec fn trim_end_slashes(s: Seq<char>) -> Seq<char>
    decreases s.len(),
{
    if s.len() > 0 && s.last() == '/' {
        trim_end_slashes(s.drop_last())
    } else {
        s
    }
}

/// The position of the last `/` among the first `n` characters.
pub open spec fn last_slash(s: Seq<char>, n: nat) -> Option<nat>
    decreases n,
{
    if n == 0 {
        None
    } else if s[n - 1] == '/' {
        Some((n - 1) as nat)
    } else {
        last_slash(s, (n - 1) as nat)
    }
}

/// The parent directory of a path on an SSH host, trailing slashes ignored:
/// what precedes the last `/`, or "/" when that is nothing; `None` for the
/// root and for a path without `/`.
pub open spec fn remote_parent_spec(path: Seq<char>) -> Option<Seq<char>> {
    let t = trim_end_slashes(path);
    if t.len() == 0 {
        None
    } else {
        match last_slash(t, t.len()) {
            None => None,
            Some(i) => if i == 0 {
                Some("/"@)
            } else {
                Some(t.subrange(0, i as int))
            },
        }
    }
}

/// The parent directory of a path on an SSH host (see `remote_parent_spec`).
pub fn remote_parent_path(path: &str) -> (parent: Option<String>)
    ensures
        match parent {
            Some(p) => remote_parent_spec(path@) == Some(p@),
            None => remote_parent_spec(path@) is None,
        },
{
    let p = chars_of(path);
    let mut end: usize = p.len();
    assert(p@.subrange(0, p@.len() as int) =~= p@);
    while end > 0 && p[end - 1] == '/'
        invariant
            end <= p@.len(),
            trim_end_slashes(p@.subrange(0, end as int)) == trim_end_slashes(p@),
        decreases end,
    {
        assert(p@.subrange(0, end as int).drop_last() =~= p@.subrange(0, end - 1));
        end = end - 1;
    }
    let t = slice_of(&p, 0, end);
    assert(trim_end_slashes(t@) == t@);
    if end == 0 {
        return None;
    }
    let mut k: usize = end;
    while k > 0 && t[k - 1] != '/'
        invariant
            k <= t@.len(),
            last_slash(t@, t@.len()) == last_slash(t@, k as nat),
        decreases k,
    {
        k = k - 1;
    }
    if k == 0 {
        return None;
    }
    let i = k - 1;
    if i == 0 {
        Some(string_of(&chars_of("/")))
    } else {
        Some(string_of(&slice_of(&t, 0, i)))
    }
}

proof fn lemma_matching_indices_exact(keys: Seq<Seq<char>>, query: Seq<char>, n: nat)
    requires
        n <= usize::MAX,
        n <= keys.len(),
    ensures
        ({
            let kept = matching_project_indices(keys, query, n);
            &&& forall|j: int| 0 <= j < kept.len() ==> #[trigger] kept[j] < n && contains_seq(keys[kept[j] as int], query)
            &&& forall|a: int, b: int| 0 <= a < b < kept.len() ==> #[trigger] kept[a] < #[trigger] kept[b]
            &&& forall|k: int| 0 <= k < n && contains_seq(#[trigger] keys[k], query) ==> kept.contains(k as usize)
        }),
    decreases n,
{
    if n > 0 {
        lemma_matching_indices_exact(keys, query, (n - 1) as nat);
        let earlier = matching_project_indices(keys, query, (n - 1) as nat);
        let kept = matching_project_indices(keys, query, n);
        assert(((n - 1) as usize) as int == n - 1);
        if contains_seq(keys[n - 1], query) {
            assert(kept == earlier.push((n - 1) as usize));
            assert(kept[earlier.len() as int] == (n - 1) as usize);
            assert forall|k: int| 0 <= k < n && contains_seq(#[trigger] keys[k], query) implies kept.contains(k as usize) by {
                if k < n - 1 {
                    let j = choose|j: int| 0 <= j < earlier.len() && earlier[j] == k as usize;
                    assert(kept[j] == earlier[j]);
                } else {
                    assert(kept[earlier.len() as int] == k as usize);
                }
            }
            assert forall|j: int| 0 <= j < kept.len() implies #[trigger] kept[j] < n && contains_seq(keys[kept[j] as int], query) by {
                if j < earlier.len() {
                    assert(kept[j] == earlier[j]);
                }
            }
            assert forall|a: int, b: int| 0 <= a < b < kept.len() implies #[trigger] kept[a] < #[trigger] kept[b] by {
                assert(kept[a] == earlier[a]);
                if b < earlier.len() {
                    assert(kept[b] == earlier[b]);
                }
            }
        } else {
            assert forall|k: int| 0 <= k < n && contains_seq(#[trigger] keys[k], query) implies kept.contains(k as usize) by {
                assert(k < n - 1);
            }
        }
    }
}

/// Search keeps a project exactly when the query occurs somewhere in its
/// search key, at any position and not only at its start (so every project
/// for the empty query), and lists the kept positions in catalog order.
pub proof fn law_search_keeps_keys_containing_the_query(projects: Seq<Project>, query: Seq<char>)
    requires
        projects.len() <= usize::MAX,
    ensures
        ({
            let kept = matching_project_indices(search_keys(projects), query, projects.len());
            &&& forall|k: int|
                #![trigger projects[k]]
                0 <= k < projects.len() ==> (kept.contains(k as usize) <==> exists|i: int|
                    0 <= i && i + query.len() <= projects[k].search_key@.len()
                        && #[trigger] projects[k].search_key@.subrange(i, i + query.len()) == query)
            &&& forall|j: int| 0 <= j < kept.len() ==> #[trigger] kept[j] < projects.len()
            &&& forall|a: int, b: int| 0 <= a < b < kept.len() ==> #[trigger] kept[a] < #[trigger] kept[b]
        }),
{
    let keys = search_keys(projects);
    lemma_matching_indices_exact(keys, query, projects.len());
    let kept = matching_project_indices(keys, query, projects.len());
    assert forall|k: int| #![trigger projects[k]] 0 <= k < projects.len() implies (kept.contains(k as usize) <==> exists|i: int|
        0 <= i && i + query.len() <= projects[k].search_key@.len()
            && #[trigger] projects[k].search_key@.subrange(i, i + query.len()) == query) by {
        assert(keys[k] == projects[k].search_key@);
        if kept.contains(k as usize) {
            let j = choose|j: int| 0 <= j < kept.len() && kept[j] == k as usize;
            assert(kept[j] < projects.len());
            assert(contains_seq(keys[kept[j] as int], query));
            let i = choose|i: int| crate::chars::occurs_at(keys[k], query, i);
            assert(crate::chars::occurs_at(keys[k], query, i));
        }
        if exists|i: int| 0 <= i && i + query.len() <= projects[k].search_key@.len()
            && #[trigger] projects[k].search_key@.subrange(i, i + query.len()) == query {
            let i = choose|i: int| 0 <= i && i + query.len() <= projects[k].search_key@.len()
                && #[trigger] projects[k].search_key@.subrange(i, i + query.len()) == query;
            assert(crate::chars::occurs_at(keys[k], query, i));
            assert(contains_seq(keys[k], query));
        }
    }
}

} // verus!
