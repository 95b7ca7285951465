use vstd::prelude::*;
use crate::chars::{chars_of, same_text, string_of};
use crate::project::{strings_view, Project};
use crate::settings::{first_same_path, is_same_path_text, path_position, same_path};

verus! {

/// Where a project was: its path, and its SSH host for a remote project.
#[derive(Clone, Debug, PartialEq, Eq)]
pub struct ProjectLocator {
    pub path: String,
    pub remote_host: Option<String>,
}

/// A locator as plain values.
pub open spec fn locator_view(l: ProjectLocator) -> (Seq<char>, Option<Seq<char>>) {
    (
        l.path@,
        match l.remote_host {
            Some(h) => Some(h@),
            None => None,
        },
    )
}

/// The locator of a project.
pub fn project_locator(project: &Project) -> (locator: ProjectLocator)
    ensures
        locator_view(locator) == (project.path@, project.source.spec_host()),
{
    ProjectLocator {
        path: string_of(&chars_of(project.path.as_str())),
        remote_host: match project.source.host() {
            Some(h) => Some(string_of(&chars_of(h))),
            None => None,
        },
    }
}

/// Whether a project is the one a locator names: the same path, on the same
/// host (or both local).
pub open spec fn locator_matches(project: Project, locator: (Seq<char>, Option<Seq<char>>)) -> bool {
    same_path(project.path@, locator.0) && project.source.spec_host() == locator.1
}

/// Whether a project is the one a locator names (see `locator_matches`).
pub fn project_locator_matches(project: &Project, locator: &ProjectLocator) -> (matches: bool)
    ensures
        matches == locator_matches(*project, locator_view(*locator)),
{
    if !is_same_path_text(project.path.as_str(), locator.path.as_str()) {
        return false;
    }
    match (project.source.host(), &locator.remote_host) {
        (Some(a), Some(b)) => same_text(a, b.as_str()),
        (None, None) => true,
        _ => false,
    }
}

/// The first project at or after `from` that a locator names.
pub open spec fn located(projects: Seq<Project>, locator: (Seq<char>, Option<Seq<char>>), from: nat) -> Option<nat>
    decreases projects.len() - from,
{
    if from >= projects.len() {
        None
    } else if locator_matches(projects[from as int], locator) {
        Some(from)
    } else {
        located(projects, locator, from + 1)
    }
}

/// The position of the first project a locator names.
pub fn locate_project(projects: &Vec<Project>, locator: &ProjectLocator) -> (found: Option<usize>)
    ensures
        match found {
            Some(i) => located(projects@, locator_view(*locator), 0) == Some(i as nat),
            None => located(projects@, locator_view(*locator), 0) is None,
        },
{
    let mut i: usize = 0;
    while i < projects.len()
        invariant
            i <= projects@.len(),
            located(projects@, locator_view(*locator), 0) == located(projects@, locator_view(*locator), i as nat),
        decreases projects@.len() - i,
    {
        if project_locator_matches(&projects[i], locator) {
            return Some(i);
        }
        i = i + 1;
    }
    None
}

/// The first project at or after `from` that is not hidden.
pub open spec fn first_shown(projects: Seq<Project>, hidden: Seq<Seq<char>>, from: nat) -> Option<nat>
    decreases projects.len() - from,
{
    if from >= projects.len() {
        None
    } else if first_same_path(hidden, projects[from as int].path@, 0) is None {
        Some(from)
    } else {
        first_shown(projects, hidden, from + 1)
    }
}

/// What reopening the app selects: a project, by position; the last
/// project's locator as missing; or nothing.
#[derive(Clone, Copy, Debug, PartialEq, Eq, Structural)]
pub enum RestoreOutcome {
    Select(usize),
    Missing,
    Nothing,
}

/// What reopening the app selects. The last project, when it is in the
/// catalog, not hidden, and remote or with its folder still there
/// (`last_exists`, which the caller checks for the located project); when
/// it is missing from the catalog or its folder is gone, it is reported
/// missing. Otherwise (no last project, or a hidden one) the first project
/// that is not hidden, if any.
pub open spec fn restore_choice(
    projects: Seq<Project>,
    hidden: Seq<Seq<char>>,
    last: Option<(Seq<char>, Option<Seq<char>>)>,
    last_exists: bool,
) -> RestoreOutcome {
    let fallback = match first_shown(projects, hidden, 0) {
        Some(i) => RestoreOutcome::Select(i as usize),
        None => RestoreOutcome::Nothing,
    };
    match last {
        None => fallback,
        Some(locator) => match located(projects, locator, 0) {
            None => RestoreOutcome::Missing,
            Some(i) => if first_same_path(hidden, projects[i as int].path@, 0) is Some {
                fallback
            } else if projects[i as int].source.spec_is_remote() || last_exists {
                RestoreOutcome::Select(i as usize)
            } else {
                RestoreOutcome::Missing
            },
        },
    }
}

proof fn lemma_located_bound(projects: Seq<Project>, locator: (Seq<char>, Option<Seq<char>>), from: nat)
    ensures
        located(projects, locator, from) matches Some(i) ==> i < projects.len(),
    decreases projects.len() - from,
{
    if from < projects.len() && !locator_matches(projects[from as int], locator) {
        lemma_located_bound(projects, locator, from + 1);
    }
}

/// What reopening the app selects (see `restore_choice`).
pub fn restore_outcome(
    projects: &Vec<Project>,
    hidden: &Vec<String>,
    last: &Option<ProjectLocator>,
    last_exists: bool,
) -> (outcome: RestoreOutcome)
    ensures
        outcome == restore_choice(
            projects@,
            strings_view(hidden@),
            match last {
                Some(l) => Some(locator_view(*l)),
                None => None,
            },
            last_exists,
        ),
{
    if let Some(locator) = last {
        match locate_project(projects, locator) {
            None => return RestoreOutcome::Missing,
            Some(i) => {
                proof {
                    lemma_located_bound(projects@, locator_view(*locator), 0);
                }
                if path_position(hidden, projects[i].path.as_str()).is_none() {
                    if projects[i].source.is_remote() || last_exists {
                        return RestoreOutcome::Select(i);
                    } else {
                        return RestoreOutcome::Missing;
                    }
                }
            },
        }
    }
    let ghost choice = restore_choice(
        projects@,
        strings_view(hidden@),
        match last {
            Some(l) => Some(locator_view(*l)),
            None => None,
        },
        last_exists,
    );
    assert(choice == match first_shown(projects@, strings_view(hidden@), 0) {
        Some(k) => RestoreOutcome::Select(k as usize),
        None => RestoreOutcome::Nothing,
    });
    let mut i: usize = 0;
    while i < projects.len()
        invariant
            i <= projects@.len(),
            first_shown(projects@, strings_view(hidden@), 0) == first_shown(projects@, strings_view(hidden@), i as nat),
            choice == match first_shown(projects@, strings_view(hidden@), 0) {
                Some(k) => RestoreOutcome::Select(k as usize),
                None => RestoreOutcome::Nothing,
            },
            choice == restore_choice(
                projects@,
                strings_view(hidden@),
                match last {
                    Some(l) => Some(locator_view(*l)),
                    None => None,
                },
                last_exists,
            ),
        decreases projects@.len() - i,
    {
        if path_position(hidden, projects[i].path.as_str()).is_none() {
            return RestoreOutcome::Select(i);
        }
        i = i + 1;
    }
    RestoreOutcome::Nothing
}

/// The projects that a locator does not name, in order.
pub open spec fn without_located(projects: Seq<Project>, locator: (Seq<char>, Option<Seq<char>>)) -> Seq<Project>
    decreases projects.len(),
{
    if projects.len() == 0 {
        Seq::empty()
    } else {
        let rest = without_located(projects.drop_first(), locator);
        if locator_matches(projects[0], locator) {
            rest
        } else {
            seq![projects[0]] + rest
        }
    }
}

/// Drops from the catalog every project that a locator names.
pub fn forget_located(projects: &mut Vec<Project>, locator: &ProjectLocator)
    ensures
        final(projects)@ == without_located(old(projects)@, locator_view(*locator)),
{
    let ghost orig = projects@;
    let mut i: usize = projects.len();
    assert(orig.subrange(orig.len() as int, orig.len() as int) =~= Seq::<Project>::empty());
    assert(orig.subrange(0, orig.len() as int) =~= orig);
    while i > 0
        invariant
            i <= orig.len(),
            projects@ == orig.subrange(0, i as int) + without_located(orig.subrange(i as int, orig.len() as int), locator_view(*locator)),
        decreases i,
    {
        let ghost tail = orig.subrange(i as int, orig.len() as int);
        let ghost longer = orig.subrange(i - 1, orig.len() as int);
        assert(longer.drop_first() =~= tail);
        assert(longer[0] == orig[i - 1]);
        assert(projects@[i - 1] == orig[i - 1]);
        if project_locator_matches(&projects[i - 1], locator) {
            let ghost before = projects@;
            projects.remove(i - 1);
            assert(projects@ =~= orig.subrange(0, i - 1) + without_located(longer, locator_view(*locator)));
        } else {
            assert(projects@ =~= orig.subrange(0, i - 1) + without_located(longer, locator_view(*locator)));
        }
        i = i - 1;
    }
    assert(orig.subrange(0, 0) =~= Seq::<Project>::empty());
    assert(projects@ =~= without_located(orig, locator_view(*locator)));
}

proof fn lemma_located_none(projects: Seq<Project>, locator: (Seq<char>, Option<Seq<char>>), from: nat)
    requires
        forall|j: int| from <= j < projects.len() ==> !locator_matches(#[trigger] projects[j], locator),
    ensures
        located(projects, locator, from) is None,
    decreases projects.len() - from,
{
    if from < projects.len() {
        lemma_located_none(projects, locator, from + 1);
    }
}

proof fn lemma_without_located_clean(projects: Seq<Project>, locator: (Seq<char>, Option<Seq<char>>))
    ensures
        forall|j: int|
            0 <= j < without_located(projects, locator).len() ==> !locator_matches(
                #[trigger] without_located(projects, locator)[j],
                locator,
            ),
    decreases projects.len(),
{
    if projects.len() > 0 {
        lemma_without_located_clean(projects.drop_first(), locator);
        let rest = without_located(projects.drop_first(), locator);
        if !locator_matches(projects[0], locator) {
            let w = seq![projects[0]] + rest;
            assert forall|j: int| 0 <= j < w.len() implies !locator_matches(#[trigger] w[j], locator) by {
                if j > 0 {
                    assert(w[j] == rest[j - 1]);
                }
            }
        }
    }
}

/// Once a missing project is forgotten, the catalog holds no project that
/// its locator names.
pub proof fn law_forgotten_project_is_gone(projects: Seq<Project>, locator: (Seq<char>, Option<Seq<char>>))
    ensures
        located(without_located(projects, locator), locator, 0) is None,
{
    lemma_without_located_clean(projects, locator);
    lemma_located_none(without_located(projects, locator), locator, 0);
}

} // verus!
