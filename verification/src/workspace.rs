use vstd::prelude::*;
use crate::chars::{chars_of, contains_chars, contains_seq, string_of};
use crate::commands::{filtered_commands, filtered_commands_spec, CommandId, CommandSpec};
use crate::filetree::GitDiffKind;
use crate::mcp::{lowercase, lowercase_of};
use crate::scan::{next_selection, previous_selection, spec_next_selection, spec_previous_selection};
use crate::textops::{trim, trimmed};

verus! {

/// The panes of a project's workspace.
#[derive(Clone, Copy, Debug, PartialEq, Eq, Structural)]
pub enum WorkspaceTab {
    Overview,
    Files,
    Search,
    Git,
    History,
}

/// What a loaded git status says that commands depend on: how many changes
/// are unstaged and staged, and the current branch.
pub struct GitStatusSummary {
    pub unstaged: usize,
    pub staged: usize,
    pub branch: Option<String>,
}

/// The state of the workspace that decides which commands apply: the pane
/// shown, whether a project (with git) and a file are selected, whether a
/// git operation runs, the git status once loaded, and the side of the
/// selected change.
pub struct CommandContext {
    pub tab: WorkspaceTab,
    pub has_project: bool,
    pub project_has_git: bool,
    pub has_open_file: bool,
    pub git_busy: bool,
    pub status: Option<GitStatusSummary>,
    pub selection: Option<GitDiffKind>,
}

/// Whether the current branch can be pushed: the status is loaded and
/// names a branch other than "detached".
pub open spec fn branch_pushable(status: Option<GitStatusSummary>) -> bool {
    match status {
        Some(s) => match s.branch {
            Some(b) => b@ != "detached"@,
            None => false,
        },
        None => false,
    }
}

/// Whether a command applies in a state: project commands need a selected
/// project; the README preview needs the overview; file wrapping an open
/// file; the context pane the files, search or git pane; and the git
/// commands the git pane with no git operation running, plus what each
/// acts on.
pub open spec fn command_applies(command: CommandId, ctx: CommandContext) -> bool {
    let git_idle = ctx.tab == WorkspaceTab::Git && !ctx.git_busy;
    match command {
        CommandId::OpenInZed | CommandId::OpenInEditor | CommandId::ToggleProjectPin | CommandId::HideProject
        | CommandId::CopyProjectPath => ctx.has_project,
        CommandId::ToggleReadmePreview => ctx.has_project && ctx.tab == WorkspaceTab::Overview,
        CommandId::ToggleFileWrap => ctx.tab == WorkspaceTab::Files && ctx.has_open_file,
        CommandId::ToggleContextPane => ctx.tab == WorkspaceTab::Files || ctx.tab == WorkspaceTab::Search || ctx.tab
            == WorkspaceTab::Git,
        CommandId::RefreshGit | CommandId::FocusGitCommit => ctx.tab == WorkspaceTab::Git && ctx.has_project
            && !ctx.git_busy,
        CommandId::StageAllChanges => git_idle && match ctx.status {
            Some(s) => s.unstaged > 0,
            None => false,
        },
        CommandId::UnstageAllChanges => git_idle && match ctx.status {
            Some(s) => s.staged > 0,
            None => false,
        },
        CommandId::FetchGitRemotes => git_idle && ctx.has_project && ctx.project_has_git,
        CommandId::PushGitBranch => git_idle && ctx.has_project && ctx.project_has_git && branch_pushable(
            ctx.status,
        ),
        CommandId::StageSelectedChange | CommandId::DiscardSelectedChange => git_idle && ctx.selection == Some(
            GitDiffKind::Unstaged,
        ),
        CommandId::UnstageSelectedChange => git_idle && ctx.selection == Some(GitDiffKind::Staged),
        _ => true,
    }
}

fn is_detached(name: &String) -> (detached: bool)
    ensures
        detached == (name@ == "detached"@),
{
    let text = chars_of(name.as_str());
    crate::chars::chars_equal_str(&text, "detached")
}

/// Whether a command applies in a state (see `command_applies`).
pub fn command_enabled(command: CommandId, ctx: &CommandContext) -> (enabled: bool)
    ensures
        enabled == command_applies(command, *ctx),
{
    let git_idle = ctx.tab == WorkspaceTab::Git && !ctx.git_busy;
    match command {
        CommandId::OpenInZed | CommandId::OpenInEditor | CommandId::ToggleProjectPin | CommandId::HideProject
        | CommandId::CopyProjectPath => ctx.has_project,
        CommandId::ToggleReadmePreview => ctx.has_project && ctx.tab == WorkspaceTab::Overview,
        CommandId::ToggleFileWrap => ctx.tab == WorkspaceTab::Files && ctx.has_open_file,
        CommandId::ToggleContextPane => ctx.tab == WorkspaceTab::Files || ctx.tab == WorkspaceTab::Search || ctx.tab
            == WorkspaceTab::Git,
        CommandId::RefreshGit | CommandId::FocusGitCommit => ctx.tab == WorkspaceTab::Git && ctx.has_project
            && !ctx.git_busy,
        CommandId::StageAllChanges => git_idle && match &ctx.status {
            Some(s) => s.unstaged > 0,
            None => false,
        },
        CommandId::UnstageAllChanges => git_idle && match &ctx.status {
            Some(s) => s.staged > 0,
            None => false,
        },
        CommandId::FetchGitRemotes => git_idle && ctx.has_project && ctx.project_has_git,
        CommandId::PushGitBranch => {
            let pushable = match &ctx.status {
                Some(s) => match &s.branch {
                    Some(b) => !is_detached(b),
                    None => false,
                },
                None => false,
            };
            git_idle && ctx.has_project && ctx.project_has_git && pushable
        },
        CommandId::StageSelectedChange | CommandId::DiscardSelectedChange => git_idle && ctx.selection == Some(
            GitDiffKind::Unstaged,
        ),
        CommandId::UnstageSelectedChange => git_idle && ctx.selection == Some(GitDiffKind::Staged),
        _ => true,
    }
}

/// The commands of `found` that apply, in order.
pub open spec fn applicable(found: Seq<CommandSpec>, ctx: CommandContext) -> Seq<CommandSpec>
    decreases found.len(),
{
    if found.len() == 0 {
        Seq::empty()
    } else {
        let earlier = applicable(found.drop_last(), ctx);
        if command_applies(found.last().id, ctx) {
            earlier.push(found.last())
        } else {
            earlier
        }
    }
}

/// The palette's commands for a query: those that match it and apply.
pub fn launcher_commands(query: &str, ctx: &CommandContext) -> (commands: Vec<CommandSpec>)
    ensures
        commands@ == applicable(filtered_commands_spec(query@), *ctx),
{
    let found = filtered_commands(query);
    let mut commands: Vec<CommandSpec> = Vec::new();
    let mut i: usize = 0;
    while i < found.len()
        invariant
            i <= found@.len(),
            commands@ == applicable(found@.subrange(0, i as int), *ctx),
        decreases found@.len() - i,
    {
        let spec_item = found[i];
        assert(found@.subrange(0, i + 1).drop_last() =~= found@.subrange(0, i as int));
        if command_enabled(spec_item.id, ctx) {
            commands.push(spec_item);
        }
        i = i + 1;
    }
    assert(found@.subrange(0, found@.len() as int) =~= found@);
    commands
}

/// The positions of the branches whose lower-cased name contains the
/// trimmed, lower-cased query; all of them for an empty query.
pub open spec fn branch_matches(names: Seq<Seq<char>>, query: Seq<char>) -> Seq<usize>
    decreases names.len(),
{
    if names.len() == 0 {
        Seq::empty()
    } else {
        let earlier = branch_matches(names.drop_last(), query);
        let wanted = lowercase_of(trim(query));
        if wanted.len() == 0 || contains_seq(lowercase_of(names.last()), wanted) {
            earlier.push((names.len() - 1) as usize)
        } else {
            earlier
        }
    }
}

/// The branches offered for a query (see `branch_matches`).
pub fn launcher_branches(names: &Vec<String>, query: &str) -> (found: Vec<usize>)
    ensures
        found@ == branch_matches(names@.map_values(|n: String| n@), query@),
{
    let ghost nv = names@.map_values(|n: String| n@);
    let wanted = chars_of(lowercase(string_of(&trimmed(&chars_of(query))).as_str()).as_str());
    let mut found: Vec<usize> = Vec::new();
    let mut i: usize = 0;
    while i < names.len()
        invariant
            i <= names@.len(),
            nv == names@.map_values(|n: String| n@),
            wanted@ == lowercase_of(trim(query@)),
            found@ == branch_matches(nv.subrange(0, i as int), query@),
        decreases names@.len() - i,
    {
        assert(nv.subrange(0, i + 1).drop_last() =~= nv.subrange(0, i as int));
        assert(nv.subrange(0, i + 1).last() == names@[i as int]@);
        if wanted.len() == 0 {
            found.push(i);
        } else {
            let name = chars_of(lowercase(names[i].as_str()).as_str());
            if contains_chars(&name, &wanted) {
                found.push(i);
            }
        }
        i = i + 1;
    }
    assert(nv.subrange(0, nv.len() as int) =~= nv);
    found
}

/// A key that moves the selection.
#[derive(Clone, Copy, Debug, PartialEq, Eq, Structural)]
pub enum NavigationKey {
    Previous,
    Next,
    First,
    Last,
}

/// What moving the selection reads: the open launcher's item count and
/// selected item, whether a document has the focus, the pane shown, the
/// commits of the history and the selected one, the git changes and the
/// position of the selected one among them, and the rows of the project
/// list and the row of the selected project.
pub struct NavigationContext {
    pub launcher: Option<(usize, usize)>,
    pub document_focused: bool,
    pub tab: WorkspaceTab,
    pub history_count: usize,
    pub history_selected: Option<usize>,
    pub change_count: usize,
    pub change_current: Option<usize>,
    pub project_count: usize,
    pub project_row: Option<usize>,
}

/// Where moving the selection goes: nowhere, or to an item of the
/// launcher, a commit, a git change or a row of the project list.
#[derive(Clone, Copy, Debug, PartialEq, Eq, Structural)]
pub enum NavigationAction {
    Stay,
    Launcher(usize),
    HistoryCommit(usize),
    GitChange(usize),
    ProjectRow(usize),
}

/// Moving through `count` items that wrap around: the one before `current`
/// (the last one before the first), the one after it (the first one after
/// the last), or an end.
pub open spec fn cycled(key: NavigationKey, current: nat, count: nat) -> nat
    recommends
        count > 0,
{
    match key {
        NavigationKey::Previous => if current == 0 { (count - 1) as nat } else { (current - 1) as nat },
        NavigationKey::Next => (current + 1) % count,
        NavigationKey::First => 0,
        NavigationKey::Last => (count - 1) as nat,
    }
}

/// Where a key moves the selection: in the open launcher, its items wrap
/// around; a focused document keeps it; in the history, commits wrap
/// around (from none selected, Previous starts at the first and Next at
/// the last); among git changes, likewise from the selected change or the
/// first; elsewhere the project list moves without wrapping.
pub open spec fn navigation(key: NavigationKey, ctx: NavigationContext) -> NavigationAction {
    match ctx.launcher {
        Some((count, selected)) => if count == 0 {
            NavigationAction::Stay
        } else {
            NavigationAction::Launcher(cycled(key, selected as nat, count as nat) as usize)
        },
        None => if ctx.document_focused {
            NavigationAction::Stay
        } else if ctx.tab == WorkspaceTab::History {
            if ctx.history_count == 0 {
                NavigationAction::Stay
            } else {
                let current = match ctx.history_selected {
                    Some(i) => i as nat,
                    None => if key == NavigationKey::Previous { 0 } else { (ctx.history_count - 1) as nat },
                };
                NavigationAction::HistoryCommit(cycled(key, current, ctx.history_count as nat) as usize)
            }
        } else if ctx.tab == WorkspaceTab::Git {
            if ctx.change_count == 0 {
                NavigationAction::Stay
            } else {
                let current = match ctx.change_current {
                    Some(i) => i as nat,
                    None => 0,
                };
                NavigationAction::GitChange(cycled(key, current, ctx.change_count as nat) as usize)
            }
        } else {
            let row = match key {
                NavigationKey::Previous => spec_previous_selection(ctx.project_row, ctx.project_count),
                NavigationKey::Next => spec_next_selection(ctx.project_row, ctx.project_count),
                NavigationKey::First => if ctx.project_count > 0 { Some(0usize) } else { None },
                NavigationKey::Last => if ctx.project_count > 0 { Some((ctx.project_count - 1) as usize) } else { None },
            };
            match row {
                Some(r) => NavigationAction::ProjectRow(r),
                None => NavigationAction::Stay,
            }
        },
    }
}

fn cycle(key: NavigationKey, current: usize, count: usize) -> (next: usize)
    requires
        count > 0,
    ensures
        next == cycled(key, current as nat, count as nat),
        next < count || (key == NavigationKey::Previous && current > 0 && next == current - 1),
{
    match key {
        NavigationKey::Previous => if current == 0 { count - 1 } else { current - 1 },
        NavigationKey::Next => {
            let r = current % count;
            let n = if r + 1 == count { 0 } else { r + 1 };
            proof {
                let q = current as int / count as int;
                vstd::arithmetic::div_mod::lemma_fundamental_div_mod(current as int, count as int);
                assert(current as int == count as int * q + r as int);
                assert(count as int * q == q * count as int) by (nonlinear_arith);
                if r + 1 == count {
                    assert(current + 1 == (q + 1) * count as int) by (nonlinear_arith)
                        requires
                            current as int == q * count as int + r as int,
                            r + 1 == count,
                    ;
                    vstd::arithmetic::div_mod::lemma_fundamental_div_mod_converse(current + 1, count as int, q + 1, 0);
                } else {
                    vstd::arithmetic::div_mod::lemma_fundamental_div_mod_converse(current + 1, count as int, q, r + 1);
                }
            }
            n
        },
        NavigationKey::First => 0,
        NavigationKey::Last => count - 1,
    }
}

/// Where a key moves the selection (see `navigation`).
pub fn navigate(key: NavigationKey, ctx: &NavigationContext) -> (action: NavigationAction)
    ensures
        action == navigation(key, *ctx),
{
    match ctx.launcher {
        Some((count, selected)) => {
            if count == 0 {
                NavigationAction::Stay
            } else {
                NavigationAction::Launcher(cycle(key, selected, count))
            }
        },
        None => {
            if ctx.document_focused {
                NavigationAction::Stay
            } else if ctx.tab == WorkspaceTab::History {
                if ctx.history_count == 0 {
                    NavigationAction::Stay
                } else {
                    let current = match ctx.history_selected {
                        Some(i) => i,
                        None => if key == NavigationKey::Previous { 0 } else { ctx.history_count - 1 },
                    };
                    NavigationAction::HistoryCommit(cycle(key, current, ctx.history_count))
                }
            } else if ctx.tab == WorkspaceTab::Git {
                if ctx.change_count == 0 {
                    NavigationAction::Stay
                } else {
                    let current = match ctx.change_current {
                        Some(i) => i,
                        None => 0,
                    };
                    NavigationAction::GitChange(cycle(key, current, ctx.change_count))
                }
            } else {
                let row = match key {
                    NavigationKey::Previous => previous_selection(ctx.project_row, ctx.project_count),
                    NavigationKey::Next => next_selection(ctx.project_row, ctx.project_count),
                    NavigationKey::First => if ctx.project_count > 0 { Some(0usize) } else { None },
                    NavigationKey::Last => if ctx.project_count > 0 { Some(ctx.project_count - 1) } else { None },
                };
                match row {
                    Some(r) => NavigationAction::ProjectRow(r),
                    None => NavigationAction::Stay,
                }
            }
        },
    }
}

/// In a list that wraps around, a step forward and a step back undo each
/// other, and every step lands inside the list.
pub proof fn law_wrapping_steps_undo_each_other(current: nat, count: nat)
    requires
        current < count,
    ensures
        cycled(NavigationKey::Previous, cycled(NavigationKey::Next, current, count), count) == current,
        cycled(NavigationKey::Next, cycled(NavigationKey::Previous, current, count), count) == current,
        forall|key: NavigationKey| #[trigger] cycled(key, current, count) < count,
{
    let c = current as int;
    let n = count as int;
    if c + 1 < n {
        vstd::arithmetic::div_mod::lemma_small_mod((c + 1) as nat, count);
    } else {
        vstd::arithmetic::div_mod::lemma_fundamental_div_mod_converse(c + 1, n, 1, 0);
    }
    if c == 0 {
        vstd::arithmetic::div_mod::lemma_fundamental_div_mod_converse(n, n, 1, 0);
    } else {
        vstd::arithmetic::div_mod::lemma_small_mod(current, count);
    }
}

/// What git says of a changed file: whether it is in conflict, has changes
/// not yet staged, and has staged changes.
#[derive(Clone, Copy, Debug, PartialEq, Eq, Structural)]
pub struct ChangeState {
    pub conflicted: bool,
    pub unstaged: bool,
    pub staged: bool,
}

/// The groups the git view walks through in turn: conflicts, then unstaged
/// changes, then staged ones (a conflict is listed only once).
pub open spec fn in_group(s: ChangeState, group: nat) -> bool {
    if group == 0 {
        s.conflicted
    } else if group == 1 {
        s.unstaged && !s.conflicted
    } else {
        s.staged && !s.conflicted
    }
}

/// The positions of the changes in a group, in order.
pub open spec fn group_positions(states: Seq<ChangeState>, group: nat) -> Seq<usize>
    decreases states.len(),
{
    if states.len() == 0 {
        Seq::empty()
    } else if in_group(states.last(), group) {
        group_positions(states.drop_last(), group).push((states.len() - 1) as usize)
    } else {
        group_positions(states.drop_last(), group)
    }
}

/// Every change the git view can select, with the side it is shown from:
/// conflicts and unstaged changes from the working tree, staged changes
/// from the index.
pub open spec fn selection_order(states: Seq<ChangeState>) -> Seq<(usize, GitDiffKind)> {
    group_positions(states, 0).map_values(|i: usize| (i, GitDiffKind::Unstaged)) + group_positions(states, 1).map_values(
        |i: usize| (i, GitDiffKind::Unstaged),
    ) + group_positions(states, 2).map_values(|i: usize| (i, GitDiffKind::Staged))
}

fn group_of(states: &Vec<ChangeState>, group: usize, kind: GitDiffKind, out: &mut Vec<(usize, GitDiffKind)>)
    requires
        group <= 2,
    ensures
        final(out)@ == old(out)@ + group_positions(states@, group as nat).map_values(|i: usize| (i, kind)),
{
    let ghost start = out@;
    let mut i: usize = 0;
    while i < states.len()
        invariant
            i <= states@.len(),
            group <= 2,
            out@ == start + group_positions(states@.subrange(0, i as int), group as nat).map_values(|i: usize| (i, kind)),
        decreases states@.len() - i,
    {
        let s = states[i];
        let ghost prefix = states@.subrange(0, i + 1);
        assert(prefix.drop_last() =~= states@.subrange(0, i as int));
        assert(prefix.last() == s);
        let picked = if group == 0 {
            s.conflicted
        } else if group == 1 {
            s.unstaged && !s.conflicted
        } else {
            s.staged && !s.conflicted
        };
        let ghost before = out@;
        if picked {
            out.push((i, kind));
            assert(group_positions(prefix, group as nat) == group_positions(states@.subrange(0, i as int), group as nat).push(i));
            assert(out@ =~= start + group_positions(prefix, group as nat).map_values(|i: usize| (i, kind)));
        } else {
            assert(out@ =~= start + group_positions(prefix, group as nat).map_values(|i: usize| (i, kind)));
        }
        i = i + 1;
    }
    assert(states@.subrange(0, states@.len() as int) =~= states@);
}

/// Every change the git view can select (see `selection_order`), as the
/// position of the change and the side it is shown from.
pub fn git_selections(states: &Vec<ChangeState>) -> (selections: Vec<(usize, GitDiffKind)>)
    ensures
        selections@ == selection_order(states@),
{
    let mut out: Vec<(usize, GitDiffKind)> = Vec::new();
    group_of(states, 0, GitDiffKind::Unstaged, &mut out);
    group_of(states, 1, GitDiffKind::Unstaged, &mut out);
    group_of(states, 2, GitDiffKind::Staged, &mut out);
    assert(out@ =~= selection_order(states@));
    out
}

/// The first position at or after `from` of a selection.
pub open spec fn selection_at(selections: Seq<(usize, GitDiffKind)>, wanted: (usize, GitDiffKind), from: nat) -> Option<nat>
    decreases selections.len() - from,
{
    if from >= selections.len() {
        None
    } else if selections[from as int] == wanted {
        Some(from)
    } else {
        selection_at(selections, wanted, from + 1)
    }
}

/// Where the selected change stands among the selections, if it is there.
pub fn selection_position(selections: &Vec<(usize, GitDiffKind)>, current: Option<(usize, GitDiffKind)>) -> (position: Option<usize>)
    ensures
        position == match current {
            Some(c) => match selection_at(selections@, c, 0) {
                Some(p) => Some(p as usize),
                None => None,
            },
            None => None::<usize>,
        },
{
    let wanted = match current {
        Some(c) => c,
        None => return None,
    };
    let mut i: usize = 0;
    while i < selections.len()
        invariant
            i <= selections@.len(),
            current == Some(wanted),
            selection_at(selections@, wanted, 0) == selection_at(selections@, wanted, i as nat),
        decreases selections@.len() - i,
    {
        let s = selections[i];
        if s.0 == wanted.0 && s.1 == wanted.1 {
            return Some(i);
        }
        i = i + 1;
    }
    None
}

/// What a key pressed in the main window (outside the launcher) reads: the
/// settings and its folder picker, whether a document has the focus, the
/// pane, the modifiers held, what the history shows and whether the
/// project filter holds text.
pub struct KeyContext {
    pub launcher_open: bool,
    pub settings_open: bool,
    pub picker_open: bool,
    pub document_focused: bool,
    pub tab: WorkspaceTab,
    pub control: bool,
    pub alt: bool,
    pub function: bool,
    pub history_file_open: bool,
    pub history_commit_open: bool,
    pub filter_empty: bool,
}

/// What a key does there.
#[derive(Clone, Copy, Debug, PartialEq, Eq, Structural)]
pub enum KeyAction {
    Nothing,
    CloseSettings,
    ClosePicker,
    LeaveDocument,
    CloseHistoryFile,
    CloseHistoryCommit,
    ClearFilter,
}

/// What a key does: with the launcher open, nothing; in the settings,
/// Escape closes the folder picker, or else the settings; in a focused
/// document of the files or search pane, Escape leaves it and other keys
/// are left to the document unless Ctrl, Alt or Fn is held; in the history,
/// Escape closes the open file, or else the open commit; elsewhere Escape
/// clears the project filter when it holds text.
pub open spec fn key_action(key: Seq<char>, ctx: KeyContext) -> KeyAction {
    let escape = key == "escape"@;
    if ctx.launcher_open {
        KeyAction::Nothing
    } else if ctx.settings_open {
        if !escape {
            KeyAction::Nothing
        } else if ctx.picker_open {
            KeyAction::ClosePicker
        } else {
            KeyAction::CloseSettings
        }
    } else if ctx.document_focused && (ctx.tab == WorkspaceTab::Files || ctx.tab == WorkspaceTab::Search) && (escape
        || (!ctx.control && !ctx.alt && !ctx.function)) {
        if escape {
            KeyAction::LeaveDocument
        } else {
            KeyAction::Nothing
        }
    } else if escape && ctx.tab == WorkspaceTab::History {
        if ctx.history_file_open {
            KeyAction::CloseHistoryFile
        } else if ctx.history_commit_open {
            KeyAction::CloseHistoryCommit
        } else {
            KeyAction::Nothing
        }
    } else if escape && !ctx.filter_empty {
        KeyAction::ClearFilter
    } else {
        KeyAction::Nothing
    }
}

/// What a key does (see `key_action`).
pub fn filter_key_action(key: &str, ctx: &KeyContext) -> (action: KeyAction)
    ensures
        action == key_action(key@, *ctx),
{
    let escape = crate::chars::chars_equal_str(&chars_of(key), "escape");
    if ctx.launcher_open {
        return KeyAction::Nothing;
    }
    if ctx.settings_open {
        if !escape {
            return KeyAction::Nothing;
        }
        return if ctx.picker_open { KeyAction::ClosePicker } else { KeyAction::CloseSettings };
    }
    if ctx.document_focused && (ctx.tab == WorkspaceTab::Files || ctx.tab == WorkspaceTab::Search) {
        if escape {
            return KeyAction::LeaveDocument;
        }
        if !ctx.control && !ctx.alt && !ctx.function {
            return KeyAction::Nothing;
        }
    }
    if escape && ctx.tab == WorkspaceTab::History {
        return if ctx.history_file_open {
            KeyAction::CloseHistoryFile
        } else if ctx.history_commit_open {
            KeyAction::CloseHistoryCommit
        } else {
            KeyAction::Nothing
        };
    }
    if escape && !ctx.filter_empty {
        return KeyAction::ClearFilter;
    }
    KeyAction::Nothing
}

/// The lists the launcher shows.
#[derive(Clone, Copy, Debug, PartialEq, Eq, Structural)]
pub enum LauncherMode {
    Branches,
    Commands,
    Editors,
    Projects,
    Themes,
}

/// The title of the launcher for a list.
pub open spec fn launcher_title_text(mode: LauncherMode) -> Seq<char> {
    match mode {
        LauncherMode::Branches => "Branches"@,
        LauncherMode::Commands => "Commands"@,
        LauncherMode::Editors => "Open in"@,
        LauncherMode::Projects => "Projects"@,
        LauncherMode::Themes => "Themes"@,
    }
}

/// The title of the launcher for a list (see `launcher_title_text`).
pub fn launcher_title(mode: LauncherMode) -> (title: &'static str)
    ensures
        title@ == launcher_title_text(mode),
{
    match mode {
        LauncherMode::Branches => "Branches",
        LauncherMode::Commands => "Commands",
        LauncherMode::Editors => "Open in",
        LauncherMode::Projects => "Projects",
        LauncherMode::Themes => "Themes",
    }
}

/// Where loading the branches stands.
#[derive(Clone, Debug, PartialEq, Eq)]
pub enum BranchList {
    Idle,
    Loading,
    Failed(String),
    Empty,
    Loaded,
}

/// What the launcher says when its list is empty: for branches, how their
/// loading stands (its error when it failed); for editors with no query,
/// that none is detected (none supporting SSH for a remote project);
/// otherwise that nothing matches.
pub open spec fn launcher_empty_text(mode: LauncherMode, branches: BranchList, query: Seq<char>, remote_project: bool) -> Seq<char> {
    match mode {
        LauncherMode::Branches => match branches {
            BranchList::Idle | BranchList::Loading => "loading branches..."@,
            BranchList::Failed(e) => e@,
            BranchList::Empty => "no local branches"@,
            BranchList::Loaded => "no matches"@,
        },
        LauncherMode::Editors => if trim(query).len() == 0 {
            if remote_project {
                "no detected editor supports SSH projects"@
            } else {
                "no compatible editors detected"@
            }
        } else {
            "no matches"@
        },
        _ => "no matches"@,
    }
}

/// What the launcher says when its list is empty (see
/// `launcher_empty_text`).
pub fn launcher_empty_message(mode: LauncherMode, branches: &BranchList, query: &str, remote_project: bool) -> (message: String)
    ensures
        message@ == launcher_empty_text(mode, *branches, query@, remote_project),
{
    let text: &str = match mode {
        LauncherMode::Branches => match branches {
            BranchList::Idle | BranchList::Loading => "loading branches...",
            BranchList::Failed(e) => return e.clone(),
            BranchList::Empty => "no local branches",
            BranchList::Loaded => "no matches",
        },
        LauncherMode::Editors => {
            if trimmed(&chars_of(query)).len() == 0 {
                if remote_project {
                    "no detected editor supports SSH projects"
                } else {
                    "no compatible editors detected"
                }
            } else {
                "no matches"
            }
        },
        _ => "no matches",
    };
    string_of(&chars_of(text))
}

/// The branch shown in the title bar: none in the settings or without a
/// selected git project; else the status's branch once the status is
/// loaded and names one, else the current branch once the branches are
/// loaded, else "Git".
pub open spec fn titlebar_branch_text(
    settings_open: bool,
    git_project: bool,
    status_branch: Option<Seq<char>>,
    current_branch: Option<Seq<char>>,
) -> Option<Seq<char>> {
    if settings_open || !git_project {
        None
    } else {
        match status_branch {
            Some(b) => Some(b),
            None => match current_branch {
                Some(b) => Some(b),
                None => Some("Git"@),
            },
        }
    }
}

/// The branch shown in the title bar (see `titlebar_branch_text`).
/// `status_branch` is the branch of the loaded status; `current_branch` the
/// current one among the loaded branches.
pub fn titlebar_branch(
    settings_open: bool,
    git_project: bool,
    status_branch: &Option<String>,
    current_branch: &Option<String>,
) -> (branch: Option<String>)
    ensures
        match branch {
            Some(b) => titlebar_branch_text(settings_open, git_project, option_view(*status_branch), option_view(*current_branch))
                == Some(b@),
            None => titlebar_branch_text(settings_open, git_project, option_view(*status_branch), option_view(*current_branch))
                is None,
        },
{
    if settings_open || !git_project {
        return None;
    }
    match status_branch {
        Some(b) => Some(b.clone()),
        None => match current_branch {
            Some(b) => Some(b.clone()),
            None => Some(string_of(&chars_of("Git"))),
        },
    }
}

/// An optional text as plain values.
pub open spec fn option_view(t: Option<String>) -> Option<Seq<char>> {
    match t {
        Some(s) => Some(s@),
        None => None,
    }
}

} // verus!
