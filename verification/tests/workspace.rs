use devhub::commands::{filtered_commands, CommandId};
use devhub::filetree::GitDiffKind;
use devhub::workspace::{
    command_enabled, git_selections, launcher_branches, launcher_commands, navigate, selection_position,
    filter_key_action, launcher_empty_message, titlebar_branch, BranchList, LauncherMode, ChangeState, CommandContext, KeyAction, KeyContext, GitStatusSummary, NavigationAction, NavigationContext, NavigationKey, WorkspaceTab,
};

fn context(tab: WorkspaceTab) -> CommandContext {
    CommandContext {
        tab,
        has_project: true,
        project_has_git: true,
        has_open_file: false,
        git_busy: false,
        status: Some(GitStatusSummary { unstaged: 2, staged: 0, branch: Some("main".to_string()) }),
        selection: Some(GitDiffKind::Unstaged),
    }
}

#[test]
fn project_commands_need_a_project() {
    let mut ctx = context(WorkspaceTab::Overview);
    assert!(command_enabled(CommandId::OpenInZed, &ctx));
    assert!(command_enabled(CommandId::ToggleReadmePreview, &ctx));
    ctx.has_project = false;
    assert!(!command_enabled(CommandId::OpenInZed, &ctx));
    assert!(!command_enabled(CommandId::CopyProjectPath, &ctx));
    assert!(!command_enabled(CommandId::ToggleReadmePreview, &ctx));
    assert!(command_enabled(CommandId::RefreshProjects, &ctx));
    assert!(command_enabled(CommandId::SelectTheme, &ctx));
}

#[test]
fn git_commands_follow_the_status() {
    let mut ctx = context(WorkspaceTab::Git);
    assert!(command_enabled(CommandId::StageAllChanges, &ctx));
    assert!(!command_enabled(CommandId::UnstageAllChanges, &ctx));
    assert!(command_enabled(CommandId::StageSelectedChange, &ctx));
    assert!(command_enabled(CommandId::DiscardSelectedChange, &ctx));
    assert!(!command_enabled(CommandId::UnstageSelectedChange, &ctx));
    assert!(command_enabled(CommandId::PushGitBranch, &ctx));
    assert!(command_enabled(CommandId::ToggleContextPane, &ctx));
    ctx.status = Some(GitStatusSummary { unstaged: 0, staged: 1, branch: Some("detached".to_string()) });
    assert!(!command_enabled(CommandId::StageAllChanges, &ctx));
    assert!(command_enabled(CommandId::UnstageAllChanges, &ctx));
    assert!(!command_enabled(CommandId::PushGitBranch, &ctx));
    assert!(command_enabled(CommandId::FetchGitRemotes, &ctx));
    ctx.git_busy = true;
    assert!(!command_enabled(CommandId::FetchGitRemotes, &ctx));
    assert!(!command_enabled(CommandId::RefreshGit, &ctx));
    let files = context(WorkspaceTab::Files);
    assert!(!command_enabled(CommandId::RefreshGit, &files));
    assert!(!command_enabled(CommandId::ToggleFileWrap, &files));
    assert!(!command_enabled(CommandId::ToggleContextPane, &context(WorkspaceTab::History)));
}

#[test]
fn palette_lists_only_commands_that_apply() {
    let ctx = context(WorkspaceTab::Overview);
    let shown: Vec<CommandId> = launcher_commands("stage", &ctx).iter().map(|c| c.id).collect();
    let expected: Vec<CommandId> =
        filtered_commands("stage").iter().map(|c| c.id).filter(|id| command_enabled(*id, &ctx)).collect();
    assert_eq!(shown, expected);
    assert!(!shown.contains(&CommandId::StageAllChanges));
    let in_git: Vec<CommandId> = launcher_commands("stage", &context(WorkspaceTab::Git)).iter().map(|c| c.id).collect();
    assert!(in_git.contains(&CommandId::StageAllChanges));
}

#[test]
fn branches_filter_by_lowercase_query() {
    let names = vec!["main".to_string(), "Feature/Login".to_string(), "fix-login".to_string()];
    assert_eq!(launcher_branches(&names, "  LOGIN "), vec![1, 2]);
    assert_eq!(launcher_branches(&names, ""), vec![0, 1, 2]);
    assert_eq!(launcher_branches(&names, "zzz"), Vec::<usize>::new());
}

fn nav() -> NavigationContext {
    NavigationContext {
        launcher: None,
        document_focused: false,
        tab: WorkspaceTab::Overview,
        history_count: 0,
        history_selected: None,
        change_count: 0,
        change_current: None,
        project_count: 3,
        project_row: Some(1),
    }
}

#[test]
fn launcher_selection_wraps_around() {
    let mut ctx = nav();
    ctx.launcher = Some((4, 0));
    assert_eq!(navigate(NavigationKey::Previous, &ctx), NavigationAction::Launcher(3));
    assert_eq!(navigate(NavigationKey::Next, &ctx), NavigationAction::Launcher(1));
    assert_eq!(navigate(NavigationKey::Last, &ctx), NavigationAction::Launcher(3));
    ctx.launcher = Some((4, 3));
    assert_eq!(navigate(NavigationKey::Next, &ctx), NavigationAction::Launcher(0));
    assert_eq!(navigate(NavigationKey::First, &ctx), NavigationAction::Launcher(0));
    ctx.launcher = Some((0, 0));
    assert_eq!(navigate(NavigationKey::Next, &ctx), NavigationAction::Stay);
}

#[test]
fn history_and_changes_wrap_around() {
    let mut ctx = nav();
    ctx.tab = WorkspaceTab::History;
    ctx.history_count = 5;
    assert_eq!(navigate(NavigationKey::Previous, &ctx), NavigationAction::HistoryCommit(4));
    assert_eq!(navigate(NavigationKey::Next, &ctx), NavigationAction::HistoryCommit(0));
    ctx.history_selected = Some(2);
    assert_eq!(navigate(NavigationKey::Previous, &ctx), NavigationAction::HistoryCommit(1));
    assert_eq!(navigate(NavigationKey::Last, &ctx), NavigationAction::HistoryCommit(4));
    ctx.tab = WorkspaceTab::Git;
    assert_eq!(navigate(NavigationKey::Next, &ctx), NavigationAction::Stay);
    ctx.change_count = 3;
    assert_eq!(navigate(NavigationKey::Previous, &ctx), NavigationAction::GitChange(2));
    assert_eq!(navigate(NavigationKey::Next, &ctx), NavigationAction::GitChange(1));
    ctx.change_current = Some(2);
    assert_eq!(navigate(NavigationKey::Next, &ctx), NavigationAction::GitChange(0));
}

#[test]
fn project_list_does_not_wrap() {
    let mut ctx = nav();
    assert_eq!(navigate(NavigationKey::Previous, &ctx), NavigationAction::ProjectRow(0));
    assert_eq!(navigate(NavigationKey::Next, &ctx), NavigationAction::ProjectRow(2));
    ctx.project_row = Some(2);
    assert_eq!(navigate(NavigationKey::Next, &ctx), NavigationAction::ProjectRow(2));
    assert_eq!(navigate(NavigationKey::First, &ctx), NavigationAction::ProjectRow(0));
    ctx.project_count = 0;
    assert_eq!(navigate(NavigationKey::Last, &ctx), NavigationAction::Stay);
    ctx.project_count = 3;
    ctx.document_focused = true;
    assert_eq!(navigate(NavigationKey::Next, &ctx), NavigationAction::Stay);
}

fn state(conflicted: bool, unstaged: bool, staged: bool) -> ChangeState {
    ChangeState { conflicted, unstaged, staged }
}

#[test]
fn git_view_walks_conflicts_then_unstaged_then_staged() {
    let states = vec![
        state(false, true, true),
        state(false, false, true),
        state(true, true, true),
        state(false, true, false),
    ];
    let selections = git_selections(&states);
    assert_eq!(
        selections,
        vec![
            (2, GitDiffKind::Unstaged),
            (0, GitDiffKind::Unstaged),
            (3, GitDiffKind::Unstaged),
            (0, GitDiffKind::Staged),
            (1, GitDiffKind::Staged),
        ]
    );
    assert_eq!(selection_position(&selections, Some((0, GitDiffKind::Staged))), Some(3));
    assert_eq!(selection_position(&selections, Some((2, GitDiffKind::Staged))), None);
    assert_eq!(selection_position(&selections, None), None);
}

fn keys() -> KeyContext {
    KeyContext {
        launcher_open: false,
        settings_open: false,
        picker_open: false,
        document_focused: false,
        tab: WorkspaceTab::Overview,
        control: false,
        alt: false,
        function: false,
        history_file_open: false,
        history_commit_open: false,
        filter_empty: false,
    }
}

#[test]
fn escape_closes_the_innermost_thing() {
    let mut ctx = keys();
    assert_eq!(filter_key_action("escape", &ctx), KeyAction::ClearFilter);
    assert_eq!(filter_key_action("a", &ctx), KeyAction::Nothing);
    ctx.filter_empty = true;
    assert_eq!(filter_key_action("escape", &ctx), KeyAction::Nothing);
    ctx.settings_open = true;
    assert_eq!(filter_key_action("escape", &ctx), KeyAction::CloseSettings);
    ctx.picker_open = true;
    assert_eq!(filter_key_action("escape", &ctx), KeyAction::ClosePicker);
    ctx.launcher_open = true;
    assert_eq!(filter_key_action("escape", &ctx), KeyAction::Nothing);
    let mut ctx = keys();
    ctx.tab = WorkspaceTab::History;
    ctx.history_commit_open = true;
    assert_eq!(filter_key_action("escape", &ctx), KeyAction::CloseHistoryCommit);
    ctx.history_file_open = true;
    assert_eq!(filter_key_action("escape", &ctx), KeyAction::CloseHistoryFile);
}

#[test]
fn focused_documents_keep_plain_keys() {
    let mut ctx = keys();
    ctx.document_focused = true;
    ctx.tab = WorkspaceTab::Files;
    assert_eq!(filter_key_action("escape", &ctx), KeyAction::LeaveDocument);
    assert_eq!(filter_key_action("x", &ctx), KeyAction::Nothing);
    ctx.control = true;
    assert_eq!(filter_key_action("x", &ctx), KeyAction::Nothing);
    ctx.tab = WorkspaceTab::Overview;
    assert_eq!(filter_key_action("escape", &ctx), KeyAction::ClearFilter);
}

#[test]
fn a_step_forward_and_back_returns_to_the_same_item() {
    for count in 1..5usize {
        for selected in 0..count {
            let mut ctx = nav();
            ctx.launcher = Some((count, selected));
            let NavigationAction::Launcher(next) = navigate(NavigationKey::Next, &ctx) else { panic!("launcher") };
            assert!(next < count);
            ctx.launcher = Some((count, next));
            assert_eq!(navigate(NavigationKey::Previous, &ctx), NavigationAction::Launcher(selected));
        }
    }
}

#[test]
fn launcher_titles_and_empty_messages() {
    use_launcher_texts();
}

fn use_launcher_texts() {
    assert_eq!(devhub::workspace::launcher_title(LauncherMode::Editors), "Open in");
    assert_eq!(devhub::workspace::launcher_title(LauncherMode::Branches), "Branches");
    let msg = |mode, branches: &BranchList, query: &str, remote| launcher_empty_message(mode, branches, query, remote);
    assert_eq!(msg(LauncherMode::Branches, &BranchList::Loading, "", false), "loading branches...");
    assert_eq!(msg(LauncherMode::Branches, &BranchList::Failed("no repo".to_string()), "", false), "no repo");
    assert_eq!(msg(LauncherMode::Branches, &BranchList::Empty, "x", false), "no local branches");
    assert_eq!(msg(LauncherMode::Branches, &BranchList::Loaded, "x", false), "no matches");
    assert_eq!(msg(LauncherMode::Editors, &BranchList::Idle, "  ", true), "no detected editor supports SSH projects");
    assert_eq!(msg(LauncherMode::Editors, &BranchList::Idle, "", false), "no compatible editors detected");
    assert_eq!(msg(LauncherMode::Editors, &BranchList::Idle, "vs", false), "no matches");
    assert_eq!(msg(LauncherMode::Themes, &BranchList::Idle, "", false), "no matches");
}

#[test]
fn title_bar_names_the_branch() {
    let some = |s: &str| Some(s.to_string());
    assert_eq!(titlebar_branch(false, true, &some("main"), &some("dev")), some("main"));
    assert_eq!(titlebar_branch(false, true, &None, &some("dev")), some("dev"));
    assert_eq!(titlebar_branch(false, true, &None, &None), some("Git"));
    assert_eq!(titlebar_branch(true, true, &some("main"), &None), None);
    assert_eq!(titlebar_branch(false, false, &some("main"), &None), None);
}
