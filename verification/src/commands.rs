use vstd::prelude::*;
use crate::chars::chars_of;
use crate::ranking::{lemma_rank_order_total, rank_order, sort_ranked};
use crate::textops::{
    ascii_lower_seq, ascii_lowercase, lemma_score_bounded, split_words, subsequence_score,
    subsequence_score_of, trim, trimmed, words,
};

verus! {

/// The actions that the command palette offers.
#[derive(Clone, Copy, Debug, PartialEq, Eq, Structural)]
pub enum CommandId {
    ToggleProjectCatalog,
    ShowOverview,
    ShowFiles,
    ShowSearch,
    ShowGit,
    ShowHistory,
    RefreshGit,
    StageSelectedChange,
    StageAllChanges,
    UnstageSelectedChange,
    UnstageAllChanges,
    DiscardSelectedChange,
    FocusGitCommit,
    FetchGitRemotes,
    PushGitBranch,
    OpenInZed,
    OpenInEditor,
    ToggleProjectPin,
    HideProject,
    CopyProjectPath,
    RefreshProjects,
    ToggleContextPane,
    ToggleReadmePreview,
    ToggleFileWrap,
    SelectTheme,
    ShowSettings,
    ToggleTerminal,
    ToggleAskProject,
}

/// A command of the palette: what it does, its title, the category it is
/// listed under and its keyboard shortcut, if it has one.
#[derive(Clone, Copy, Debug, PartialEq, Eq)]
pub struct CommandSpec {
    pub id: CommandId,
    pub title: &'static str,
    pub category: &'static str,
    pub shortcut: Option<&'static str>,
}

/// The commands in the order the palette lists them.
pub open spec fn all_command_ids() -> Seq<CommandId> {
    seq![
        CommandId::ToggleProjectCatalog,
        CommandId::ShowOverview,
        CommandId::ShowFiles,
        CommandId::ShowSearch,
        CommandId::ShowGit,
        CommandId::ShowHistory,
        CommandId::RefreshGit,
        CommandId::StageSelectedChange,
        CommandId::StageAllChanges,
        CommandId::UnstageSelectedChange,
        CommandId::UnstageAllChanges,
        CommandId::DiscardSelectedChange,
        CommandId::FocusGitCommit,
        CommandId::FetchGitRemotes,
        CommandId::PushGitBranch,
        CommandId::OpenInZed,
        CommandId::OpenInEditor,
        CommandId::ToggleProjectPin,
        CommandId::HideProject,
        CommandId::CopyProjectPath,
        CommandId::RefreshProjects,
        CommandId::ToggleContextPane,
        CommandId::ToggleReadmePreview,
        CommandId::ToggleFileWrap,
        CommandId::SelectTheme,
        CommandId::ShowSettings,
        CommandId::ToggleTerminal,
        CommandId::ToggleAskProject
    ]
}

/// The registry entry of a command.
pub open spec fn command_spec_of(id: CommandId) -> CommandSpec {
    match id {
        CommandId::ToggleProjectCatalog => CommandSpec { id: CommandId::ToggleProjectCatalog, title: "Toggle Project Catalog", category: "Navigation", shortcut: Some("Ctrl+1") },
        CommandId::ShowOverview => CommandSpec { id: CommandId::ShowOverview, title: "Go to Overview", category: "Navigation", shortcut: Some("Ctrl+2") },
        CommandId::ShowFiles => CommandSpec { id: CommandId::ShowFiles, title: "Go to Files", category: "Navigation", shortcut: Some("Ctrl+3") },
        CommandId::ShowSearch => CommandSpec { id: CommandId::ShowSearch, title: "Search Project Contents", category: "Navigation", shortcut: Some("Ctrl+4") },
        CommandId::ShowGit => CommandSpec { id: CommandId::ShowGit, title: "Go to Git Changes", category: "Navigation", shortcut: Some("Ctrl+5") },
        CommandId::ShowHistory => CommandSpec { id: CommandId::ShowHistory, title: "Go to Commit History", category: "Navigation", shortcut: None },
        CommandId::RefreshGit => CommandSpec { id: CommandId::RefreshGit, title: "Refresh Git Status", category: "Git", shortcut: None },
        CommandId::StageSelectedChange => CommandSpec { id: CommandId::StageSelectedChange, title: "Stage Selected Change", category: "Git", shortcut: None },
        CommandId::StageAllChanges => CommandSpec { id: CommandId::StageAllChanges, title: "Stage All Changes", category: "Git", shortcut: None },
        CommandId::UnstageSelectedChange => CommandSpec { id: CommandId::UnstageSelectedChange, title: "Unstage Selected Change", category: "Git", shortcut: None },
        CommandId::UnstageAllChanges => CommandSpec { id: CommandId::UnstageAllChanges, title: "Unstage All Changes", category: "Git", shortcut: None },
        CommandId::DiscardSelectedChange => CommandSpec { id: CommandId::DiscardSelectedChange, title: "Discard Selected Change", category: "Git", shortcut: None },
        CommandId::FocusGitCommit => CommandSpec { id: CommandId::FocusGitCommit, title: "Write Commit Message", category: "Git", shortcut: None },
        CommandId::FetchGitRemotes => CommandSpec { id: CommandId::FetchGitRemotes, title: "Fetch Git Remotes", category: "Git", shortcut: None },
        CommandId::PushGitBranch => CommandSpec { id: CommandId::PushGitBranch, title: "Push Current Git Branch", category: "Git", shortcut: None },
        CommandId::OpenInZed => CommandSpec { id: CommandId::OpenInZed, title: "Open Project in Zed", category: "Project", shortcut: None },
        CommandId::OpenInEditor => CommandSpec { id: CommandId::OpenInEditor, title: "Open Project In...", category: "Project", shortcut: None },
        CommandId::ToggleProjectPin => CommandSpec { id: CommandId::ToggleProjectPin, title: "Toggle Project Pin", category: "Project", shortcut: None },
        CommandId::HideProject => CommandSpec { id: CommandId::HideProject, title: "Hide Project", category: "Project", shortcut: None },
        CommandId::CopyProjectPath => CommandSpec { id: CommandId::CopyProjectPath, title: "Copy Project Path", category: "Project", shortcut: None },
        CommandId::RefreshProjects => CommandSpec { id: CommandId::RefreshProjects, title: "Refresh Projects", category: "Project", shortcut: Some("Ctrl+R") },
        CommandId::ToggleContextPane => CommandSpec { id: CommandId::ToggleContextPane, title: "Toggle Context Pane", category: "View", shortcut: Some("Ctrl+B") },
        CommandId::ToggleReadmePreview => CommandSpec { id: CommandId::ToggleReadmePreview, title: "Toggle README Preview", category: "View", shortcut: None },
        CommandId::ToggleFileWrap => CommandSpec { id: CommandId::ToggleFileWrap, title: "Toggle File Wrap", category: "View", shortcut: None },
        CommandId::SelectTheme => CommandSpec { id: CommandId::SelectTheme, title: "Select Theme", category: "Appearance", shortcut: None },
        CommandId::ShowSettings => CommandSpec { id: CommandId::ShowSettings, title: "Open Settings", category: "Application", shortcut: None },
        CommandId::ToggleTerminal => CommandSpec { id: CommandId::ToggleTerminal, title: "Toggle Terminal", category: "View", shortcut: Some("Ctrl+`") },
        CommandId::ToggleAskProject => CommandSpec { id: CommandId::ToggleAskProject, title: "Toggle Ask Project", category: "View", shortcut: Some("Ctrl+Shift+A") },
    }
}

/// The command registry, in palette order.
pub open spec fn registry() -> Seq<CommandSpec> {
    all_command_ids().map_values(|id: CommandId| command_spec_of(id))
}

/// The registry entry of a command.
pub fn command_spec(id: CommandId) -> (spec: CommandSpec)
    ensures
        spec == command_spec_of(id),
{
    match id {
        CommandId::ToggleProjectCatalog => CommandSpec { id: CommandId::ToggleProjectCatalog, title: "Toggle Project Catalog", category: "Navigation", shortcut: Some("Ctrl+1") },
        CommandId::ShowOverview => CommandSpec { id: CommandId::ShowOverview, title: "Go to Overview", category: "Navigation", shortcut: Some("Ctrl+2") },
        CommandId::ShowFiles => CommandSpec { id: CommandId::ShowFiles, title: "Go to Files", category: "Navigation", shortcut: Some("Ctrl+3") },
        CommandId::ShowSearch => CommandSpec { id: CommandId::ShowSearch, title: "Search Project Contents", category: "Navigation", shortcut: Some("Ctrl+4") },
        CommandId::ShowGit => CommandSpec { id: CommandId::ShowGit, title: "Go to Git Changes", category: "Navigation", shortcut: Some("Ctrl+5") },
        CommandId::ShowHistory => CommandSpec { id: CommandId::ShowHistory, title: "Go to Commit History", category: "Navigation", shortcut: None },
        CommandId::RefreshGit => CommandSpec { id: CommandId::RefreshGit, title: "Refresh Git Status", category: "Git", shortcut: None },
        CommandId::StageSelectedChange => CommandSpec { id: CommandId::StageSelectedChange, title: "Stage Selected Change", category: "Git", shortcut: None },
        CommandId::StageAllChanges => CommandSpec { id: CommandId::StageAllChanges, title: "Stage All Changes", category: "Git", shortcut: None },
        CommandId::UnstageSelectedChange => CommandSpec { id: CommandId::UnstageSelectedChange, title: "Unstage Selected Change", category: "Git", shortcut: None },
        CommandId::UnstageAllChanges => CommandSpec { id: CommandId::UnstageAllChanges, title: "Unstage All Changes", category: "Git", shortcut: None },
        CommandId::DiscardSelectedChange => CommandSpec { id: CommandId::DiscardSelectedChange, title: "Discard Selected Change", category: "Git", shortcut: None },
        CommandId::FocusGitCommit => CommandSpec { id: CommandId::FocusGitCommit, title: "Write Commit Message", category: "Git", shortcut: None },
        CommandId::FetchGitRemotes => CommandSpec { id: CommandId::FetchGitRemotes, title: "Fetch Git Remotes", category: "Git", shortcut: None },
        CommandId::PushGitBranch => CommandSpec { id: CommandId::PushGitBranch, title: "Push Current Git Branch", category: "Git", shortcut: None },
        CommandId::OpenInZed => CommandSpec { id: CommandId::OpenInZed, title: "Open Project in Zed", category: "Project", shortcut: None },
        CommandId::OpenInEditor => CommandSpec { id: CommandId::OpenInEditor, title: "Open Project In...", category: "Project", shortcut: None },
        CommandId::ToggleProjectPin => CommandSpec { id: CommandId::ToggleProjectPin, title: "Toggle Project Pin", category: "Project", shortcut: None },
        CommandId::HideProject => CommandSpec { id: CommandId::HideProject, title: "Hide Project", category: "Project", shortcut: None },
        CommandId::CopyProjectPath => CommandSpec { id: CommandId::CopyProjectPath, title: "Copy Project Path", category: "Project", shortcut: None },
        CommandId::RefreshProjects => CommandSpec { id: CommandId::RefreshProjects, title: "Refresh Projects", category: "Project", shortcut: Some("Ctrl+R") },
        CommandId::ToggleContextPane => CommandSpec { id: CommandId::ToggleContextPane, title: "Toggle Context Pane", category: "View", shortcut: Some("Ctrl+B") },
        CommandId::ToggleReadmePreview => CommandSpec { id: CommandId::ToggleReadmePreview, title: "Toggle README Preview", category: "View", shortcut: None },
        CommandId::ToggleFileWrap => CommandSpec { id: CommandId::ToggleFileWrap, title: "Toggle File Wrap", category: "View", shortcut: None },
        CommandId::SelectTheme => CommandSpec { id: CommandId::SelectTheme, title: "Select Theme", category: "Appearance", shortcut: None },
        CommandId::ShowSettings => CommandSpec { id: CommandId::ShowSettings, title: "Open Settings", category: "Application", shortcut: None },
        CommandId::ToggleTerminal => CommandSpec { id: CommandId::ToggleTerminal, title: "Toggle Terminal", category: "View", shortcut: Some("Ctrl+`") },
        CommandId::ToggleAskProject => CommandSpec { id: CommandId::ToggleAskProject, title: "Toggle Ask Project", category: "View", shortcut: Some("Ctrl+Shift+A") },
    }
}

/// Every command of the palette, in registry order.
pub fn commands() -> (all: Vec<CommandSpec>)
    ensures
        all@ == registry(),
{
    let ids = [
        CommandId::ToggleProjectCatalog,
        CommandId::ShowOverview,
        CommandId::ShowFiles,
        CommandId::ShowSearch,
        CommandId::ShowGit,
        CommandId::ShowHistory,
        CommandId::RefreshGit,
        CommandId::StageSelectedChange,
        CommandId::StageAllChanges,
        CommandId::UnstageSelectedChange,
        CommandId::UnstageAllChanges,
        CommandId::DiscardSelectedChange,
        CommandId::FocusGitCommit,
        CommandId::FetchGitRemotes,
        CommandId::PushGitBranch,
        CommandId::OpenInZed,
        CommandId::OpenInEditor,
        CommandId::ToggleProjectPin,
        CommandId::HideProject,
        CommandId::CopyProjectPath,
        CommandId::RefreshProjects,
        CommandId::ToggleContextPane,
        CommandId::ToggleReadmePreview,
        CommandId::ToggleFileWrap,
        CommandId::SelectTheme,
        CommandId::ShowSettings,
        CommandId::ToggleTerminal,
        CommandId::ToggleAskProject
    ];
    assert(ids@ == all_command_ids());
    let mut all: Vec<CommandSpec> = Vec::new();
    let mut i: usize = 0;
    while i < ids.len()
        invariant
            i <= ids@.len(),
            ids@ == all_command_ids(),
            all@ == ids@.subrange(0, i as int).map_values(|id: CommandId| command_spec_of(id)),
        decreases ids@.len() - i,
    {
        all.push(command_spec(ids[i]));
        i = i + 1;
        assert(all@ =~= ids@.subrange(0, i as int).map_values(|id: CommandId| command_spec_of(id)));
    }
    assert(ids@.subrange(0, ids@.len() as int) =~= ids@);
    all
}

proof fn lemma_labels_are_short(id: CommandId)
    ensures
        command_spec_of(id).title@.len() <= 64,
        command_spec_of(id).category@.len() <= 64,
{
    match id {
        CommandId::ToggleProjectCatalog => {
            reveal_strlit("Toggle Project Catalog");
            reveal_strlit("Navigation");
        },
        CommandId::ShowOverview => {
            reveal_strlit("Go to Overview");
            reveal_strlit("Navigation");
        },
        CommandId::ShowFiles => {
            reveal_strlit("Go to Files");
            reveal_strlit("Navigation");
        },
        CommandId::ShowSearch => {
            reveal_strlit("Search Project Contents");
            reveal_strlit("Navigation");
        },
        CommandId::ShowGit => {
            reveal_strlit("Go to Git Changes");
            reveal_strlit("Navigation");
        },
        CommandId::ShowHistory => {
            reveal_strlit("Go to Commit History");
            reveal_strlit("Navigation");
        },
        CommandId::RefreshGit => {
            reveal_strlit("Refresh Git Status");
            reveal_strlit("Git");
        },
        CommandId::StageSelectedChange => {
            reveal_strlit("Stage Selected Change");
            reveal_strlit("Git");
        },
        CommandId::StageAllChanges => {
            reveal_strlit("Stage All Changes");
            reveal_strlit("Git");
        },
        CommandId::UnstageSelectedChange => {
            reveal_strlit("Unstage Selected Change");
            reveal_strlit("Git");
        },
        CommandId::UnstageAllChanges => {
            reveal_strlit("Unstage All Changes");
            reveal_strlit("Git");
        },
        CommandId::DiscardSelectedChange => {
            reveal_strlit("Discard Selected Change");
            reveal_strlit("Git");
        },
        CommandId::FocusGitCommit => {
            reveal_strlit("Write Commit Message");
            reveal_strlit("Git");
        },
        CommandId::FetchGitRemotes => {
            reveal_strlit("Fetch Git Remotes");
            reveal_strlit("Git");
        },
        CommandId::PushGitBranch => {
            reveal_strlit("Push Current Git Branch");
            reveal_strlit("Git");
        },
        CommandId::OpenInZed => {
            reveal_strlit("Open Project in Zed");
            reveal_strlit("Project");
        },
        CommandId::OpenInEditor => {
            reveal_strlit("Open Project In...");
            reveal_strlit("Project");
        },
        CommandId::ToggleProjectPin => {
            reveal_strlit("Toggle Project Pin");
            reveal_strlit("Project");
        },
        CommandId::HideProject => {
            reveal_strlit("Hide Project");
            reveal_strlit("Project");
        },
        CommandId::CopyProjectPath => {
            reveal_strlit("Copy Project Path");
            reveal_strlit("Project");
        },
        CommandId::RefreshProjects => {
            reveal_strlit("Refresh Projects");
            reveal_strlit("Project");
        },
        CommandId::ToggleContextPane => {
            reveal_strlit("Toggle Context Pane");
            reveal_strlit("View");
        },
        CommandId::ToggleReadmePreview => {
            reveal_strlit("Toggle README Preview");
            reveal_strlit("View");
        },
        CommandId::ToggleFileWrap => {
            reveal_strlit("Toggle File Wrap");
            reveal_strlit("View");
        },
        CommandId::SelectTheme => {
            reveal_strlit("Select Theme");
            reveal_strlit("Appearance");
        },
        CommandId::ShowSettings => {
            reveal_strlit("Open Settings");
            reveal_strlit("Application");
        },
        CommandId::ToggleTerminal => {
            reveal_strlit("Toggle Terminal");
            reveal_strlit("View");
        },
        CommandId::ToggleAskProject => {
            reveal_strlit("Toggle Ask Project");
            reveal_strlit("View");
        },
    }
}

/// The score of one search term against a command: its better match, the
/// title as it is and the category counting 100 more; `None` when the term
/// matches neither.
pub open spec fn term_score(title: Seq<char>, category: Seq<char>, term: Seq<char>) -> Option<nat> {
    match (subsequence_score(title, term), subsequence_score(category, term)) {
        (Some(t), Some(c)) => Some(if t <= c + 100 { t } else { c + 100 }),
        (Some(t), None) => Some(t),
        (None, Some(c)) => Some(c + 100),
        (None, None) => None,
    }
}

/// The sum of the term scores, or `None` when some term does not match.
pub open spec fn terms_score(title: Seq<char>, category: Seq<char>, terms: Seq<Seq<char>>) -> Option<nat>
    decreases terms.len(),
{
    if terms.len() == 0 {
        Some(0)
    } else {
        match (terms_score(title, category, terms.drop_last()), term_score(title, category, terms.last())) {
            (Some(a), Some(b)) => Some(a + b),
            _ => None,
        }
    }
}

/// The search terms of a query: its words, in ASCII lower case.
pub open spec fn query_terms(query: Seq<char>) -> Seq<Seq<char>> {
    words(query).map_values(|w: Seq<char>| ascii_lower_seq(w))
}

/// How well a command matches the terms, title and category compared in
/// ASCII lower case.
pub open spec fn command_score(command: CommandSpec, terms: Seq<Seq<char>>) -> Option<nat> {
    terms_score(ascii_lower_seq(command.title@), ascii_lower_seq(command.category@), terms)
}

/// The (score, position) of every command that matches the terms, in
/// registry order.
pub open spec fn command_matches(commands: Seq<CommandSpec>, terms: Seq<Seq<char>>) -> Seq<(u128, usize)>
    decreases commands.len(),
{
    if commands.len() == 0 {
        Seq::empty()
    } else {
        let earlier = command_matches(commands.drop_last(), terms);
        match command_score(commands.last(), terms) {
            Some(s) => earlier.push((s as u128, (commands.len() - 1) as usize)),
            None => earlier,
        }
    }
}

/// The palette's answer to a query: the whole registry for a query without
/// words, else the matching commands, best score first and registry order
/// among equal scores.
pub open spec fn filtered_commands_spec(query: Seq<char>) -> Seq<CommandSpec> {
    let terms = query_terms(query);
    if terms.len() == 0 {
        registry()
    } else {
        command_matches(registry(), terms).sort_by(rank_order()).map_values(
            |e: (u128, usize)| registry()[e.1 as int],
        )
    }
}

pub open spec fn texts_view(texts: Seq<Vec<char>>) -> Seq<Seq<char>> {
    texts.map_values(|t: Vec<char>| t@)
}

proof fn lemma_terms_none_extends(title: Seq<char>, category: Seq<char>, terms: Seq<Seq<char>>, k: int)
    requires
        0 <= k <= terms.len(),
        terms_score(title, category, terms.subrange(0, k)) is None,
    ensures
        terms_score(title, category, terms) is None,
    decreases terms.len(),
{
    if k < terms.len() {
        assert(terms.drop_last().subrange(0, k) =~= terms.subrange(0, k));
        lemma_terms_none_extends(title, category, terms.drop_last(), k);
    } else {
        assert(terms.subrange(0, k) =~= terms);
    }
}

proof fn lemma_match_positions(commands: Seq<CommandSpec>, terms: Seq<Seq<char>>)
    requires
        commands.len() <= usize::MAX,
    ensures
        forall|k: int| 0 <= k < command_matches(commands, terms).len()
            ==> (#[trigger] command_matches(commands, terms)[k]).1 < commands.len(),
    decreases commands.len(),
{
    if commands.len() > 0 {
        lemma_match_positions(commands.drop_last(), terms);
        let earlier = command_matches(commands.drop_last(), terms);
        assert forall|k: int| 0 <= k < command_matches(commands, terms).len()
            implies (#[trigger] command_matches(commands, terms)[k]).1 < commands.len() by {
            if k < earlier.len() {
                assert(command_matches(commands, terms)[k] == earlier[k]);
            }
        }
    }
}

fn score_terms(title: &Vec<char>, category: &Vec<char>, terms: &Vec<Vec<char>>) -> (score: Option<u128>)
    requires
        title@.len() <= 64,
        category@.len() <= 64,
    ensures
        match score {
            Some(s) => terms_score(title@, category@, texts_view(terms@)) == Some(s as nat),
            None => terms_score(title@, category@, texts_view(terms@)) is None,
        },
{
    let ghost tv = texts_view(terms@);
    let mut total: u128 = 0;
    let mut i: usize = 0;
    assert(tv.subrange(0, 0) =~= Seq::<Seq<char>>::empty());
    while i < terms.len()
        invariant
            tv == texts_view(terms@),
            title@.len() <= 64,
            category@.len() <= 64,
            i <= terms@.len(),
            total <= i * 164,
            terms_score(title@, category@, tv.subrange(0, i as int)) == Some(total as nat),
        decreases terms@.len() - i,
    {
        let term = &terms[i];
        let t = subsequence_score_of(title, term);
        let c = subsequence_score_of(category, term);
        proof {
            lemma_score_bounded(title@, term@, 0);
            lemma_score_bounded(category@, term@, 0);
            assert(tv.subrange(0, i + 1).drop_last() =~= tv.subrange(0, i as int));
            assert(tv.subrange(0, i + 1).last() == term@);
        }
        let s: u128 = match (t, c) {
            (Some(t), Some(c)) => if t <= c + 100 { t } else { c + 100 },
            (Some(t), None) => t,
            (None, Some(c)) => c + 100,
            (None, None) => {
                proof {
                    lemma_terms_none_extends(title@, category@, tv, i + 1);
                }
                return None;
            },
        };
        total = total + s;
        i = i + 1;
    }
    assert(tv.subrange(0, tv.len() as int) =~= tv);
    Some(total)
}

/// The commands that match a query (see `filtered_commands_spec`).
pub fn filtered_commands(query: &str) -> (found: Vec<CommandSpec>)
    ensures
        found@ == filtered_commands_spec(query@),
{
    let text = chars_of(query);
    let query_words = split_words(&text);
    let ghost wv = texts_view(query_words@);
    let mut terms: Vec<Vec<char>> = Vec::new();
    let mut w: usize = 0;
    while w < query_words.len()
        invariant
            wv == texts_view(query_words@),
            w <= query_words@.len(),
            texts_view(terms@) == wv.subrange(0, w as int).map_values(|x: Seq<char>| ascii_lower_seq(x)),
        decreases query_words@.len() - w,
    {
        let lowered = ascii_lowercase(&query_words[w]);
        let ghost before = terms@;
        terms.push(lowered);
        proof {
            assert(wv[w as int] == query_words@[w as int]@);
            assert(texts_view(terms@) =~= texts_view(before).push(lowered@));
        }
        w = w + 1;
        assert(texts_view(terms@) =~= wv.subrange(0, w as int).map_values(|x: Seq<char>| ascii_lower_seq(x)));
    }
    assert(wv.subrange(0, wv.len() as int) =~= wv);
    assert(wv =~= words(query@));
    assert(texts_view(terms@) =~= query_terms(query@));
    if terms.len() == 0 {
        return commands();
    }
    let all = commands();
    let mut entries: Vec<(u128, usize)> = Vec::new();
    let mut i: usize = 0;
    assert(all@.subrange(0, 0) =~= Seq::<CommandSpec>::empty());
    while i < all.len()
        invariant
            all@ == registry(),
            texts_view(terms@) == query_terms(query@),
            i <= all@.len(),
            entries@ == command_matches(all@.subrange(0, i as int), texts_view(terms@)),
        decreases all@.len() - i,
    {
        let command = all[i];
        proof {
            lemma_labels_are_short(command.id);
        }
        let title = ascii_lowercase(&chars_of(command.title));
        let category = ascii_lowercase(&chars_of(command.category));
        let score = score_terms(&title, &category, &terms);
        proof {
            assert(all@.subrange(0, i + 1).drop_last() =~= all@.subrange(0, i as int));
        }
        match score {
            Some(s) => entries.push((s, i)),
            None => {},
        }
        i = i + 1;
    }
    assert(all@.subrange(0, all@.len() as int) =~= all@);
    let sorted = sort_ranked(&entries);
    proof {
        lemma_rank_order_total();
        entries@.lemma_sort_by_ensures(rank_order());
        lemma_match_positions(registry(), texts_view(terms@));
    }
    let mut found: Vec<CommandSpec> = Vec::new();
    let mut k: usize = 0;
    while k < sorted.len()
        invariant
            all@ == registry(),
            sorted@ == entries@.sort_by(rank_order()),
            forall|x: (u128, usize)| !entries@.contains(x) ==> !(#[trigger] sorted@.contains(x)),
            forall|j: int| 0 <= j < entries@.len() ==> (#[trigger] entries@[j]).1 < all@.len(),
            k <= sorted@.len(),
            found@ == sorted@.subrange(0, k as int).map_values(|e: (u128, usize)| registry()[e.1 as int]),
        decreases sorted@.len() - k,
    {
        let e = sorted[k];
        proof {
            assert(sorted@.contains(e));
            let j = choose|j: int| 0 <= j < entries@.len() && entries@[j] == e;
            assert(entries@[j].1 < all@.len());
        }
        found.push(all[e.1]);
        k = k + 1;
        assert(found@ =~= sorted@.subrange(0, k as int).map_values(|e: (u128, usize)| registry()[e.1 as int]));
    }
    assert(sorted@.subrange(0, sorted@.len() as int) =~= sorted@);
    found
}

/// The colour themes the application ships.
#[derive(Clone, Copy, Debug, PartialEq, Eq, Structural)]
pub enum ThemeId {
    CatppuccinMocha,
    RosePineMoon,
    TokyoNightStorm,
    HorizonBold,
    MonochromeZero,
}

/// Whether the application is light, dark, or follows the system.
#[derive(Clone, Copy, Debug, PartialEq, Eq, Structural)]
pub enum AppearanceMode {
    System,
    Dark,
    Light,
}

/// An entry of the theme picker: follow the system appearance, or one theme
/// in one fixed appearance.
#[derive(Clone, Copy, Debug, PartialEq, Eq, Structural)]
pub enum ThemeSelection {
    FollowSystem,
    Fixed { theme: ThemeId, appearance: AppearanceMode },
}

/// The picker's entries in the order it lists them.
pub open spec fn all_theme_selections() -> Seq<ThemeSelection> {
    seq![
        ThemeSelection::FollowSystem,
        ThemeSelection::Fixed { theme: ThemeId::CatppuccinMocha, appearance: AppearanceMode::Dark },
        ThemeSelection::Fixed { theme: ThemeId::RosePineMoon, appearance: AppearanceMode::Dark },
        ThemeSelection::Fixed { theme: ThemeId::TokyoNightStorm, appearance: AppearanceMode::Dark },
        ThemeSelection::Fixed { theme: ThemeId::HorizonBold, appearance: AppearanceMode::Dark },
        ThemeSelection::Fixed { theme: ThemeId::MonochromeZero, appearance: AppearanceMode::Dark },
        ThemeSelection::Fixed { theme: ThemeId::CatppuccinMocha, appearance: AppearanceMode::Light },
        ThemeSelection::Fixed { theme: ThemeId::RosePineMoon, appearance: AppearanceMode::Light },
        ThemeSelection::Fixed { theme: ThemeId::TokyoNightStorm, appearance: AppearanceMode::Light },
        ThemeSelection::Fixed { theme: ThemeId::HorizonBold, appearance: AppearanceMode::Light },
        ThemeSelection::Fixed { theme: ThemeId::MonochromeZero, appearance: AppearanceMode::Light }
    ]
}

/// A picker entry that has a label: every entry but a fixed "system"
/// appearance, which `FollowSystem` stands for.
pub open spec fn has_label(selection: ThemeSelection) -> bool {
    !(selection matches ThemeSelection::Fixed { appearance: AppearanceMode::System, .. })
}

pub open spec fn theme_label(selection: ThemeSelection) -> Seq<char> {
    match selection {
        ThemeSelection::FollowSystem => "Follow System Appearance"@,
        ThemeSelection::Fixed { theme: ThemeId::CatppuccinMocha, appearance: AppearanceMode::Dark } => "Catppuccin Dark"@,
        ThemeSelection::Fixed { theme: ThemeId::RosePineMoon, appearance: AppearanceMode::Dark } => "Rose Pine Dark"@,
        ThemeSelection::Fixed { theme: ThemeId::TokyoNightStorm, appearance: AppearanceMode::Dark } => "Tokyo Night Dark"@,
        ThemeSelection::Fixed { theme: ThemeId::HorizonBold, appearance: AppearanceMode::Dark } => "Horizon Dark"@,
        ThemeSelection::Fixed { theme: ThemeId::MonochromeZero, appearance: AppearanceMode::Dark } => "Monochrome Dark"@,
        ThemeSelection::Fixed { theme: ThemeId::CatppuccinMocha, appearance: AppearanceMode::Light } => "Catppuccin Light"@,
        ThemeSelection::Fixed { theme: ThemeId::RosePineMoon, appearance: AppearanceMode::Light } => "Rose Pine Light"@,
        ThemeSelection::Fixed { theme: ThemeId::TokyoNightStorm, appearance: AppearanceMode::Light } => "Tokyo Night Light"@,
        ThemeSelection::Fixed { theme: ThemeId::HorizonBold, appearance: AppearanceMode::Light } => "Horizon Light"@,
        ThemeSelection::Fixed { theme: ThemeId::MonochromeZero, appearance: AppearanceMode::Light } => "Monochrome Light"@,
        ThemeSelection::Fixed { appearance: AppearanceMode::System, .. } => Seq::empty(),
    }
}

impl ThemeSelection {
    /// Every entry of the picker, in order.
    pub fn all() -> (all: [ThemeSelection; 11])
        ensures
            all@ == all_theme_selections(),
    {
        [
            ThemeSelection::FollowSystem,
            ThemeSelection::Fixed { theme: ThemeId::CatppuccinMocha, appearance: AppearanceMode::Dark },
            ThemeSelection::Fixed { theme: ThemeId::RosePineMoon, appearance: AppearanceMode::Dark },
            ThemeSelection::Fixed { theme: ThemeId::TokyoNightStorm, appearance: AppearanceMode::Dark },
            ThemeSelection::Fixed { theme: ThemeId::HorizonBold, appearance: AppearanceMode::Dark },
            ThemeSelection::Fixed { theme: ThemeId::MonochromeZero, appearance: AppearanceMode::Dark },
            ThemeSelection::Fixed { theme: ThemeId::CatppuccinMocha, appearance: AppearanceMode::Light },
            ThemeSelection::Fixed { theme: ThemeId::RosePineMoon, appearance: AppearanceMode::Light },
            ThemeSelection::Fixed { theme: ThemeId::TokyoNightStorm, appearance: AppearanceMode::Light },
            ThemeSelection::Fixed { theme: ThemeId::HorizonBold, appearance: AppearanceMode::Light },
            ThemeSelection::Fixed { theme: ThemeId::MonochromeZero, appearance: AppearanceMode::Light }
        ]
    }

    /// The name the picker shows.
    pub fn label(self) -> (label: &'static str)
        requires
            has_label(self),
        ensures
            label@ == theme_label(self),
    {
        match self {
            ThemeSelection::FollowSystem => "Follow System Appearance",
            ThemeSelection::Fixed { theme: ThemeId::CatppuccinMocha, appearance: AppearanceMode::Dark } => "Catppuccin Dark",
            ThemeSelection::Fixed { theme: ThemeId::RosePineMoon, appearance: AppearanceMode::Dark } => "Rose Pine Dark",
            ThemeSelection::Fixed { theme: ThemeId::TokyoNightStorm, appearance: AppearanceMode::Dark } => "Tokyo Night Dark",
            ThemeSelection::Fixed { theme: ThemeId::HorizonBold, appearance: AppearanceMode::Dark } => "Horizon Dark",
            ThemeSelection::Fixed { theme: ThemeId::MonochromeZero, appearance: AppearanceMode::Dark } => "Monochrome Dark",
            ThemeSelection::Fixed { theme: ThemeId::CatppuccinMocha, appearance: AppearanceMode::Light } => "Catppuccin Light",
            ThemeSelection::Fixed { theme: ThemeId::RosePineMoon, appearance: AppearanceMode::Light } => "Rose Pine Light",
            ThemeSelection::Fixed { theme: ThemeId::TokyoNightStorm, appearance: AppearanceMode::Light } => "Tokyo Night Light",
            ThemeSelection::Fixed { theme: ThemeId::HorizonBold, appearance: AppearanceMode::Light } => "Horizon Light",
            ThemeSelection::Fixed { theme: ThemeId::MonochromeZero, appearance: AppearanceMode::Light } => "Monochrome Light",
            ThemeSelection::Fixed { appearance: AppearanceMode::System, .. } => "",
        }
    }

    /// The theme and appearance to store when this entry is chosen; following
    /// the system keeps the current theme.
    pub fn preferences(self, current_theme: ThemeId) -> (prefs: (ThemeId, AppearanceMode))
        ensures
            prefs == match self {
                ThemeSelection::FollowSystem => (current_theme, AppearanceMode::System),
                ThemeSelection::Fixed { theme, appearance } => (theme, appearance),
            },
    {
        match self {
            ThemeSelection::FollowSystem => (current_theme, AppearanceMode::System),
            ThemeSelection::Fixed { theme, appearance } => (theme, appearance),
        }
    }

    /// Whether this entry is the one the stored preferences select.
    pub fn is_active(self, theme: ThemeId, appearance: AppearanceMode) -> (active: bool)
        ensures
            active == match self {
                ThemeSelection::FollowSystem => appearance == AppearanceMode::System,
                ThemeSelection::Fixed { theme: t, appearance: a } => t == theme && a == appearance,
            },
    {
        match self {
            ThemeSelection::FollowSystem => appearance == AppearanceMode::System,
            ThemeSelection::Fixed { theme: t, appearance: a } => t == theme && a == appearance,
        }
    }
}

/// The (score, position) of every picker entry whose lower-cased label holds
/// the query as a subsequence, in picker order.
pub open spec fn theme_matches(themes: Seq<ThemeSelection>, query: Seq<char>) -> Seq<(u128, usize)>
    decreases themes.len(),
{
    if themes.len() == 0 {
        Seq::empty()
    } else {
        let earlier = theme_matches(themes.drop_last(), query);
        match subsequence_score(ascii_lower_seq(theme_label(themes.last())), query) {
            Some(s) => earlier.push((s as u128, (themes.len() - 1) as usize)),
            None => earlier,
        }
    }
}

/// The picker's answer to a query: the query is trimmed and lower-cased; the
/// matching entries come best score first, picker order among equal scores
/// (an empty query matches every entry with score 0).
pub open spec fn filtered_themes_spec(query: Seq<char>) -> Seq<ThemeSelection> {
    theme_matches(all_theme_selections(), ascii_lower_seq(trim(query))).sort_by(rank_order()).map_values(
        |e: (u128, usize)| all_theme_selections()[e.1 as int],
    )
}

proof fn lemma_theme_positions(themes: Seq<ThemeSelection>, query: Seq<char>)
    requires
        themes.len() <= usize::MAX,
    ensures
        forall|k: int| 0 <= k < theme_matches(themes, query).len()
            ==> (#[trigger] theme_matches(themes, query)[k]).1 < themes.len(),
    decreases themes.len(),
{
    if themes.len() > 0 {
        lemma_theme_positions(themes.drop_last(), query);
        let earlier = theme_matches(themes.drop_last(), query);
        assert forall|k: int| 0 <= k < theme_matches(themes, query).len()
            implies (#[trigger] theme_matches(themes, query)[k]).1 < themes.len() by {
            if k < earlier.len() {
                assert(theme_matches(themes, query)[k] == earlier[k]);
            }
        }
    }
}

/// The picker entries that match a query (see `filtered_themes_spec`).
pub fn filtered_themes(query: &str) -> (found: Vec<ThemeSelection>)
    ensures
        found@ == filtered_themes_spec(query@),
{
    let text = chars_of(query);
    let needle = ascii_lowercase(&trimmed(&text));
    let all = ThemeSelection::all();
    let mut entries: Vec<(u128, usize)> = Vec::new();
    let mut i: usize = 0;
    assert(all@.subrange(0, 0) =~= Seq::<ThemeSelection>::empty());
    while i < all.len()
        invariant
            all@ == all_theme_selections(),
            needle@ == ascii_lower_seq(trim(query@)),
            i <= all@.len(),
            entries@ == theme_matches(all@.subrange(0, i as int), needle@),
        decreases all@.len() - i,
    {
        let selection = all[i];
        let label = ascii_lowercase(&chars_of(selection.label()));
        let score = subsequence_score_of(&label, &needle);
        proof {
            assert(all@.subrange(0, i + 1).drop_last() =~= all@.subrange(0, i as int));
        }
        match score {
            Some(s) => entries.push((s, i)),
            None => {},
        }
        i = i + 1;
    }
    assert(all@.subrange(0, all@.len() as int) =~= all@);
    let sorted = sort_ranked(&entries);
    proof {
        lemma_rank_order_total();
        entries@.lemma_sort_by_ensures(rank_order());
        lemma_theme_positions(all_theme_selections(), needle@);
    }
    let mut found: Vec<ThemeSelection> = Vec::new();
    let mut k: usize = 0;
    while k < sorted.len()
        invariant
            all@ == all_theme_selections(),
            sorted@ == entries@.sort_by(rank_order()),
            forall|x: (u128, usize)| !entries@.contains(x) ==> !(#[trigger] sorted@.contains(x)),
            forall|j: int| 0 <= j < entries@.len() ==> (#[trigger] entries@[j]).1 < all@.len(),
            k <= sorted@.len(),
            found@ == sorted@.subrange(0, k as int).map_values(|e: (u128, usize)| all_theme_selections()[e.1 as int]),
        decreases sorted@.len() - k,
    {
        let e = sorted[k];
        proof {
            assert(sorted@.contains(e));
            let j = choose|j: int| 0 <= j < entries@.len() && entries@[j] == e;
            assert(entries@[j].1 < all@.len());
        }
        found.push(all[e.1]);
        k = k + 1;
        assert(found@ =~= sorted@.subrange(0, k as int).map_values(|e: (u128, usize)| all_theme_selections()[e.1 as int]));
    }
    assert(sorted@.subrange(0, sorted@.len() as int) =~= sorted@);
    found
}

} // verus!
