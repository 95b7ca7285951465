use devhub::commands::{
    commands, filtered_commands, filtered_themes, AppearanceMode, CommandId, ThemeId, ThemeSelection,
};

#[test]
fn empty_query_keeps_registry_order() {
    assert_eq!(filtered_commands(""), commands());
}

#[test]
fn command_search_matches_title_and_category_terms() {
    assert_eq!(
        filtered_commands("project zed")
            .into_iter()
            .map(|command| command.id)
            .collect::<Vec<_>>(),
        [CommandId::OpenInZed]
    );
    assert_eq!(
        filtered_commands("navigation files")
            .into_iter()
            .map(|command| command.id)
            .collect::<Vec<_>>(),
        [CommandId::ShowFiles]
    );
}

#[test]
fn command_search_accepts_memorable_subsequences() {
    assert_eq!(
        filtered_commands("project catalog")[0].id,
        CommandId::ToggleProjectCatalog
    );
    assert_eq!(filtered_commands("prj zed")[0].id, CommandId::OpenInZed);
    assert_eq!(
        filtered_commands("git stage")[0].id,
        CommandId::StageSelectedChange
    );
}

#[test]
fn theme_search_keeps_declared_order_and_supports_subsequences() {
    assert_eq!(filtered_themes(""), ThemeSelection::all());
    assert_eq!(filtered_themes("").len(), 11);
    assert_eq!(
        filtered_themes("").last().map(|theme| theme.label()),
        Some("Monochrome Light")
    );
    assert_eq!(filtered_themes("rose").len(), 2);
    assert_eq!(filtered_themes("tkn").len(), 2);
    assert_eq!(filtered_themes("system"), [ThemeSelection::FollowSystem]);
}

#[test]
fn registry_lists_every_command_once() {
    let all = commands();
    assert_eq!(all.len(), 28);
    assert_eq!(all[0].id, CommandId::ToggleProjectCatalog);
    assert_eq!(all[0].shortcut, Some("Ctrl+1"));
    assert_eq!(all[27].id, CommandId::ToggleAskProject);
    for (i, a) in all.iter().enumerate() {
        for b in &all[i + 1..] {
            assert_ne!(a.id, b.id);
        }
    }
}

#[test]
fn white_space_only_query_keeps_registry_order() {
    assert_eq!(filtered_commands(" \t "), commands());
}

#[test]
fn query_terms_ignore_ascii_case() {
    assert_eq!(filtered_commands("PROJECT ZED")[0].id, CommandId::OpenInZed);
}

#[test]
fn unmatched_query_finds_nothing() {
    assert!(filtered_commands("zzzz qqqq").is_empty());
    assert!(filtered_themes("qqq").is_empty());
}

#[test]
fn category_matches_rank_after_title_matches() {
    // "git" is in the title of "Go to Git Changes" (score 6) and only the
    // category of "Stage All Changes" (score 100).
    let found = filtered_commands("git");
    assert_eq!(found[0].id, CommandId::ShowGit);
    assert!(found.iter().any(|c| c.id == CommandId::StageAllChanges));
    let git_index = found.iter().position(|c| c.id == CommandId::ShowGit).unwrap();
    let stage_index = found
        .iter()
        .position(|c| c.id == CommandId::StageAllChanges)
        .unwrap();
    assert!(git_index < stage_index);
}

#[test]
fn theme_search_trims_and_ignores_case() {
    assert_eq!(filtered_themes("  ROSE  ").len(), 2);
    assert_eq!(
        filtered_themes("catppuccin dark"),
        [ThemeSelection::Fixed {
            theme: ThemeId::CatppuccinMocha,
            appearance: AppearanceMode::Dark
        }]
    );
}

#[test]
fn theme_selection_preferences_and_activity() {
    let follow = ThemeSelection::FollowSystem;
    assert_eq!(
        follow.preferences(ThemeId::HorizonBold),
        (ThemeId::HorizonBold, AppearanceMode::System)
    );
    assert!(follow.is_active(ThemeId::RosePineMoon, AppearanceMode::System));
    assert!(!follow.is_active(ThemeId::RosePineMoon, AppearanceMode::Dark));

    let fixed = ThemeSelection::Fixed {
        theme: ThemeId::TokyoNightStorm,
        appearance: AppearanceMode::Light,
    };
    assert_eq!(
        fixed.preferences(ThemeId::HorizonBold),
        (ThemeId::TokyoNightStorm, AppearanceMode::Light)
    );
    assert!(fixed.is_active(ThemeId::TokyoNightStorm, AppearanceMode::Light));
    assert!(!fixed.is_active(ThemeId::TokyoNightStorm, AppearanceMode::Dark));
    assert_eq!(fixed.label(), "Tokyo Night Light");
    assert_eq!(follow.label(), "Follow System Appearance");
}
