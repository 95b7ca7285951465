use devhub::commands::{AppearanceMode, ThemeId};
use devhub::launch::TerminalLaunch;
use devhub::project::{Project, ProjectSource, ProjectType};
use devhub::theme::{dark_palette, dark_palette_for, light_seed, uses_light_palette};

#[test]
fn dark_palettes_take_their_colours_in_order() {
    let palette = dark_palette([1, 2, 3, 4, 5, 6, 7, 8, 9, 10, 11, 12]);
    assert_eq!(palette.background, 1);
    assert_eq!(palette.selected, 5);
    assert_eq!(palette.accent_dim, 10);
    assert_eq!(palette.warning, 12);
    let mocha = dark_palette_for(ThemeId::CatppuccinMocha);
    assert_eq!(mocha.background, 0x1e1e2e);
    assert_eq!(mocha.accent, 0x89b4fa);
    assert_eq!(dark_palette_for(ThemeId::MonochromeZero).warning, 0xc49a5a);
}

#[test]
fn light_palettes_start_from_their_seed() {
    assert_eq!(
        light_seed(ThemeId::RosePineMoon),
        (0xfaf4ed, 0xfffaf3, 0xd7827e, 0xea9d34, 0x575279)
    );
}

#[test]
fn the_appearance_decides_the_palette() {
    assert!(uses_light_palette(AppearanceMode::Light, false));
    assert!(!uses_light_palette(AppearanceMode::Dark, true));
    assert!(uses_light_palette(AppearanceMode::System, true));
    assert!(!uses_light_palette(AppearanceMode::System, false));
}

fn project(source: ProjectSource) -> Project {
    Project {
        name: "p".into(),
        path: "/srv/p".into(),
        source,
        project_type: ProjectType::Unknown,
        has_git: false,
        git_remote: None,
        markers_found: Vec::new(),
        last_modified: None,
        search_key: String::new(),
    }
}

#[test]
fn terminals_open_where_the_project_is() {
    let local = TerminalLaunch::for_project(
        &project(ProjectSource::Local),
        Err("unused".to_string()),
        Err("unused".to_string()),
    )
    .unwrap();
    assert_eq!(local, TerminalLaunch::Local { cwd: "/srv/p".to_string() });
    assert_eq!(local.cwd_label(), "/srv/p");

    let remote_source = ProjectSource::Remote {
        name: "b".into(),
        host: "dev@build".into(),
    };
    let remote = TerminalLaunch::for_project(
        &project(remote_source.clone()),
        Ok("dev@build".to_string()),
        Ok("/srv/p".to_string()),
    )
    .unwrap();
    assert_eq!(remote.cwd_label(), "dev@build:/srv/p");
    assert_eq!(
        TerminalLaunch::for_project(
            &project(remote_source),
            Err("invalid SSH host".to_string()),
            Ok("/srv/p".to_string()),
        ),
        Err("invalid SSH host".to_string())
    );
}
