use devhub::catalog::{
    filtered_project_indices, has_scan_sources, partition_local_scan_roots, relative_age,
    relative_modified, remote_parent_path, scan_sources_changed, should_show_ftue, RootStatus,
};
use devhub::project::{Config, Project, ProjectSource, ProjectType, RemoteHostConfig};

fn sample_config() -> Config {
    Config {
        scan_dirs: vec![r"C:\code".to_string()],
        remote_hosts: vec![RemoteHostConfig {
            name: "build".to_string(),
            host: "dev@example.com".to_string(),
            roots: vec!["/srv".to_string()],
            max_depth: 3,
        }],
        max_depth: 4,
    }
}

#[test]
fn ftue_only_opens_when_config_and_cache_are_both_absent() {
    assert!(should_show_ftue(false, false));
    assert!(!should_show_ftue(true, false));
    assert!(!should_show_ftue(false, true));
    assert!(!should_show_ftue(true, true));
}

#[test]
fn scan_requires_a_configured_local_or_remote_source() {
    assert!(!has_scan_sources(0, 0));
    assert!(has_scan_sources(1, 0));
    assert!(has_scan_sources(0, 1));
}

#[test]
fn appearance_only_settings_do_not_require_a_catalog_scan() {
    let config = sample_config();
    assert!(!scan_sources_changed(
        &config,
        &config.scan_dirs,
        &config.remote_hosts,
        config.max_depth,
    ));

    let mut changed_roots = config.scan_dirs.clone();
    changed_roots.push(r"F:\projects".to_string());
    assert!(scan_sources_changed(
        &config,
        &changed_roots,
        &config.remote_hosts,
        config.max_depth,
    ));
    assert!(scan_sources_changed(
        &config,
        &config.scan_dirs,
        &config.remote_hosts,
        config.max_depth + 1,
    ));
}

#[test]
fn changed_remote_hosts_require_a_catalog_scan() {
    let config = sample_config();
    let mut hosts = config.remote_hosts.clone();
    hosts[0].roots.push("/home".to_string());
    assert!(scan_sources_changed(&config, &config.scan_dirs, &hosts, config.max_depth));
    assert!(scan_sources_changed(&config, &config.scan_dirs, &Vec::new(), config.max_depth));
}

#[test]
fn unavailable_local_roots_do_not_block_available_roots() {
    let missing = "/tmp/devhub-root-partition/missing".to_string();
    let available = "/tmp/devhub-root-partition".to_string();

    let (roots, errors) = partition_local_scan_roots(vec![
        (
            missing.clone(),
            RootStatus::Unreadable("No such file or directory (os error 2)".to_string()),
        ),
        (available.clone(), RootStatus::Directory),
    ]);

    assert_eq!(roots.as_slice(), std::slice::from_ref(&available));
    assert_eq!(errors.len(), 1);
    assert!(errors[0].contains(&missing));
}

#[test]
fn root_errors_name_the_root_and_the_reason() {
    let (roots, errors) = partition_local_scan_roots(vec![
        ("/etc/hosts".to_string(), RootStatus::NotDirectory),
        ("/nope".to_string(), RootStatus::Unreadable("denied".to_string())),
    ]);
    assert!(roots.is_empty());
    assert_eq!(
        errors,
        [
            "Scan root is not a directory: /etc/hosts".to_string(),
            "Cannot scan /nope: denied".to_string(),
        ]
    );
}

fn numbered_project(index: usize) -> Project {
    Project {
        name: format!("project-{index:05}"),
        path: format!(r"F:\projects\project-{index:05}"),
        source: ProjectSource::Local,
        project_type: ProjectType::Rust,
        has_git: true,
        git_remote: None,
        markers_found: vec!["Cargo.toml".into()],
        last_modified: None,
        search_key: format!("project-{index:05} rust"),
    }
}

#[test]
fn filtering_remains_correct_for_large_project_collections() {
    let projects = (0..50_000).map(numbered_project).collect::<Vec<_>>();

    assert_eq!(filtered_project_indices(&projects, "project-49999"), [49_999]);
    assert!(filtered_project_indices(&projects, "no-match").is_empty());
    assert_eq!(filtered_project_indices(&projects, "").len(), 50_000);
}

#[test]
fn path_only_preferences_collide_across_remote_hosts() {
    let path = "/srv/project".to_string();
    let projects = ["build-a", "build-b"].map(|host| Project {
        name: "project".into(),
        path: path.clone(),
        source: ProjectSource::Remote {
            name: String::new(),
            host: host.into(),
        },
        project_type: ProjectType::Rust,
        has_git: true,
        git_remote: None,
        markers_found: vec!["Cargo.toml".into()],
        last_modified: None,
        search_key: String::new(),
    });
    let pinned_paths = [path];

    assert!(projects
        .iter()
        .all(|project| pinned_paths.contains(&project.path)));
    assert_ne!(projects[0].source.host(), projects[1].source.host());
}

#[test]
fn ages_use_the_largest_whole_unit() {
    assert_eq!(relative_age(1_000, 1_000), "just now");
    assert_eq!(relative_age(1_000, 1_059), "just now");
    assert_eq!(relative_age(1_000, 1_060), "1m ago");
    assert_eq!(relative_age(0, 3_599), "59m ago");
    assert_eq!(relative_age(0, 3_600), "1h ago");
    assert_eq!(relative_age(0, 86_399), "23h ago");
    assert_eq!(relative_age(0, 86_400), "1d ago");
    assert_eq!(relative_age(0, 10 * 86_400 + 5), "10d ago");
    assert_eq!(relative_age(2_000, 1_000), "just now");
}

#[test]
fn a_recent_change_is_just_now() {
    let now = std::time::SystemTime::now()
        .duration_since(std::time::UNIX_EPOCH)
        .unwrap()
        .as_secs();
    assert_eq!(relative_modified(now + 3_600), "just now");
    assert_eq!(relative_modified(now.saturating_sub(3 * 86_400)), "3d ago");
}

#[test]
fn remote_parents_drop_the_last_component() {
    assert_eq!(remote_parent_path("/srv/project"), Some("/srv".to_string()));
    assert_eq!(remote_parent_path("/srv/project///"), Some("/srv".to_string()));
    assert_eq!(remote_parent_path("/srv"), Some("/".to_string()));
    assert_eq!(remote_parent_path("/"), None);
    assert_eq!(remote_parent_path(""), None);
    assert_eq!(remote_parent_path("relative"), None);
    assert_eq!(remote_parent_path("a/b"), Some("a".to_string()));
}
