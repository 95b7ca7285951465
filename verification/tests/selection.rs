use devhub::project::{Project, ProjectSource, ProjectType};
use devhub::selection::{
    forget_located, locate_project, project_locator, project_locator_matches, restore_outcome, ProjectLocator,
    RestoreOutcome,
};

fn project(path: &str, host: Option<&str>) -> Project {
    Project {
        name: "p".to_string(),
        path: path.to_string(),
        source: match host {
            Some(h) => ProjectSource::Remote { name: String::new(), host: h.to_string() },
            None => ProjectSource::Local,
        },
        project_type: ProjectType::Unknown,
        has_git: false,
        git_remote: None,
        markers_found: Vec::new(),
        last_modified: None,
        search_key: String::new(),
    }
}

fn locator(path: &str, host: Option<&str>) -> ProjectLocator {
    ProjectLocator { path: path.to_string(), remote_host: host.map(|h| h.to_string()) }
}

#[test]
fn locators_name_path_and_host() {
    let local = project("/src/app", None);
    let remote = project("/src/app", Some("build"));
    assert_eq!(project_locator(&remote), locator("/src/app", Some("build")));
    assert!(project_locator_matches(&local, &locator("/src/app/", None)));
    assert!(!project_locator_matches(&local, &locator("/src/app", Some("build"))));
    assert!(project_locator_matches(&remote, &locator("/src/app", Some("build"))));
    assert!(!project_locator_matches(&remote, &locator("/src/app", Some("other"))));
    assert_eq!(locate_project(&vec![local, remote], &locator("/src/app", Some("build"))), Some(1));
}

#[test]
fn reopening_selects_the_last_project_when_it_is_there() {
    let projects = vec![project("/a", None), project("/b", None), project("/c", Some("h"))];
    let none: Vec<String> = Vec::new();
    assert_eq!(restore_outcome(&projects, &none, &Some(locator("/b", None)), true), RestoreOutcome::Select(1));
    assert_eq!(restore_outcome(&projects, &none, &Some(locator("/b", None)), false), RestoreOutcome::Missing);
    assert_eq!(restore_outcome(&projects, &none, &Some(locator("/c", Some("h"))), false), RestoreOutcome::Select(2));
    assert_eq!(restore_outcome(&projects, &none, &Some(locator("/z", None)), true), RestoreOutcome::Missing);
    assert_eq!(restore_outcome(&projects, &none, &None, false), RestoreOutcome::Select(0));
    let hidden = vec!["/a".to_string(), "/b".to_string()];
    assert_eq!(restore_outcome(&projects, &hidden, &Some(locator("/b", None)), true), RestoreOutcome::Select(2));
    let all = vec!["/a".to_string(), "/b".to_string(), "/c".to_string()];
    assert_eq!(restore_outcome(&projects, &all, &None, true), RestoreOutcome::Nothing);
}

#[test]
fn forgetting_drops_every_project_the_locator_names() {
    let mut projects = vec![project("/a", None), project("/b", None), project("/a/", None), project("/a", Some("h"))];
    forget_located(&mut projects, &locator("/a", None));
    let left: Vec<(String, bool)> = projects.iter().map(|p| (p.path.clone(), p.source.is_remote())).collect();
    assert_eq!(left, vec![("/b".to_string(), false), ("/a".to_string(), true)]);
}
