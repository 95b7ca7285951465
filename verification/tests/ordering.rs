use devhub::ordering::project_indices_for_query;
use devhub::project::{Project, ProjectSource, ProjectType};

fn project(name: &str, path: &str) -> Project {
    Project {
        name: name.to_string(),
        path: path.to_string(),
        source: ProjectSource::Local,
        project_type: ProjectType::Rust,
        has_git: true,
        git_remote: None,
        markers_found: Vec::new(),
        last_modified: None,
        search_key: name.to_lowercase(),
    }
}

fn strings(items: &[&str]) -> Vec<String> {
    items.iter().map(|s| s.to_string()).collect()
}

#[test]
fn pinned_projects_lead_then_label_name_and_path() {
    let projects = vec![
        project("Zeta", "/src/zeta"),
        project("alpha", "/src/alpha"),
        project("Beta", "/src/beta"),
        project("alpha", "/other/alpha"),
        project("gamma", "/src/gamma"),
    ];
    let labels = strings(&["Local", "Local", "Local", "Local", "build"]);
    let pinned = strings(&["/src/zeta/"]);
    let hidden = strings(&["/src/beta"]);
    let order = project_indices_for_query(&projects, "", &labels, &pinned, &hidden);
    // zeta is pinned; "build" sorts before "local"; then names, then paths.
    assert_eq!(order, vec![0, 4, 3, 1]);
}

#[test]
fn query_filters_before_ordering() {
    let projects = vec![project("web", "/a/web"), project("api", "/a/api"), project("webhooks", "/a/hooks")];
    let labels = strings(&["Local", "Local", "Local"]);
    let order = project_indices_for_query(&projects, "web", &labels, &Vec::new(), &Vec::new());
    assert_eq!(order, vec![0, 2]);
    let pinned = strings(&["/a/hooks"]);
    let order = project_indices_for_query(&projects, "web", &labels, &pinned, &Vec::new());
    assert_eq!(order, vec![2, 0]);
    assert!(project_indices_for_query(&projects, "none", &labels, &pinned, &Vec::new()).is_empty());
}
