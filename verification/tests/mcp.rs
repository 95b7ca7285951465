use devhub::mcp::{expect_project, project_suggestions, unmatched_project_message, DevHubMcp};
use devhub::project::{Project, ProjectSource, ProjectType};

#[test]
fn empty_tokens_are_refused() {
    assert!(DevHubMcp::validate_auth_token(String::new()).is_err());
    assert_eq!(
        DevHubMcp::validate_auth_token("secret".to_string()),
        Ok("secret".to_string())
    );
}

#[test]
fn only_the_bearer_token_is_admitted() {
    assert!(DevHubMcp::is_authorized("secret", Some("Bearer secret")));
    assert!(!DevHubMcp::is_authorized("secret", None));
    assert!(!DevHubMcp::is_authorized("secret", Some("Bearer wrong")));
    assert!(!DevHubMcp::is_authorized("secret", Some("secret")));
    assert!(!DevHubMcp::is_authorized("secret", Some("bearer secret")));
    assert!(!DevHubMcp::is_authorized("secret", Some("Bearer secret ")));
    assert!(!DevHubMcp::is_authorized("secret", Some("Bearer ")));
}

#[test]
fn tool_requests_fall_back_to_their_defaults() {
    assert_eq!(DevHubMcp::tree_options(None, None), (2, false));
    assert_eq!(DevHubMcp::tree_options(Some(5), Some(true)), (5, true));
    assert_eq!(DevHubMcp::read_range(None, None), (1, 400));
    assert_eq!(DevHubMcp::read_range(Some(10), Some(20)), (10, 20));
    assert_eq!(DevHubMcp::search_limit(None), 50);
    assert_eq!(DevHubMcp::search_limit(Some(3)), 3);
    assert_eq!(DevHubMcp::diff_limit(None), 60_000);
    assert_eq!(DevHubMcp::log_page(None, None), (0, 15));
    assert_eq!(DevHubMcp::log_page(Some(15), Some(30)), (15, 30));
}

#[test]
fn suggestions_match_names_without_case() {
    let entries = vec![
        ("Alpha Service".to_string(), "local:/srv/alpha".to_string()),
        ("beta".to_string(), "local:/srv/beta".to_string()),
        ("ALPHABET".to_string(), "build:/srv/alphabet".to_string()),
    ];
    assert_eq!(
        project_suggestions(&entries, "  alp "),
        ["local:/srv/alpha".to_string(), "build:/srv/alphabet".to_string()]
    );
    assert!(project_suggestions(&entries, "gamma").is_empty());
    let many = (0..8)
        .map(|i| (format!("svc-{i}"), format!("key-{i}")))
        .collect::<Vec<_>>();
    assert_eq!(project_suggestions(&many, "SVC").len(), 5);
}

#[test]
fn unmatched_projects_are_explained() {
    assert_eq!(
        unmatched_project_message("gamma", &Vec::new()),
        "no project matches 'gamma'; call list_projects to see the catalog"
    );
    assert_eq!(
        unmatched_project_message("al", &vec!["a".to_string(), "b".to_string()]),
        "no unique project matches 'al'; did you mean: a, b?"
    );
}

#[test]
fn tools_that_need_a_project_say_so() {
    let project = Project {
        name: "p".into(),
        path: "/p".into(),
        source: ProjectSource::Local,
        project_type: ProjectType::Unknown,
        has_git: false,
        git_remote: None,
        markers_found: Vec::new(),
        last_modified: None,
        search_key: String::new(),
    };
    assert_eq!(expect_project(Some(&project)).unwrap().name, "p");
    assert_eq!(expect_project(None), Err("missing project".to_string()));
}
