use devhub::project::{Project, ProjectSource, ProjectType};
use devhub::scan::{next_selection, previous_selection, ScanModel, ScanState};

fn project() -> Project {
    Project {
        name: "sample".into(),
        path: "/srv/sample".into(),
        source: ProjectSource::Local,
        project_type: ProjectType::Rust,
        has_git: false,
        git_remote: None,
        markers_found: vec!["Cargo.toml".to_string()],
        last_modified: None,
        search_key: String::new(),
    }
}

#[test]
fn stale_result_cannot_replace_newer_scan() {
    let mut scan = ScanModel::new(vec![project()]);
    let stale_generation = scan.begin();
    let current_generation = scan.begin();

    assert!(!scan.apply_result(stale_generation, Ok(vec![project()])));
    assert_eq!(scan.state, ScanState::Scanning);
    assert_eq!(scan.projects.len(), 1);

    assert!(scan.apply_result(current_generation, Ok(vec![project()])));
    assert_eq!(scan.state, ScanState::Loaded { count: 1 });
}

#[test]
fn current_result_models_loaded_empty_and_error_states() {
    let mut scan = ScanModel::new(Vec::new());
    let generation = scan.begin();

    assert!(scan.apply_result(generation, Ok(vec![project()])));
    assert_eq!(scan.state, ScanState::Loaded { count: 1 });
    assert_eq!(scan.projects.len(), 1);

    assert!(scan.apply_result(generation, Ok(Vec::new())));
    assert_eq!(scan.state, ScanState::Empty);
    assert!(scan.projects.is_empty());

    let mut scan = ScanModel::new(vec![project()]);
    let generation = scan.begin();
    assert!(scan.apply_result(generation, Err("fixture failure".to_string())));
    assert_eq!(scan.state, ScanState::Error("fixture failure".to_string()));
    assert_eq!(scan.projects.len(), 1);
}

#[test]
fn keyboard_selection_stops_at_list_boundaries() {
    assert_eq!(previous_selection(None, 3), Some(2));
    assert_eq!(previous_selection(Some(0), 3), Some(0));
    assert_eq!(previous_selection(Some(2), 3), Some(1));

    assert_eq!(next_selection(None, 3), Some(0));
    assert_eq!(next_selection(Some(1), 3), Some(2));
    assert_eq!(next_selection(Some(2), 3), Some(2));
}

#[test]
fn keyboard_selection_handles_empty_and_stale_indices() {
    assert_eq!(previous_selection(Some(8), 0), None);
    assert_eq!(next_selection(Some(8), 0), None);
    assert_eq!(previous_selection(Some(8), 3), Some(1));
    assert_eq!(next_selection(Some(8), 3), Some(2));
}

#[test]
fn a_new_model_is_idle_and_scans_start_scanning() {
    let mut scan = ScanModel::new(vec![project(), project()]);
    assert_eq!(scan.state, ScanState::Idle);
    let first = scan.begin();
    let second = scan.begin();
    assert_ne!(first, second);
    assert_eq!(scan.state, ScanState::Scanning);
    assert!(scan.apply_result(second, Ok(vec![project(), project(), project()])));
    assert_eq!(scan.state, ScanState::Loaded { count: 3 });
    assert!(!scan.apply_result(first, Err("late".to_string())));
    assert_eq!(scan.state, ScanState::Loaded { count: 3 });
}
