use devhub::shell::{all_activities, visible_project_row, Activity};

#[test]
fn activities_are_project_workspace_modes() {
    assert_eq!(
        all_activities().map(Activity::label),
        ["Overview", "Files", "Search"]
    );
}

#[test]
fn project_selection_survives_filter_and_sort_changes() {
    let selected = Some(7);
    assert_eq!(visible_project_row(&[3, 7, 9], selected), Some(1));
    assert_eq!(visible_project_row(&[7, 3, 9], selected), Some(0));
    assert_eq!(visible_project_row(&[3, 9], selected), None);
}

#[test]
fn no_selection_shows_no_row() {
    assert_eq!(visible_project_row(&[3, 7, 9], None), None);
    assert_eq!(visible_project_row(&[], Some(1)), None);
}
