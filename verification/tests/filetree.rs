use devhub::filetree::{git_tree_entries, history_file_tree_entries, is_entry_visible, path_components, GitDiffKind};
use devhub::git::GitFileChange;
use devhub::history::CommitFileChange;

fn commit_file(path: &str, original: Option<&str>) -> CommitFileChange {
    CommitFileChange {
        path: path.to_string(),
        original_path: original.map(|o| o.to_string()),
        additions: Some(1),
        deletions: Some(0),
    }
}

fn change(path: &str, original: Option<&str>) -> GitFileChange {
    GitFileChange { path: path.to_string(), original_path: original.map(|o| o.to_string()) }
}

fn chars(s: &str) -> Vec<char> {
    s.chars().collect()
}

#[test]
fn components_drop_empty_parts() {
    let parts: Vec<String> = path_components(&chars("src//app/view.rs/")).into_iter().map(|c| c.into_iter().collect()).collect();
    assert_eq!(parts, vec!["src", "app", "view.rs"]);
    assert!(path_components(&chars("")).is_empty());
}

#[test]
fn history_tree_lists_directories_before_files() {
    let files = vec![
        commit_file("src/main.rs", Some("src/old.rs")),
        commit_file("README.md", None),
        commit_file("src/app/view.rs", None),
        commit_file("src/app/model.rs", None),
        commit_file("docs/guide.md", None),
    ];
    let entries = history_file_tree_entries(&files);
    let shown: Vec<(&str, Vec<bool>, bool, Option<usize>)> = entries
        .iter()
        .map(|e| (e.label.as_str(), e.guides.clone(), e.is_last, e.file_index))
        .collect();
    assert_eq!(
        shown,
        vec![
            ("docs", vec![], false, None),
            ("guide.md", vec![true], true, Some(4)),
            ("src", vec![], false, None),
            ("app", vec![true], false, None),
            ("model.rs", vec![true, true], false, Some(3)),
            ("view.rs", vec![true, true], true, Some(2)),
            ("old.rs -> main.rs", vec![true], true, Some(0)),
            ("README.md", vec![], true, Some(1)),
        ]
    );
}

#[test]
fn last_directory_stops_its_guide() {
    let files = vec![commit_file("a/b/c.txt", None), commit_file("a/d.txt", None)];
    let entries = history_file_tree_entries(&files);
    let shown: Vec<(&str, Vec<bool>, bool)> =
        entries.iter().map(|e| (e.label.as_str(), e.guides.clone(), e.is_last)).collect();
    assert_eq!(
        shown,
        vec![
            ("a", vec![], true),
            ("b", vec![false], false),
            ("c.txt", vec![false, true], true),
            ("d.txt", vec![false], true),
        ]
    );
}

#[test]
fn history_tree_escapes_control_characters() {
    let entries = history_file_tree_entries(&vec![commit_file("dir\tx/a\nb.txt", None)]);
    assert_eq!(entries[0].label, "dir\\tx");
    assert_eq!(entries[1].label, "a\\nb.txt");
}

#[test]
fn files_sort_by_code_point() {
    let entries = history_file_tree_entries(&vec![
        commit_file("b.rs", None),
        commit_file("B.rs", None),
        commit_file("a.rs", None),
    ]);
    let labels: Vec<&str> = entries.iter().map(|e| e.label.as_str()).collect();
    assert_eq!(labels, vec!["B.rs", "a.rs", "b.rs"]);
    assert_eq!(entries[2].file_index, Some(0));
}

#[test]
fn git_tree_carries_paths_depths_and_selections() {
    let changes = vec![change("src/lib.rs", None), change("src/ui/view.rs", Some("src/ui/old.rs")), change("Cargo.toml", None)];
    let entries = git_tree_entries(&changes, GitDiffKind::Staged);
    let shown: Vec<(&str, &str, usize, bool)> = entries
        .iter()
        .map(|e| (e.path.as_str(), e.label.as_str(), e.depth, e.selection.is_some()))
        .collect();
    assert_eq!(
        shown,
        vec![
            ("src", "src", 0, false),
            ("src/ui", "ui", 1, false),
            ("src/ui/view.rs", "old.rs -> view.rs", 2, true),
            ("src/lib.rs", "lib.rs", 1, true),
            ("Cargo.toml", "Cargo.toml", 0, true),
        ]
    );
    let selection = entries[2].selection.as_ref().unwrap();
    assert_eq!(selection.change, changes[1]);
    assert_eq!(selection.kind, GitDiffKind::Staged);
}

#[test]
fn empty_change_list_gives_empty_tree() {
    assert!(git_tree_entries(&Vec::new(), GitDiffKind::Unstaged).is_empty());
    assert!(history_file_tree_entries(&Vec::new()).is_empty());
}

#[test]
fn every_changed_file_appears_once() {
    let files = vec![
        commit_file("x/y/z.txt", None),
        commit_file("x/y/z.txt", None),
        commit_file("x/w.txt", None),
        commit_file("", None),
        commit_file("x", None),
    ];
    let entries = history_file_tree_entries(&files);
    for i in 0..files.len() {
        assert_eq!(entries.iter().filter(|e| e.file_index == Some(i)).count(), 1);
    }
}

#[test]
fn entries_show_when_every_directory_above_is_expanded() {
    let expanded = vec!["/p/src".to_string(), "/p/src/a".to_string()];
    assert!(is_entry_visible("/p/README.md", 0, &expanded));
    assert!(is_entry_visible("/p/src/main.rs", 1, &expanded));
    assert!(is_entry_visible("/p/src/a/b.rs", 2, &expanded));
    assert!(!is_entry_visible("/p/src/c/d.rs", 2, &expanded));
    assert!(!is_entry_visible("/p/docs/x.md", 1, &expanded));
    assert!(is_entry_visible("/p/src//a/b.rs", 2, &vec!["/p/src/".to_string(), "/p/src/a".to_string()]));
    assert!(!is_entry_visible("a", 3, &expanded));
}
