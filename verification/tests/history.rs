use devhub::git::{
    diff_line_text, display_history_path, git_change_label, git_error_notice, git_stat_value,
    humanize_diff_metadata, humanize_hunk_header, DiffLine, DiffLineKind, GitError, GitErrorKind,
    GitFileChange,
};
use devhub::history::{
    author_initials, commit_totals, history_graph_rows, CommitEntry, CommitFileChange,
    HistoryGraphRow,
};

fn commit(hash: &str, parents: &[&str]) -> CommitEntry {
    CommitEntry {
        hash: hash.to_string(),
        parents: parents.iter().map(|p| p.to_string()).collect(),
        files: Vec::new(),
    }
}

fn row(node_lane: usize, top_lanes: usize, bottom_lanes: usize, connections: &[(usize, usize)]) -> HistoryGraphRow {
    HistoryGraphRow {
        node_lane,
        top_lanes,
        bottom_lanes,
        connections: connections.to_vec(),
    }
}

#[test]
fn a_linear_history_stays_on_one_lane() {
    let rows = history_graph_rows(&vec![commit("c", &["b"]), commit("b", &["a"]), commit("a", &[])]);
    assert_eq!(
        rows,
        vec![row(0, 0, 1, &[(0, 0)]), row(0, 1, 1, &[(0, 0)]), row(0, 1, 0, &[])]
    );
}

#[test]
fn a_merge_opens_a_lane_for_its_second_parent() {
    let rows = history_graph_rows(&vec![
        commit("m", &["a", "b"]),
        commit("b", &["a"]),
        commit("a", &[]),
    ]);
    assert_eq!(
        rows,
        vec![
            row(0, 0, 2, &[(0, 0), (0, 1)]),
            row(1, 2, 1, &[(0, 0), (1, 0)]),
            row(0, 1, 0, &[]),
        ]
    );
}

#[test]
fn an_unexpected_commit_gets_a_new_first_lane() {
    let rows = history_graph_rows(&vec![commit("x", &["p"]), commit("y", &["q"])]);
    assert_eq!(rows[1], row(0, 2, 2, &[(1, 1), (0, 0)]));
    assert!(history_graph_rows(&Vec::new()).is_empty());
}

#[test]
fn commit_totals_add_known_counts_and_count_unknown_files() {
    let mut entry = commit("c", &[]);
    entry.files = vec![
        CommitFileChange {
            path: "a".into(),
            original_path: None,
            additions: Some(3),
            deletions: Some(1),
        },
        CommitFileChange {
            path: "b".into(),
            original_path: None,
            additions: None,
            deletions: Some(2),
        },
        CommitFileChange {
            path: "c".into(),
            original_path: Some("d".into()),
            additions: Some(5),
            deletions: None,
        },
    ];
    assert_eq!(commit_totals(&entry), (8, 3, 2));
    assert_eq!(commit_totals(&commit("e", &[])), (0, 0, 0));
}

#[test]
fn initials_come_from_the_first_two_words() {
    assert_eq!(author_initials("ada lovelace byron"), "AL");
    assert_eq!(author_initials("  grace  "), "G");
    assert_eq!(author_initials(""), "?");
    assert_eq!(author_initials("   "), "?");
    assert_eq!(author_initials("émile zola"), "ÉZ");
    assert_eq!(author_initials("straße"), "S");
    assert_eq!(author_initials("ßtraße x"), "SSX");
}

#[test]
fn history_paths_escape_control_and_special_characters() {
    assert_eq!(display_history_path("src/main.rs"), "src/main.rs");
    assert_eq!(display_history_path("a\tb\n"), "a\\tb\\n");
    assert_eq!(display_history_path("q\"'\\"), "q\\\"\\'\\\\");
    assert_eq!(display_history_path("é"), "\\u{e9}");
    assert_eq!(display_history_path("\u{0}"), "\\u{0}");
    assert_eq!(display_history_path("\u{1f600}"), "\\u{1f600}");
}

#[test]
fn hunk_headers_read_as_changed_lines() {
    assert_eq!(
        humanize_hunk_header("@@ -1,4 +1,5 @@ fn main() {"),
        "Changed lines 1,4 -> 1,5  fn main() {"
    );
    assert_eq!(humanize_hunk_header("@@ -3 +3 @@"), "Changed lines 3 -> 3");
    assert_eq!(humanize_hunk_header("@@ -3 +3 @@   "), "Changed lines 3 -> 3");
    assert_eq!(humanize_hunk_header("not a hunk"), "Changed lines");
    assert_eq!(humanize_hunk_header("@@ -3,4 @@"), "Changed lines");
    assert_eq!(humanize_hunk_header("@@ -3 +4"), "Changed lines");
}

#[test]
fn diff_metadata_reads_as_words() {
    assert_eq!(
        humanize_diff_metadata("\\ No newline at end of file"),
        Some("No newline at end of file".to_string())
    );
    assert_eq!(
        humanize_diff_metadata("Binary files a/x and b/x differ"),
        Some("Binary file changed".to_string())
    );
    assert_eq!(
        humanize_diff_metadata("GIT binary patch"),
        Some("Binary file changed".to_string())
    );
    assert_eq!(
        humanize_diff_metadata("new file mode 100644"),
        Some("New file, mode 100644".to_string())
    );
    assert_eq!(
        humanize_diff_metadata("deleted file mode 100755"),
        Some("Deleted file, mode 100755".to_string())
    );
    assert_eq!(
        humanize_diff_metadata("rename from old\tname"),
        Some("Renamed from old\\tname".to_string())
    );
    assert_eq!(
        humanize_diff_metadata("rename to new"),
        Some("Renamed to new".to_string())
    );
    assert_eq!(
        humanize_diff_metadata("similarity index 90%"),
        Some("Similarity 90%".to_string())
    );
    assert_eq!(humanize_diff_metadata("index 1234..5678 100644"), None);
}

#[test]
fn diff_lines_drop_their_markers() {
    let line = |kind, text: &str| DiffLine {
        kind,
        text: text.to_string(),
    };
    assert_eq!(diff_line_text(&line(DiffLineKind::FileHeader, "diff --git a b")), None);
    assert_eq!(diff_line_text(&line(DiffLineKind::Addition, "+added")), Some("added".to_string()));
    assert_eq!(diff_line_text(&line(DiffLineKind::Deletion, "-gone")), Some("gone".to_string()));
    assert_eq!(diff_line_text(&line(DiffLineKind::Context, " same")), Some("same".to_string()));
    assert_eq!(diff_line_text(&line(DiffLineKind::Context, "")), Some(String::new()));
    assert_eq!(
        diff_line_text(&line(DiffLineKind::HunkHeader, "@@ -1 +1 @@")),
        Some("Changed lines 1 -> 1".to_string())
    );
    assert_eq!(diff_line_text(&line(DiffLineKind::Metadata, "index 1..2")), None);
}

#[test]
fn stats_and_change_labels() {
    assert_eq!(git_stat_value(Some(42)), "42");
    assert_eq!(git_stat_value(Some(0)), "0");
    assert_eq!(git_stat_value(None), "?");
    assert_eq!(
        git_change_label(&GitFileChange {
            path: "src/new.rs".into(),
            original_path: Some("src/old.rs".into()),
        }),
        "src/old.rs -> src/new.rs"
    );
    assert_eq!(
        git_change_label(&GitFileChange {
            path: "README.md".into(),
            original_path: None,
        }),
        "README.md"
    );
}

#[test]
fn git_errors_show_the_last_line_git_printed() {
    let error = |kind, detail: &str| GitError {
        kind,
        detail: detail.to_string(),
        status_text: "Git command failed".to_string(),
    };
    assert_eq!(
        git_error_notice(&error(
            GitErrorKind::CommandFailed,
            "hint: x\nfatal: not a git repository\n\n"
        )),
        "Git: not a git repository"
    );
    assert_eq!(
        git_error_notice(&error(GitErrorKind::Validation, "error: bad ref\r\n")),
        "Git: bad ref"
    );
    assert_eq!(
        git_error_notice(&error(GitErrorKind::CommandFailed, "  \n \n")),
        "Git command failed"
    );
    assert_eq!(
        git_error_notice(&error(GitErrorKind::Other, "fatal: x")),
        "Git command failed"
    );
    let long = "y".repeat(150);
    assert_eq!(
        git_error_notice(&error(GitErrorKind::CommandFailed, &long)),
        format!("Git: {}...", "y".repeat(140))
    );
}

#[test]
fn git_view_heading_and_tracking() {
    use_git_heading();
}

fn use_git_heading() {
    assert_eq!(devhub::git::branch_heading(Some("main")), "main");
    assert_eq!(devhub::git::branch_heading(None), "detached HEAD");
    assert_eq!(devhub::git::tracking_text(0, 0), "");
    assert_eq!(devhub::git::tracking_text(3, 0), "3 ahead");
    assert_eq!(devhub::git::tracking_text(0, 12), "12 behind");
    assert_eq!(devhub::git::tracking_text(2, 5), "2 ahead · 5 behind");
    assert!(devhub::git::push_offered(true, "main"));
    assert!(!devhub::git::push_offered(true, "detached HEAD"));
    assert!(!devhub::git::push_offered(true, "detached"));
    assert!(!devhub::git::push_offered(false, "main"));
}
