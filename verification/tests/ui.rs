use devhub::git::{git_metadata_name_is_relevant, gitdir_target};
use devhub::scan::ScanState;
use devhub::ui::{file_icon, scan_status, FileIcon};

#[test]
fn scan_status_describes_each_state() {
    assert_eq!(scan_status(&ScanState::Idle, "/src"), "Cached projects; explicit scan required.");
    assert_eq!(scan_status(&ScanState::Scanning, "/home/me/src"), "Scanning /home/me/src...");
    assert_eq!(scan_status(&ScanState::Loaded { count: 12 }, "/src"), "Loaded 12 project(s).");
    assert_eq!(scan_status(&ScanState::Loaded { count: 0 }, "/src"), "Loaded 0 project(s).");
    assert_eq!(scan_status(&ScanState::Empty, "/src"), "Scan completed with no projects.");
    assert_eq!(
        scan_status(&ScanState::Error("denied".to_string()), "/src"),
        "Scan failed. Review the message above."
    );
}

#[test]
fn file_icons_follow_the_last_extension() {
    assert_eq!(file_icon("README.md"), FileIcon::Document);
    assert_eq!(file_icon("notes.txt"), FileIcon::Document);
    assert_eq!(file_icon("logo.png"), FileIcon::Image);
    assert_eq!(file_icon("archive.tar.svg"), FileIcon::Image);
    assert_eq!(file_icon("build.sh"), FileIcon::Script);
    assert_eq!(file_icon("Cargo.toml"), FileIcon::Settings);
    assert_eq!(file_icon("config.yml"), FileIcon::Settings);
    assert_eq!(file_icon("main.rs"), FileIcon::File);
    assert_eq!(file_icon("Makefile"), FileIcon::File);
    assert_eq!(file_icon("trailing."), FileIcon::File);
    assert_eq!(file_icon("README.MD"), FileIcon::File);
}

#[test]
fn git_metadata_relevance() {
    assert!(git_metadata_name_is_relevant(None));
    assert!(git_metadata_name_is_relevant(Some("index")));
    assert!(git_metadata_name_is_relevant(Some("index.lock")));
    assert!(git_metadata_name_is_relevant(Some("HEAD")));
    assert!(git_metadata_name_is_relevant(Some("refs")));
    assert!(git_metadata_name_is_relevant(Some("packed-refs")));
    assert!(!git_metadata_name_is_relevant(Some("objects")));
    assert!(!git_metadata_name_is_relevant(Some("logs")));
    assert!(!git_metadata_name_is_relevant(Some("FETCH_HEAD")));
}

#[test]
fn gitdir_file_points_at_its_directory() {
    assert_eq!(gitdir_target("gitdir: /repo/.git/worktrees/x\n"), Some("/repo/.git/worktrees/x".to_string()));
    assert_eq!(gitdir_target("  gitdir:../main/.git  "), Some("../main/.git".to_string()));
    assert_eq!(gitdir_target("ref: refs/heads/main"), None);
    assert_eq!(gitdir_target(""), None);
}
