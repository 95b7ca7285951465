use devhub::project::RemoteHostConfig;
use devhub::settings::{
    add_path_once, add_remote_host, add_root_once, decrease_depth, increase_depth, path_position, remove_at,
    remove_path, shifted_depth, toggle_path,
};

fn strings(items: &[&str]) -> Vec<String> {
    items.iter().map(|s| s.to_string()).collect()
}

#[test]
fn pins_toggle_on_and_off() {
    let mut pinned = strings(&["/home/me/a", "/home/me/b"]);
    assert!(!toggle_path(&mut pinned, "/home/me/a"));
    assert_eq!(pinned, strings(&["/home/me/b"]));
    assert!(toggle_path(&mut pinned, "/home/me/a"));
    assert_eq!(pinned, strings(&["/home/me/b", "/home/me/a"]));
    assert!(!toggle_path(&mut pinned, "/home/me//a/"));
    assert_eq!(pinned, strings(&["/home/me/b"]));
}

#[test]
fn paths_compare_by_components_and_root() {
    let list = strings(&["src/app", "/src/app"]);
    assert_eq!(path_position(&list, "/src//app"), Some(1));
    assert_eq!(path_position(&list, "src/app/"), Some(0));
    assert_eq!(path_position(&list, "src"), None);
}

#[test]
fn unhiding_removes_only_the_first_entry() {
    let mut hidden = strings(&["/a", "/b", "/a"]);
    remove_path(&mut hidden, "/a");
    assert_eq!(hidden, strings(&["/b", "/a"]));
    remove_path(&mut hidden, "/c");
    assert_eq!(hidden, strings(&["/b", "/a"]));
}

#[test]
fn sources_are_added_once() {
    let mut dirs = strings(&["/src"]);
    add_path_once(&mut dirs, "/src/");
    add_path_once(&mut dirs, "/work");
    assert_eq!(dirs, strings(&["/src", "/work"]));
    let mut roots = strings(&["/srv"]);
    add_root_once(&mut roots, "/srv");
    add_root_once(&mut roots, "/srv/");
    assert_eq!(roots, strings(&["/srv", "/srv/"]));
    assert!(remove_at(&mut roots, 0));
    assert!(!remove_at(&mut roots, 3));
    assert_eq!(roots, strings(&["/srv/"]));
}

#[test]
fn depths_stay_between_one_and_twenty() {
    assert_eq!(increase_depth(4), 5);
    assert_eq!(increase_depth(20), 20);
    assert_eq!(decrease_depth(4), 3);
    assert_eq!(decrease_depth(1), 1);
    assert_eq!(shifted_depth(4, 1), 5);
    assert_eq!(shifted_depth(4, -1), 3);
    assert_eq!(shifted_depth(1, -1), 1);
    assert_eq!(shifted_depth(20, 1), 20);
    assert_eq!(shifted_depth(0, 0), 1);
    assert_eq!(shifted_depth(usize::MAX, isize::MAX), 20);
    assert_eq!(shifted_depth(3, isize::MIN), 1);
}

#[test]
fn remote_hosts_are_added_or_renamed() {
    let mut hosts: Vec<RemoteHostConfig> = Vec::new();
    assert_eq!(add_remote_host(&mut hosts, " Build box ", "dev@build".to_string(), 3), 0);
    assert_eq!(add_remote_host(&mut hosts, "", "ci@runner".to_string(), 5), 1);
    assert_eq!(hosts[1].name, "");
    assert_eq!(hosts[1].max_depth, 5);
    assert_eq!(add_remote_host(&mut hosts, "  ", "dev@build".to_string(), 9), 0);
    assert_eq!(hosts[0].name, "Build box");
    assert_eq!(add_remote_host(&mut hosts, "Builder", "dev@build".to_string(), 9), 0);
    assert_eq!(hosts[0].name, "Builder");
    assert_eq!(hosts[0].max_depth, 3);
    assert_eq!(hosts.len(), 2);
}
