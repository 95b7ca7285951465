use devhub::diagram::{diagram_layout, node_index, place_levels, resolve_links};

fn ids(names: &[&str]) -> Vec<String> {
    names.iter().map(|n| n.to_string()).collect()
}

fn edges(pairs: &[(&str, &str)]) -> Vec<(String, String)> {
    pairs.iter().map(|(a, b)| (a.to_string(), b.to_string())).collect()
}

#[test]
fn chain_takes_one_column_per_step() {
    let layout = diagram_layout(&ids(&["ui", "core", "db"]), &edges(&[("ui", "core"), ("core", "db")]));
    assert_eq!(layout.levels, vec![0, 1, 2]);
    assert_eq!(layout.rows, vec![0, 0, 0]);
    assert_eq!(layout.column_sizes, vec![1, 1, 1]);
    assert_eq!(layout.links, vec![(0, 1), (1, 2)]);
}

#[test]
fn node_goes_past_its_furthest_source() {
    // a -> b -> d and a -> d: d sits after b, not right after a.
    let layout = diagram_layout(
        &ids(&["a", "b", "c", "d"]),
        &edges(&[("a", "d"), ("a", "b"), ("b", "d"), ("c", "d")]),
    );
    assert_eq!(layout.levels, vec![0, 1, 0, 2]);
    assert_eq!(layout.rows, vec![0, 0, 1, 0]);
    assert_eq!(layout.column_sizes, vec![2, 1, 1]);
}

#[test]
fn nodes_in_a_cycle_go_to_the_last_column() {
    // x -> y -> z -> y is a cycle behind x; w stands alone.
    let layout = diagram_layout(
        &ids(&["x", "y", "z", "w", "v"]),
        &edges(&[("x", "y"), ("y", "z"), ("z", "y"), ("x", "v")]),
    );
    // y has a placed source x (column 0), so before the move it would sit
    // at column 1, which is the furthest any node reaches.
    assert_eq!(layout.levels, vec![0, 1, 1, 0, 1]);
    assert_eq!(layout.rows, vec![0, 0, 1, 1, 2]);
    assert_eq!(layout.column_sizes, vec![2, 3]);
}

#[test]
fn cycle_without_placed_sources_stays_on_the_first_column() {
    let layout = diagram_layout(&ids(&["a", "b"]), &edges(&[("a", "b"), ("b", "a")]));
    assert_eq!(layout.levels, vec![0, 0]);
    assert_eq!(layout.rows, vec![0, 1]);
    assert_eq!(layout.column_sizes, vec![2]);
}

#[test]
fn self_loop_keeps_a_node_unplaced() {
    let layout = diagram_layout(&ids(&["a", "b", "c"]), &edges(&[("a", "b"), ("b", "c"), ("c", "c")]));
    // c waits on itself; it goes to the furthest column reached, which is
    // its own pre-move column 2.
    assert_eq!(layout.levels, vec![0, 1, 2]);
}

#[test]
fn edges_naming_unknown_nodes_are_dropped() {
    let layout = diagram_layout(&ids(&["a", "b"]), &edges(&[("a", "ghost"), ("a", "b"), ("nobody", "b")]));
    assert_eq!(layout.links, vec![(0, 1)]);
    assert_eq!(layout.levels, vec![0, 1]);
}

#[test]
fn empty_diagram_has_one_empty_column() {
    let layout = diagram_layout(&Vec::new(), &Vec::new());
    assert!(layout.levels.is_empty());
    assert!(layout.rows.is_empty());
    assert_eq!(layout.column_sizes, vec![0]);
    assert!(layout.links.is_empty());
}

#[test]
fn a_repeated_id_names_its_last_node() {
    let names = ids(&["a", "b", "a"]);
    assert_eq!(node_index(&names, &"a".to_string()), Some(2));
    assert_eq!(node_index(&names, &"b".to_string()), Some(1));
    assert_eq!(node_index(&names, &"c".to_string()), None);
    assert_eq!(resolve_links(&names, &edges(&[("b", "a")])), vec![(1, 2)]);
}

#[test]
fn repeated_edges_count_once_each() {
    let levels = place_levels(3, &vec![(0, 1), (0, 1), (1, 2)]);
    assert_eq!(levels, vec![0, 1, 2]);
}

#[test]
fn every_edge_into_a_placed_node_runs_forward() {
    let links = vec![(0, 2), (1, 2), (2, 3), (1, 3), (4, 0)];
    let levels = place_levels(5, &links);
    for (a, b) in links {
        assert!(levels[a] < levels[b]);
    }
    assert_eq!(levels, vec![1, 0, 2, 3, 0]);
}
