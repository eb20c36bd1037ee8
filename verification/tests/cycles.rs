use cirdean::cycles::{canonical_cycle, enumerate_cycles};

#[test]
fn equivalent_cycles_have_one_canonical_form() {
    let first = canonical_cycle([0, 1, 2, 3]);
    let rotated = canonical_cycle([2, 3, 0, 1]);
    let reversed = canonical_cycle([0, 3, 2, 1]);
    assert_eq!(first, rotated);
    assert_eq!(first, reversed);
}

#[test]
fn cycle_enumeration_is_bounded() {
    let graph = vec![
        vec![1, 2, 3, 4],
        vec![0, 2, 3, 4],
        vec![0, 1, 3, 4],
        vec![0, 1, 2, 4],
        vec![0, 1, 2, 3],
    ];
    assert!(enumerate_cycles(&graph, 3).len() <= 3);
}

#[test]
fn canonical_form_starts_at_smallest_corner_in_smaller_direction() {
    assert_eq!(canonical_cycle([3, 1, 2, 0]), [0, 2, 1, 3]);
    assert_eq!(canonical_cycle([5, 9, 7, 6]), [5, 6, 7, 9]);
    assert_eq!(canonical_cycle([4, 4, 4, 4]), [4, 4, 4, 4]);
}

#[test]
fn canonical_form_is_idempotent() {
    let form = canonical_cycle([8, 2, 6, 4]);
    assert_eq!(canonical_cycle(form), form);
}

#[test]
fn square_graph_has_exactly_one_cycle() {
    let graph = vec![vec![1, 3], vec![0, 2], vec![1, 3], vec![0, 2]];
    assert_eq!(enumerate_cycles(&graph, 10), vec![[0, 1, 2, 3]]);
}

#[test]
fn complete_graph_on_five_nodes_has_fifteen_sorted_cycles() {
    let graph = vec![
        vec![1, 2, 3, 4],
        vec![0, 2, 3, 4],
        vec![0, 1, 3, 4],
        vec![0, 1, 2, 4],
        vec![0, 1, 2, 3],
    ];
    let cycles = enumerate_cycles(&graph, 512);
    assert_eq!(cycles.len(), 15);
    for pair in cycles.windows(2) {
        assert!(pair[0] < pair[1]);
    }
    for cycle in &cycles {
        assert_eq!(canonical_cycle(*cycle), *cycle);
    }
    assert_eq!(cycles[0], [0, 1, 2, 3]);
}

#[test]
fn bound_reached_stops_the_search() {
    let graph = vec![
        vec![1, 2, 3, 4],
        vec![0, 2, 3, 4],
        vec![0, 1, 3, 4],
        vec![0, 1, 2, 4],
        vec![0, 1, 2, 3],
    ];
    assert_eq!(enumerate_cycles(&graph, 3).len(), 3);
    assert!(enumerate_cycles(&graph, 0).is_empty());
}

#[test]
fn triangle_and_path_have_no_four_cycle() {
    let triangle = vec![vec![1, 2], vec![0, 2], vec![0, 1]];
    assert!(enumerate_cycles(&triangle, 8).is_empty());
    let path = vec![vec![1], vec![0, 2], vec![1, 3], vec![2]];
    assert!(enumerate_cycles(&path, 8).is_empty());
    let empty: Vec<Vec<usize>> = Vec::new();
    assert!(enumerate_cycles(&empty, 8).is_empty());
}

#[test]
fn a_reached_bound_keeps_the_first_cycles_met() {
    let graph = vec![
        vec![1, 2, 3, 4],
        vec![0, 2, 3, 4],
        vec![0, 1, 3, 4],
        vec![0, 1, 2, 4],
        vec![0, 1, 2, 3],
    ];
    // Depth-first from node 0 meets 0-1-2-3, 0-1-2-4, then 0-1-3-2.
    assert_eq!(enumerate_cycles(&graph, 3), vec![[0, 1, 2, 3], [0, 1, 2, 4], [0, 1, 3, 2]]);
}

#[test]
fn directed_cycles_are_found_in_one_direction() {
    let graph = vec![vec![1], vec![2], vec![3], vec![0]];
    assert_eq!(enumerate_cycles(&graph, 4), vec![[0, 1, 2, 3]]);
}

#[test]
fn a_zero_limit_reads_no_adjacency() {
    let graph = vec![vec![1, 7], vec![0]];
    assert!(enumerate_cycles(&graph, 0).is_empty());
}

#[test]
fn a_missing_node_beyond_the_limit_is_never_read() {
    let graph = vec![vec![1, 3], vec![0, 2], vec![1, 3], vec![0, 2, 9]];
    assert_eq!(enumerate_cycles(&graph, 1), vec![[0, 1, 2, 3]]);
}
