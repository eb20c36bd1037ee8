use cirdean::cycles::enumerate_cycles;
use cirdean::graph::{build_graph, shares_line};

#[test]
fn intersections_on_a_common_line_share_it() {
    assert!(shares_line((0, 1), (1, 2)));
    assert!(shares_line((0, 1), (2, 0)));
    assert!(shares_line((3, 4), (3, 5)));
    assert!(!shares_line((0, 1), (2, 3)));
}

#[test]
fn rectangle_of_four_lines_yields_one_cycle() {
    // Lines 0 and 1 are horizontal, 2 and 3 vertical; every intersection is
    // one horizontal line crossing one vertical line.
    let source_lines = vec![(0, 2), (0, 3), (1, 2), (1, 3)];
    let graph = build_graph(&source_lines, |_, _| true);
    assert_eq!(graph, vec![vec![1, 2], vec![0, 3], vec![0, 3], vec![1, 2]]);
    assert_eq!(enumerate_cycles(&graph, 16), vec![[0, 1, 3, 2]]);
}

#[test]
fn close_intersections_are_not_joined() {
    let source_lines = vec![(0, 2), (0, 3), (1, 2), (1, 3)];
    let graph = build_graph(&source_lines, |first, second| !(first == 0 && second == 1));
    assert_eq!(graph, vec![vec![2], vec![3], vec![0, 3], vec![1, 2]]);
    assert!(enumerate_cycles(&graph, 16).is_empty());
}

#[test]
fn graph_of_no_intersections_is_empty() {
    let graph = build_graph(&[], |_, _| true);
    assert!(graph.is_empty());
}
