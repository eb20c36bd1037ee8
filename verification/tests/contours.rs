use cirdean::contours::{keep_candidates, outer_borders, Border};
use cirdean::frame::GrayFrame;

fn frame_with(width: u32, height: u32, lit: &[(u32, u32)]) -> GrayFrame {
    let mut pixels = vec![0u8; (width * height) as usize];
    for &(x, y) in lit {
        pixels[(y * width + x) as usize] = 255;
    }
    GrayFrame::new(width, height, pixels).expect("sized frame")
}

fn square(left: u32, top: u32, side: u32, filled: bool) -> Vec<(u32, u32)> {
    let mut lit = Vec::new();
    for y in top..top + side {
        for x in left..left + side {
            let on_rim = x == left || y == top || x == left + side - 1 || y == top + side - 1;
            if filled || on_rim {
                lit.push((x, y));
            }
        }
    }
    lit
}

#[test]
fn an_empty_edge_map_has_no_borders() {
    assert!(outer_borders(&frame_with(6, 5, &[])).is_empty());
}

#[test]
fn a_filled_square_gives_its_rim_as_one_outer_border() {
    let borders = outer_borders(&frame_with(8, 8, &square(2, 2, 3, true)));
    assert_eq!(borders.len(), 1);
    assert!(borders[0].outer);
    let mut points = borders[0].points.clone();
    points.sort();
    let mut rim: Vec<(i32, i32)> = square(2, 2, 3, false)
        .into_iter()
        .map(|(x, y)| (x as i32, y as i32))
        .collect();
    rim.sort();
    assert_eq!(points, rim);
}

#[test]
fn the_hole_of_a_ring_is_not_a_candidate() {
    let borders = outer_borders(&frame_with(9, 9, &square(1, 1, 6, false)));
    assert_eq!(borders.len(), 1);
    assert!(borders[0].outer);
    assert!(borders[0].points.len() >= 4);
}

#[test]
fn borders_of_fewer_than_four_points_are_dropped() {
    let lit = [(3, 3), (6, 1), (7, 1)];
    assert!(outer_borders(&frame_with(9, 6, &lit)).is_empty());
}

#[test]
fn separate_regions_keep_their_tracing_order() {
    let mut lit = square(5, 1, 3, true);
    lit.extend(square(1, 5, 3, true));
    let borders = outer_borders(&frame_with(10, 10, &lit));
    assert_eq!(borders.len(), 2);
    assert!(borders.iter().all(|border| border.outer && border.points.len() == 8));
    assert!(borders[0].points.iter().all(|&(_, y)| y < 4));
    assert!(borders[1].points.iter().all(|&(_, y)| y >= 5));
}

#[test]
fn only_outer_borders_of_four_or_more_points_are_kept_in_order() {
    let border = |count: i32, outer: bool| Border { points: (0..count).map(|i| (i, count)).collect(), outer };
    let kept = keep_candidates(vec![
        border(4, true),
        border(9, false),
        border(3, true),
        border(6, true),
        border(0, true),
    ]);
    let shapes: Vec<(usize, bool)> = kept.iter().map(|b| (b.points.len(), b.outer)).collect();
    assert_eq!(shapes, vec![(4, true), (6, true)]);
    assert_eq!(kept[1].points[5], (5, 6));
}
