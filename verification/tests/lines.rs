use cirdean::frame::GrayFrame;
use cirdean::lines::{bounded_lines, scaled_vote_thresholds, LineSearch};

fn vertical_bar(width: u32, height: u32, x: u32) -> GrayFrame {
    let mut pixels = vec![0u8; (width * height) as usize];
    for y in 0..height {
        pixels[(y * width + x) as usize] = 255;
    }
    GrayFrame::new(width, height, pixels).unwrap()
}

#[test]
fn strict_thresholds_find_no_line() {
    let frame = vertical_bar(40, 40, 20);
    let search = LineSearch { vote_thresholds: [100, 150, 200], suppression_radius: 4, maximum_lines: 16 };
    assert!(bounded_lines(&frame, search).is_empty());
}

#[test]
fn a_vertical_bar_is_a_vertical_line() {
    let frame = vertical_bar(40, 40, 20);
    let search = LineSearch { vote_thresholds: [35, 150, 200], suppression_radius: 4, maximum_lines: 16 };
    let lines = bounded_lines(&frame, search);
    assert!(!lines.is_empty());
    assert!(lines.len() <= 16);
    assert!(lines
        .iter()
        .any(|line| line.angle_in_degrees == 0 && (line.r - 20.0).abs() < 1.0));
}

#[test]
fn line_count_never_exceeds_the_bound() {
    let mut pixels = vec![0u8; 30 * 30];
    for y in 0..30 {
        for x in 0..30 {
            if (x + y) % 3 == 0 {
                pixels[y * 30 + x] = 255;
            }
        }
    }
    let frame = GrayFrame::new(30, 30, pixels).unwrap();
    let search = LineSearch { vote_thresholds: [1, 2, 3], suppression_radius: 0, maximum_lines: 2 };
    assert!(bounded_lines(&frame, search).len() <= 2);
}

#[test]
fn a_wide_suppression_radius_on_a_small_frame_is_accepted() {
    let frame = GrayFrame::new(1, 1, vec![255]).unwrap();
    let search = LineSearch { vote_thresholds: [1, 2, 3], suppression_radius: 0x8000_0000, maximum_lines: 4 };
    let lines = bounded_lines(&frame, search);
    assert!(!lines.is_empty());
    assert!(lines.len() <= 4);
}

#[test]
fn vote_thresholds_scale_with_a_smaller_preview() {
    assert_eq!(scaled_vote_thresholds([100, 150, 200], 160, 500), [32, 48, 64]);
    assert_eq!(scaled_vote_thresholds([100, 150, 200], 500, 500), [100, 150, 200]);
    assert_eq!(scaled_vote_thresholds([100, 150, 200], 900, 500), [100, 150, 200]);
    assert_eq!(scaled_vote_thresholds([1, 2, 3], 10, 500), [1, 1, 1]);
    assert_eq!(scaled_vote_thresholds([100, 150, 200], 160, 0), [100, 150, 200]);
    assert_eq!(scaled_vote_thresholds([u32::MAX, 0, 7], 1, 2), [u32::MAX / 2, 1, 3]);
}
