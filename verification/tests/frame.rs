use cirdean::frame::{has_edge_near, GrayFrame};

fn frame_with(width: u32, height: u32, lit: &[(u32, u32)]) -> GrayFrame {
    let mut pixels = vec![0u8; (width * height) as usize];
    for &(x, y) in lit {
        pixels[(y * width + x) as usize] = 255;
    }
    GrayFrame::new(width, height, pixels).expect("sized frame")
}

#[test]
fn frame_size_must_match_samples() {
    assert!(GrayFrame::new(3, 2, vec![0; 6]).is_some());
    assert!(GrayFrame::new(3, 2, vec![0; 5]).is_none());
    assert!(GrayFrame::new(0, 7, Vec::new()).is_some());
}

#[test]
fn pixels_are_row_major() {
    let frame = GrayFrame::new(3, 2, vec![1, 2, 3, 4, 5, 6]).unwrap();
    assert_eq!(frame.get_pixel(2, 0), 3);
    assert_eq!(frame.get_pixel(0, 1), 4);
    assert_eq!(frame.width(), 3);
    assert_eq!(frame.height(), 2);
}

#[test]
fn edge_within_radius_is_found() {
    let frame = frame_with(10, 10, &[(5, 5)]);
    assert!(has_edge_near(&frame, 5, 5, 0));
    assert!(has_edge_near(&frame, 3, 7, 2));
    assert!(!has_edge_near(&frame, 2, 5, 2));
    assert!(!has_edge_near(&frame, 5, 5, -1));
}

#[test]
fn samples_outside_the_frame_are_ignored() {
    let frame = frame_with(4, 4, &[(0, 0)]);
    assert!(has_edge_near(&frame, -1, -1, 1));
    assert!(!has_edge_near(&frame, -3, 0, 2));
    assert!(!has_edge_near(&frame, 100, 100, 50));
}
