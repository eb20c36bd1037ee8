use cirdean::camera_probe::{
    is_full_hd, is_native_mjpeg_1080p30, kept_photo_number, PHOTO_CAPTURES, is_research_camera, unpack_pair, AmbiguousCamera,
    CameraSelection, SampleAction, SampleCollector, NATIVE_SAMPLES,
};

const CAMERA: &str = r"\\?\USB#VID_0C45&PID_6369&MI_00#6&1a2b3c4d&0&0000#{e5323777-f976-4f5b-9b55-b94699c46e44}\GLOBAL";

#[test]
fn research_camera_is_recognized_in_any_case() {
    assert!(is_research_camera(CAMERA));
    assert!(is_research_camera("vid_0c45&pid_6369&mi_00"));
    assert!(!is_research_camera(r"\\?\USB#VID_0C45&PID_6369&MI_02#7"));
    assert!(!is_research_camera(""));
}

#[test]
fn one_matching_device_is_selected() {
    let mut selection = CameraSelection::new();
    assert_eq!(selection.observe(0, "integrated webcam"), Ok(()));
    assert_eq!(selection.observe(1, CAMERA), Ok(()));
    assert_eq!(selection.observe(2, "virtual camera"), Ok(()));
    assert_eq!(selection.selected(), Some(1));
}

#[test]
fn a_second_matching_device_is_ambiguous() {
    let mut selection = CameraSelection::new();
    selection.observe(3, CAMERA).unwrap();
    assert_eq!(selection.observe(5, CAMERA), Err(AmbiguousCamera { first: 3, second: 5 }));
    assert_eq!(selection.selected(), Some(3));
}

#[test]
fn no_matching_device_selects_nothing() {
    let mut selection = CameraSelection::new();
    selection.observe(0, "integrated webcam").unwrap();
    assert_eq!(selection.selected(), None);
}

#[test]
fn packed_attributes_split_into_halves() {
    assert_eq!(unpack_pair((1920u64 << 32) | 1080), (1920, 1080));
    assert_eq!(unpack_pair(u64::MAX), (0xffff_ffff, 0xffff_ffff));
    assert_eq!(unpack_pair(7), (0, 7));
}

#[test]
fn only_mjpeg_full_hd_at_thirty_fps_is_wanted() {
    let size = Some((1920u64 << 32) | 1080);
    assert!(is_native_mjpeg_1080p30(true, size, Some((30u64 << 32) | 1)));
    assert!(is_native_mjpeg_1080p30(true, size, Some((60u64 << 32) | 2)));
    assert!(!is_native_mjpeg_1080p30(false, size, Some((30u64 << 32) | 1)));
    assert!(!is_native_mjpeg_1080p30(true, size, Some((30000u64 << 32) | 1001)));
    assert!(!is_native_mjpeg_1080p30(true, size, Some(0)));
    assert!(!is_native_mjpeg_1080p30(true, Some((1280u64 << 32) | 720), Some((30u64 << 32) | 1)));
    assert!(!is_native_mjpeg_1080p30(true, None, Some((30u64 << 32) | 1)));
    assert!(!is_native_mjpeg_1080p30(true, size, None));
}

#[test]
fn photo_property_must_be_full_hd() {
    assert!(is_full_hd(Some(1920), Some(1080)));
    assert!(!is_full_hd(Some(1080), Some(1920)));
    assert!(!is_full_hd(None, Some(1080)));
}

#[test]
fn samples_are_kept_after_warm_up_until_complete() {
    let mut collector = SampleCollector::new();
    assert_eq!(collector.observe(false, true, false), SampleAction::Skip);
    assert_eq!(collector.observe(false, false, true), SampleAction::Skip);
    for index in 0..NATIVE_SAMPLES {
        let complete = index + 1 == NATIVE_SAMPLES;
        assert_eq!(collector.observe(false, true, true), SampleAction::Keep { index, complete });
    }
    assert!(collector.is_complete());
    assert_eq!(collector.kept(), NATIVE_SAMPLES);
}

#[test]
fn reader_stop_ends_collection_without_counting() {
    let mut collector = SampleCollector::new();
    assert_eq!(collector.observe(true, true, true), SampleAction::Stop);
    assert_eq!(collector.kept(), 0);
    assert!(!collector.is_complete());
}

#[test]
fn warm_up_photos_are_not_kept() {
    assert_eq!(kept_photo_number(0), None);
    assert_eq!(kept_photo_number(2), None);
    assert_eq!(kept_photo_number(3), Some(0));
    assert_eq!(kept_photo_number(PHOTO_CAPTURES - 1), Some(9));
}
