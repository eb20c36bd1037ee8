use cirdean::capture::{AutoCaptureController, CaptureEvent, CaptureEvidence, CaptureState};
use cirdean::detection::DetectionSource;

const STABLE_FOR_MS: u64 = 650;

fn evidence(scene_changed: bool) -> CaptureEvidence {
    CaptureEvidence {
        scene_changed,
        moved_beyond_stable_shift: false,
        moved_beyond_rearm_shift: false,
        quality_accepted: true,
    }
}

#[test]
fn stable_document_is_captured_only_once() {
    let mut controller = AutoCaptureController::new(STABLE_FOR_MS);
    assert_eq!(controller.update(0, Some(0u32), evidence(false)), None);
    assert!(matches!(
        controller.update(700, Some(1u32), evidence(false)),
        Some(CaptureEvent::Capture(_))
    ));
    assert_eq!(controller.update(1_500, Some(1u32), evidence(false)), None);
}

#[test]
fn scene_change_rearms_even_when_new_page_has_same_geometry() {
    let mut controller = AutoCaptureController::new(STABLE_FOR_MS);
    controller.update(0, Some(0u32), evidence(false));
    assert!(controller.update(700, Some(0u32), evidence(false)).is_some());

    assert_eq!(controller.update(800, Some(0u32), evidence(true)), None);
    assert!(matches!(controller.state(), CaptureState::Stabilizing { .. }));
    assert!(controller.update(1_500, Some(0u32), evidence(false)).is_some());
}

#[test]
fn capture_waits_for_the_full_dwell() {
    let mut controller = AutoCaptureController::new(STABLE_FOR_MS);
    controller.update(100, Some(7u32), evidence(false));
    assert_eq!(controller.update(749, Some(7u32), evidence(false)), None);
    assert_eq!(controller.update(750, Some(7u32), evidence(false)), Some(CaptureEvent::Capture(7)));
    assert_eq!(controller.state(), CaptureState::AwaitingPageChange { captured: 7 });
}

#[test]
fn movement_restarts_the_dwell_and_rejected_quality_blocks_capture() {
    let mut controller = AutoCaptureController::new(STABLE_FOR_MS);
    controller.update(0, Some(1u32), evidence(false));
    let moved = CaptureEvidence { moved_beyond_stable_shift: true, ..evidence(false) };
    assert_eq!(controller.update(600, Some(2u32), moved), None);
    assert_eq!(controller.state(), CaptureState::Stabilizing { started_at_ms: 600, anchor: 2 });
    let poor = CaptureEvidence { quality_accepted: false, ..evidence(false) };
    assert_eq!(controller.update(1_300, Some(2u32), poor), None);
    assert_eq!(controller.update(1_300, Some(2u32), evidence(false)), Some(CaptureEvent::Capture(2)));
}

#[test]
fn losing_the_document_returns_to_searching() {
    let mut controller = AutoCaptureController::new(STABLE_FOR_MS);
    controller.update(0, Some(1u32), evidence(false));
    assert_eq!(controller.update(10, None, evidence(false)), None);
    assert_eq!(controller.state(), CaptureState::Searching);
}

#[test]
fn disappearance_alone_does_not_rearm_but_displacement_does() {
    let mut controller = AutoCaptureController::new(STABLE_FOR_MS);
    controller.update(0, Some(1u32), evidence(false));
    controller.update(700, Some(1u32), evidence(false));
    assert_eq!(controller.update(800, None, evidence(false)), None);
    assert_eq!(controller.state(), CaptureState::AwaitingPageChange { captured: 1 });
    let displaced = CaptureEvidence { moved_beyond_rearm_shift: true, ..evidence(false) };
    controller.update(900, Some(5u32), displaced);
    assert_eq!(controller.state(), CaptureState::Stabilizing { started_at_ms: 900, anchor: 5 });
    controller.update(950, None, evidence(true));
    assert_eq!(controller.state(), CaptureState::Searching);
}

#[test]
fn reset_forgets_progress() {
    let mut controller = AutoCaptureController::new(STABLE_FOR_MS);
    controller.update(0, Some(1u32), evidence(false));
    controller.reset();
    assert_eq!(controller.state(), CaptureState::<u32>::Searching);
    assert_eq!(controller.stable_for_ms(), STABLE_FOR_MS);
}

#[test]
fn detection_sources_compare_by_variant() {
    assert_eq!(DetectionSource::Fused, DetectionSource::Fused);
    assert_ne!(DetectionSource::Contour, DetectionSource::Hough);
}

#[test]
fn no_rearming_evidence_means_no_second_capture() {
    let mut controller = AutoCaptureController::new(STABLE_FOR_MS);
    controller.update(0, Some(3u32), evidence(false));
    assert_eq!(controller.update(700, Some(3u32), evidence(false)), Some(CaptureEvent::Capture(3)));
    let still = CaptureEvidence { moved_beyond_stable_shift: true, ..evidence(false) };
    for step in 1..50u64 {
        let detection = if step % 3 == 0 { None } else { Some(3u32) };
        let observed = if step % 2 == 0 { still } else { evidence(false) };
        assert_eq!(controller.update(700 + step * 100, detection, observed), None);
        assert_eq!(controller.state(), CaptureState::AwaitingPageChange { captured: 3 });
    }
}
