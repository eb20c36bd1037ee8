//! The auto-capture state machine: stabilize on a document, capture it once,
//! then wait for page-change evidence before arming again.
//!
//! Corner distances, page-change scores and quality scores are measured by the
//! caller; this controller receives their verdicts as a `CaptureEvidence` and
//! makes every decision from them.

use vstd::prelude::*;

verus! {

/// Verdicts on one preview observation, judged against the controller's
/// current state.
#[derive(Debug, Clone, Copy, PartialEq, Eq)]
pub struct CaptureEvidence {
    /// The page-change score, clamped to `0..=1`, reached the configured minimum.
    pub scene_changed: bool,
    /// While stabilizing: the detection moved further from the anchor than the
    /// largest shift still counted as stable.
    pub moved_beyond_stable_shift: bool,
    /// While awaiting a page change: the detection moved further from the
    /// captured document than the re-arm shift.
    pub moved_beyond_rearm_shift: bool,
    /// The capture-quality gate accepts the observation.
    pub quality_accepted: bool,
}

#[derive(Debug, Clone, Copy, PartialEq)]
pub enum CaptureState<D> {
    Searching,
    Stabilizing { started_at_ms: u64, anchor: D },
    AwaitingPageChange { captured: D },
}

#[derive(Debug, Clone, Copy, PartialEq)]
pub enum CaptureEvent<D> {
    Capture(D),
}

/// Evidence that re-arms capture after a document was captured: a scene
/// change, or a detection that moved beyond the re-arm shift.
pub open spec fn rearms<D>(detection: Option<D>, evidence: CaptureEvidence) -> bool {
    evidence.scene_changed || (detection is Some && evidence.moved_beyond_rearm_shift)
}

/// The state after one observation, and the event it raises.
pub open spec fn capture_step<D>(
    state: CaptureState<D>,
    stable_for_ms: u64,
    now_ms: u64,
    detection: Option<D>,
    evidence: CaptureEvidence,
) -> (CaptureState<D>, Option<CaptureEvent<D>>) {
    match state {
        CaptureState::Searching => match detection {
            Some(d) => (CaptureState::Stabilizing { started_at_ms: now_ms, anchor: d }, None),
            None => (CaptureState::Searching, None),
        },
        CaptureState::Stabilizing { started_at_ms, anchor } => match detection {
            None => (CaptureState::Searching, None),
            Some(d) => if evidence.moved_beyond_stable_shift || evidence.scene_changed {
                (CaptureState::Stabilizing { started_at_ms: now_ms, anchor: d }, None)
            } else if now_ms.saturating_sub(started_at_ms) >= stable_for_ms
                && evidence.quality_accepted {
                (CaptureState::AwaitingPageChange { captured: d }, Some(CaptureEvent::Capture(d)))
            } else {
                (state, None)
            },
        },
        CaptureState::AwaitingPageChange { captured } => if rearms(detection, evidence) {
            match detection {
                Some(d) => (CaptureState::Stabilizing { started_at_ms: now_ms, anchor: d }, None),
                None => (CaptureState::Searching, None),
            }
        } else {
            (state, None)
        },
    }
}

/// One preview observation: its time, the detection if any, and the verdicts on it.
pub struct Observation<D> {
    pub now_ms: u64,
    pub detection: Option<D>,
    pub evidence: CaptureEvidence,
}

/// The state after a sequence of observations, and how many captures they raised.
pub open spec fn capture_run<D>(
    state: CaptureState<D>,
    stable_for_ms: u64,
    observations: Seq<Observation<D>>,
) -> (CaptureState<D>, nat)
    decreases observations.len(),
{
    if observations.len() == 0 {
        (state, 0)
    } else {
        let o = observations[0];
        let (next, event) = capture_step(state, stable_for_ms, o.now_ms, o.detection, o.evidence);
        let (last, count) = capture_run(next, stable_for_ms, observations.drop_first());
        (last, count + if event is Some { 1nat } else { 0nat })
    }
}

/// Auto-capture controller over detections of type `D`.
pub struct AutoCaptureController<D> {
    stable_for_ms: u64,
    state: CaptureState<D>,
}

impl<D: Copy> AutoCaptureController<D> {
    pub closed spec fn dwell_ms(&self) -> u64 {
        self.stable_for_ms
    }

    pub closed spec fn current(&self) -> CaptureState<D> {
        self.state
    }

    /// A controller that captures a document once it has stayed stable for
    /// `stable_for_ms` milliseconds.
    pub fn new(stable_for_ms: u64) -> (controller: Self)
        ensures
            controller.dwell_ms() == stable_for_ms,
            controller.current() == CaptureState::<D>::Searching,
    {
        AutoCaptureController { stable_for_ms, state: CaptureState::Searching }
    }

    pub fn stable_for_ms(&self) -> (ms: u64)
        ensures
            ms == self.dwell_ms(),
    {
        self.stable_for_ms
    }

    pub fn state(&self) -> (state: CaptureState<D>)
        ensures
            state == self.current(),
    {
        self.state
    }

    pub fn reset(&mut self)
        ensures
            final(self).current() == CaptureState::<D>::Searching,
            final(self).dwell_ms() == old(self).dwell_ms(),
    {
        self.state = CaptureState::Searching;
    }

    /// Consume one preview observation.
    pub fn update(&mut self, now_ms: u64, detection: Option<D>, evidence: CaptureEvidence) -> (event:
        Option<CaptureEvent<D>>)
        ensures
            (final(self).current(), event) == capture_step(
                old(self).current(),
                old(self).dwell_ms(),
                now_ms,
                detection,
                evidence,
            ),
            final(self).dwell_ms() == old(self).dwell_ms(),
    {
        match self.state {
            CaptureState::Searching => {
                if let Some(d) = detection {
                    self.state = CaptureState::Stabilizing { started_at_ms: now_ms, anchor: d };
                }
                None
            },
            CaptureState::Stabilizing { started_at_ms, anchor } => {
                let d = match detection {
                    Some(d) => d,
                    None => {
                        self.state = CaptureState::Searching;
                        return None;
                    },
                };
                if evidence.moved_beyond_stable_shift || evidence.scene_changed {
                    self.state = CaptureState::Stabilizing { started_at_ms: now_ms, anchor: d };
                    return None;
                }
                let stable_long_enough = now_ms.saturating_sub(started_at_ms) >= self.stable_for_ms;
                if stable_long_enough && evidence.quality_accepted {
                    self.state = CaptureState::AwaitingPageChange { captured: d };
                    Some(CaptureEvent::Capture(d))
                } else {
                    None
                }
            },
            CaptureState::AwaitingPageChange { captured } => {
                let moved_to_new_document = match detection {
                    Some(_) => evidence.moved_beyond_rearm_shift,
                    None => false,
                };
                if evidence.scene_changed || moved_to_new_document {
                    self.state = match detection {
                        Some(d) => CaptureState::Stabilizing { started_at_ms: now_ms, anchor: d },
                        None => CaptureState::Searching,
                    };
                }
                None
            },
        }
    }
}

/// Law: a captured document is captured only once. After a capture the
/// controller waits for a page change; observations that bring no re-arming
/// evidence leave it waiting and raise no capture, however long they last.
pub proof fn lemma_captured_only_once<D>(
    captured: D,
    stable_for_ms: u64,
    observations: Seq<Observation<D>>,
)
    requires
        forall|i: int|
            0 <= i < observations.len() ==> !rearms(
                #[trigger] observations[i].detection,
                observations[i].evidence,
            ),
    ensures
        capture_run(CaptureState::AwaitingPageChange { captured }, stable_for_ms, observations) == (
        CaptureState::AwaitingPageChange { captured }, 0nat),
    decreases observations.len(),
{
    if observations.len() > 0 {
        let rest = observations.drop_first();
        assert forall|i: int| 0 <= i < rest.len() implies !rearms(
            #[trigger] rest[i].detection,
            rest[i].evidence,
        ) by {
            assert(rest[i] == observations[i + 1]);
        }
        assert(!rearms(observations[0].detection, observations[0].evidence));
        lemma_captured_only_once(captured, stable_for_ms, rest);
    }
}

/// Law: page-change evidence re-arms capture even when the new page occupies
/// the same geometry as the captured one: the controller starts stabilizing
/// on the new detection, or searches when there is none.
pub proof fn lemma_scene_change_rearms<D>(
    captured: D,
    stable_for_ms: u64,
    now_ms: u64,
    detection: Option<D>,
    evidence: CaptureEvidence,
)
    requires
        evidence.scene_changed,
    ensures
        capture_step(
            CaptureState::AwaitingPageChange { captured },
            stable_for_ms,
            now_ms,
            detection,
            evidence,
        ) == (match detection {
            Some(d) => (CaptureState::Stabilizing { started_at_ms: now_ms, anchor: d }, None),
            None => (CaptureState::<D>::Searching, None::<CaptureEvent<D>>),
        }),
{
}

/// Law: a capture happens only for a present detection that has stayed
/// stable, without page change, for the full dwell time and passes the
/// quality gate; the controller then waits for a page change on it.
pub proof fn lemma_capture_requires_stable_dwell<D>(
    state: CaptureState<D>,
    stable_for_ms: u64,
    now_ms: u64,
    detection: Option<D>,
    evidence: CaptureEvidence,
)
    requires
        capture_step(state, stable_for_ms, now_ms, detection, evidence).1 is Some,
    ensures
        state matches CaptureState::Stabilizing { started_at_ms, anchor } && now_ms.saturating_sub(
            started_at_ms,
        ) >= stable_for_ms,
        detection matches Some(d) && capture_step(state, stable_for_ms, now_ms, detection, evidence)
            == (CaptureState::AwaitingPageChange { captured: d }, Some(CaptureEvent::Capture(d))),
        !evidence.scene_changed,
        !evidence.moved_beyond_stable_shift,
        evidence.quality_accepted,
{
}

/// Law: movement or a scene change while stabilizing restarts the dwell on
/// the new detection, and losing the detection returns to searching.
pub proof fn lemma_instability_restarts_dwell<D>(
    started_at_ms: u64,
    anchor: D,
    stable_for_ms: u64,
    now_ms: u64,
    detection: Option<D>,
    evidence: CaptureEvidence,
)
    requires
        detection is None || evidence.moved_beyond_stable_shift || evidence.scene_changed,
    ensures
        capture_step(
            CaptureState::Stabilizing { started_at_ms, anchor },
            stable_for_ms,
            now_ms,
            detection,
            evidence,
        ) == (match detection {
            Some(d) => (CaptureState::Stabilizing { started_at_ms: now_ms, anchor: d }, None),
            None => (CaptureState::<D>::Searching, None::<CaptureEvent<D>>),
        }),
{
}

/// Law: while stabilizing, a present detection that neither moved beyond the
/// stable shift nor changed the scene, and raises no capture, changes
/// nothing: the dwell keeps its start and anchor. In particular a frame the
/// quality gate rejects only blocks capture on that frame; it does not
/// restart the dwell.
pub proof fn lemma_steady_observation_keeps_dwell<D>(
    started_at_ms: u64,
    anchor: D,
    stable_for_ms: u64,
    now_ms: u64,
    detected: D,
    evidence: CaptureEvidence,
)
    requires
        !evidence.moved_beyond_stable_shift,
        !evidence.scene_changed,
        !(now_ms.saturating_sub(started_at_ms) >= stable_for_ms && evidence.quality_accepted),
    ensures
        capture_step(
            CaptureState::Stabilizing { started_at_ms, anchor },
            stable_for_ms,
            now_ms,
            Some(detected),
            evidence,
        ) == (CaptureState::Stabilizing { started_at_ms, anchor }, None::<CaptureEvent<D>>),
{
}

/// Law: while stabilizing, a steady detection that passes the quality gate
/// once the dwell has elapsed since the dwell started is captured, whatever
/// rejected frames came in between.
pub proof fn lemma_steady_dwell_captures<D>(
    started_at_ms: u64,
    anchor: D,
    stable_for_ms: u64,
    now_ms: u64,
    detected: D,
    evidence: CaptureEvidence,
)
    requires
        !evidence.moved_beyond_stable_shift,
        !evidence.scene_changed,
        evidence.quality_accepted,
        now_ms >= started_at_ms + stable_for_ms,
    ensures
        capture_step(
            CaptureState::Stabilizing { started_at_ms, anchor },
            stable_for_ms,
            now_ms,
            Some(detected),
            evidence,
        ) == (CaptureState::AwaitingPageChange { captured: detected }, Some(CaptureEvent::Capture(detected))),
{
}

/// Law: over a run of steady observations of a present detection, rejected
/// frames never move the start of the dwell: until a capture, the controller
/// stays stabilizing on the same start and anchor.
pub proof fn lemma_rejected_frames_keep_dwell<D>(
    started_at_ms: u64,
    anchor: D,
    stable_for_ms: u64,
    observations: Seq<Observation<D>>,
)
    requires
        forall|i: int|
            0 <= i < observations.len() ==> {
                let o = #[trigger] observations[i];
                &&& o.detection is Some
                &&& !o.evidence.moved_beyond_stable_shift
                &&& !o.evidence.scene_changed
                &&& !o.evidence.quality_accepted
            },
    ensures
        capture_run(CaptureState::Stabilizing { started_at_ms, anchor }, stable_for_ms, observations) == (
        CaptureState::Stabilizing { started_at_ms, anchor }, 0nat),
    decreases observations.len(),
{
    if observations.len() > 0 {
        let rest = observations.drop_first();
        assert forall|i: int| 0 <= i < rest.len() implies {
            let o = #[trigger] rest[i];
            &&& o.detection is Some
            &&& !o.evidence.moved_beyond_stable_shift
            &&& !o.evidence.scene_changed
            &&& !o.evidence.quality_accepted
        } by {
            assert(rest[i] == observations[i + 1]);
        }
        let o = observations[0];
        assert(o.detection is Some);
        lemma_rejected_frames_keep_dwell(started_at_ms, anchor, stable_for_ms, rest);
    }
}

} // verus!
