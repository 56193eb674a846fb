use pimprobe::probe::{FailureKind, StageKind};
use pimprobe::stage::{
    stage_failure_kind, stage_start, stage_step, stage_timeout, ContactReport, StageFailure,
    StageObservation, StageOutcome, StatusReport,
};

fn status(ready: bool) -> StatusReport {
    StatusReport { ready, valid: true, on_segment: true, at_end: true, stop_consistent: true }
}

fn event(status: Option<StatusReport>, probe: Option<ContactReport>) -> StageObservation {
    StageObservation { status, probe }
}

const TOUCH: ContactReport = ContactReport { success: true, on_segment: true };
const MISS: ContactReport = ContactReport { success: false, on_segment: true };

#[test]
fn stale_reports_never_complete_a_probe() {
    let p = stage_start();
    for e in [
        event(None, None),
        event(None, Some(TOUCH)),
        event(Some(status(true)), None),
        event(Some(status(true)), Some(TOUCH)),
    ] {
        let (q, outcome) = stage_step(StageKind::FineProbe, false, p, e);
        assert_eq!(q, p);
        assert_eq!(outcome, StageOutcome::Wait);
    }
}

#[test]
fn a_probe_completes_after_motion_and_contact() {
    let (p, o) = stage_step(StageKind::FineProbe, false, stage_start(), event(Some(status(false)), None));
    assert!(p.moving);
    assert_eq!(o, StageOutcome::Wait);
    let (p, o) = stage_step(StageKind::FineProbe, false, p, event(None, Some(TOUCH)));
    assert!(p.hit);
    assert_eq!(o, StageOutcome::Wait);
    let (_, o) = stage_step(StageKind::FineProbe, false, p, event(Some(status(true)), None));
    assert_eq!(o, StageOutcome::Touched { at_stop: false });
    let inconsistent = StatusReport { stop_consistent: false, ..status(true) };
    let (_, o) = stage_step(StageKind::FineProbe, false, p, event(Some(inconsistent), None));
    assert_eq!(o, StageOutcome::Failed(StageFailure::StopInconsistent));
    let (_, o) = stage_step(StageKind::CoarseProbe, true, p, event(Some(status(true)), None));
    assert_eq!(o, StageOutcome::Touched { at_stop: true });
}

#[test]
fn searches_without_contact_fail() {
    let (p, _) = stage_step(StageKind::CoarseProbe, true, stage_start(), event(Some(status(false)), None));
    let (_, o) = stage_step(StageKind::CoarseProbe, true, p, event(Some(status(true)), None));
    assert_eq!(o, StageOutcome::Failed(StageFailure::CoarseNoContact));
    assert_eq!(stage_failure_kind(StageFailure::CoarseNoContact), FailureKind::CoarseNoContact);
    let short = StatusReport { at_end: false, ..status(true) };
    let (_, o) = stage_step(StageKind::CoarseProbe, true, p, event(Some(short), None));
    assert_eq!(o, StageOutcome::Failed(StageFailure::CoarseStoppedShort));
    let (_, o) = stage_step(StageKind::FineProbe, false, p, event(Some(status(true)), Some(MISS)));
    assert_eq!(o, StageOutcome::Failed(StageFailure::NoContact));
    let off = ContactReport { success: true, on_segment: false };
    let (_, o) = stage_step(StageKind::FineProbe, false, p, event(None, Some(off)));
    assert_eq!(o, StageOutcome::Failed(StageFailure::ContactOffSegment));
}

#[test]
fn guarded_moves_fail_on_a_touch() {
    let (p, _) = stage_step(StageKind::GuardedMove, false, stage_start(), event(Some(status(false)), None));
    let (_, o) = stage_step(StageKind::GuardedMove, false, p, event(Some(status(true)), Some(TOUCH)));
    assert_eq!(o, StageOutcome::Failed(StageFailure::UnexpectedContact));
    assert_eq!(
        stage_failure_kind(StageFailure::UnexpectedContact),
        FailureKind::UnexpectedContact { retracted: false }
    );
    let (_, o) = stage_step(StageKind::GuardedMove, false, p, event(Some(status(true)), Some(MISS)));
    assert_eq!(o, StageOutcome::Reached);
    let (_, o) = stage_step(StageKind::GuardedMove, false, p, event(Some(status(true)), None));
    assert_eq!(o, StageOutcome::Failed(StageFailure::GuardedStoppedShort));
}

#[test]
fn positioning_moves_end_at_their_end_point() {
    let (_, o) = stage_step(StageKind::PositionMove, false, stage_start(), event(Some(status(true)), None));
    assert_eq!(o, StageOutcome::Reached);
    let away = StatusReport { at_end: false, ..status(true) };
    let (p, o) = stage_step(StageKind::PositionMove, false, stage_start(), event(Some(away), None));
    assert_eq!(o, StageOutcome::Wait);
    assert!(p.inconsistent_ready);
    assert_eq!(stage_timeout(p), FailureKind::Position);
    assert_eq!(stage_timeout(stage_start()), FailureKind::Timeout);
    let invalid = StatusReport { valid: false, ..status(false) };
    let (_, o) = stage_step(StageKind::PositionMove, false, stage_start(), event(Some(invalid), None));
    assert_eq!(o, StageOutcome::Failed(StageFailure::InvalidReport));
}
