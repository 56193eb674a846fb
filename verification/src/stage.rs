//! Which controller events complete a motion stage.
//!
//! A stage is submitted, then the controller's events are read until one of
//! them decides it. The geometry of each report (whether a position is
//! finite, lies on the commanded segment, has reached the end, or agrees with
//! the probe's trigger point) is judged by the caller and handed in as
//! booleans; what those facts decide is stated here.
use crate::probe::{FailureKind, StageKind};
use vstd::prelude::*;

verus! {

/// What the events of a stage have shown so far.
#[derive(Debug, Clone, Copy, PartialEq, Eq, Structural)]
pub struct StageProgress {
    /// A status report has shown the machine moving.
    pub moving: bool,
    /// A probe report without contact arrived while moving.
    pub failed: bool,
    /// A probe report with contact arrived while moving.
    pub hit: bool,
    /// A positioning move reported ready away from its end point.
    pub inconsistent_ready: bool,
}

/// A status report, judged against the stage.
#[derive(Debug, Clone, Copy, PartialEq, Eq, Structural)]
pub struct StatusReport {
    /// The machine reports ready (idle).
    pub ready: bool,
    /// The position is finite and the work coordinate system unchanged.
    pub valid: bool,
    /// The position lies on the commanded segment.
    pub on_segment: bool,
    /// The position is within 0.05 mm of the stage's end point.
    pub at_end: bool,
    /// The position agrees with the contact held for the stage: within
    /// 0.05 mm across the move, and from 0.05 mm short to 0.10 mm past the
    /// trigger point along it.
    pub stop_consistent: bool,
}

/// A probe report, judged against the stage.
#[derive(Debug, Clone, Copy, PartialEq, Eq, Structural)]
pub struct ContactReport {
    /// The probe touched.
    pub success: bool,
    /// The contact position lies on the commanded segment.
    pub on_segment: bool,
}

/// One controller event: a status report, a probe report, both or neither
/// (an acknowledgment).
#[derive(Debug, Clone, Copy, PartialEq, Eq, Structural)]
pub struct StageObservation {
    pub status: Option<StatusReport>,
    pub probe: Option<ContactReport>,
}

/// Why an event ended a stage in failure.
#[derive(Debug, Clone, Copy, PartialEq, Eq, Structural)]
pub enum StageFailure {
    /// A status report with a non-finite position or another coordinate
    /// system.
    InvalidReport,
    /// A contact off the commanded segment.
    ContactOffSegment,
    /// A stop off the commanded segment.
    StopOffSegment,
    /// A guarded move touched something.
    UnexpectedContact,
    /// A guarded move stopped without its no-contact report or short of its
    /// end.
    GuardedStoppedShort,
    /// A search allowed to miss stopped short of its end.
    CoarseStoppedShort,
    /// A search allowed to miss ran its full travel without contact.
    CoarseNoContact,
    /// A probe stopped without contact.
    NoContact,
    /// The stop does not agree with the trigger point.
    StopInconsistent,
}

/// What an event decides of the stage.
#[derive(Debug, Clone, Copy, PartialEq, Eq, Structural)]
pub enum StageOutcome {
    /// Read the next event.
    Wait,
    /// The stage ended at the reported position, without contact.
    Reached,
    /// The stage ended in contact; `at_stop` when the contact is taken at
    /// the reported stop rather than where the probe triggered.
    Touched { at_stop: bool },
    Failed(StageFailure),
}

/// Stages that the probe input can end: the searches and the guarded move.
pub open spec fn probing_stage(kind: StageKind) -> bool {
    kind == StageKind::CoarseProbe || kind == StageKind::FineProbe || kind
        == StageKind::GuardedMove
}

/// The progress before any event.
pub open spec fn no_progress() -> StageProgress {
    StageProgress { moving: false, failed: false, hit: false, inconsistent_ready: false }
}

/// What the status report of an event shows: the machine moving once a
/// report is not ready.
pub open spec fn observe_status(p: StageProgress, e: StageObservation) -> StageProgress {
    match e.status {
        Some(st) => if !st.ready {
            StageProgress { moving: true, ..p }
        } else {
            p
        },
        None => p,
    }
}

/// A probe report counts only in a probing stage once the machine has been
/// seen moving; a contact off the segment fails a stage that may not miss.
pub open spec fn observe_probe(kind: StageKind, no_error: bool, p: StageProgress, e: StageObservation) -> Result<
    StageProgress,
    StageFailure,
> {
    match e.probe {
        Some(c) => if probing_stage(kind) && p.moving {
            if c.success {
                if !no_error && !c.on_segment {
                    Err(StageFailure::ContactOffSegment)
                } else {
                    Ok(StageProgress { hit: true, ..p })
                }
            } else {
                Ok(StageProgress { failed: true, ..p })
            }
        } else {
            Ok(p)
        },
        None => Ok(p),
    }
}

/// What a ready status decides of a probing stage that has been seen
/// moving.
pub open spec fn settle_probe(kind: StageKind, no_error: bool, p: StageProgress, st: StatusReport) -> StageOutcome {
    if kind == StageKind::GuardedMove {
        if !st.on_segment {
            StageOutcome::Failed(StageFailure::StopOffSegment)
        } else if p.hit {
            StageOutcome::Failed(StageFailure::UnexpectedContact)
        } else if !p.failed || !st.at_end {
            StageOutcome::Failed(StageFailure::GuardedStoppedShort)
        } else {
            StageOutcome::Reached
        }
    } else if p.failed || !p.hit {
        if !st.on_segment {
            StageOutcome::Failed(StageFailure::StopOffSegment)
        } else if no_error && !st.at_end {
            StageOutcome::Failed(StageFailure::CoarseStoppedShort)
        } else if no_error {
            StageOutcome::Failed(StageFailure::CoarseNoContact)
        } else {
            StageOutcome::Failed(StageFailure::NoContact)
        }
    } else if no_error {
        if !st.on_segment {
            StageOutcome::Failed(StageFailure::StopOffSegment)
        } else {
            StageOutcome::Touched { at_stop: true }
        }
    } else if !st.stop_consistent {
        StageOutcome::Failed(StageFailure::StopInconsistent)
    } else {
        StageOutcome::Touched { at_stop: false }
    }
}

/// The effect of one event on a stage of kind `kind` (`no_error` for a
/// search that may end without contact): an invalid status fails it; the
/// status and probe reports update the progress; then a ready status ends a
/// positioning move at its end point (elsewhere it is noted and waited
/// past), and ends a probing stage only once the machine has been seen
/// moving.
pub open spec fn stage_step_spec(
    kind: StageKind,
    no_error: bool,
    p: StageProgress,
    e: StageObservation,
) -> (StageProgress, StageOutcome) {
    if e.status matches Some(st) && !st.valid {
        (p, StageOutcome::Failed(StageFailure::InvalidReport))
    } else {
        let p1 = observe_status(p, e);
        match observe_probe(kind, no_error, p1, e) {
            Err(f) => (p1, StageOutcome::Failed(f)),
            Ok(p2) => match e.status {
                None => (p2, StageOutcome::Wait),
                Some(st) => if !st.ready {
                    (p2, StageOutcome::Wait)
                } else if !probing_stage(kind) {
                    if st.at_end {
                        (p2, StageOutcome::Reached)
                    } else {
                        (StageProgress { inconsistent_ready: true, ..p2 }, StageOutcome::Wait)
                    }
                } else if !p2.moving {
                    (p2, StageOutcome::Wait)
                } else {
                    (p2, settle_probe(kind, no_error, p2, st))
                },
            },
        }
    }
}

fn is_probing(kind: StageKind) -> (r: bool)
    ensures
        r == probing_stage(kind),
{
    match kind {
        StageKind::CoarseProbe | StageKind::FineProbe | StageKind::GuardedMove => true,
        _ => false,
    }
}

/// The progress before any event.
pub fn stage_start() -> (p: StageProgress)
    ensures
        p == no_progress(),
{
    StageProgress { moving: false, failed: false, hit: false, inconsistent_ready: false }
}

/// Reads one event of a stage.
pub fn stage_step(kind: StageKind, no_error: bool, p: StageProgress, e: StageObservation) -> (r: (
    StageProgress,
    StageOutcome,
))
    ensures
        r == stage_step_spec(kind, no_error, p, e),
{
    let probing = is_probing(kind);
    if let Some(st) = e.status {
        if !st.valid {
            return (p, StageOutcome::Failed(StageFailure::InvalidReport));
        }
    }
    let mut q = p;
    if let Some(st) = e.status {
        if !st.ready {
            q.moving = true;
        }
    }
    if let Some(c) = e.probe {
        if probing && q.moving {
            if c.success {
                if !no_error && !c.on_segment {
                    return (q, StageOutcome::Failed(StageFailure::ContactOffSegment));
                }
                q.hit = true;
            } else {
                q.failed = true;
            }
        }
    }
    let st = match e.status {
        None => return (q, StageOutcome::Wait),
        Some(st) => st,
    };
    if !st.ready {
        return (q, StageOutcome::Wait);
    }
    if !probing {
        if st.at_end {
            return (q, StageOutcome::Reached);
        }
        q.inconsistent_ready = true;
        return (q, StageOutcome::Wait);
    }
    if !q.moving {
        return (q, StageOutcome::Wait);
    }
    let outcome = if kind == StageKind::GuardedMove {
        if !st.on_segment {
            StageOutcome::Failed(StageFailure::StopOffSegment)
        } else if q.hit {
            StageOutcome::Failed(StageFailure::UnexpectedContact)
        } else if !q.failed || !st.at_end {
            StageOutcome::Failed(StageFailure::GuardedStoppedShort)
        } else {
            StageOutcome::Reached
        }
    } else if q.failed || !q.hit {
        if !st.on_segment {
            StageOutcome::Failed(StageFailure::StopOffSegment)
        } else if no_error && !st.at_end {
            StageOutcome::Failed(StageFailure::CoarseStoppedShort)
        } else if no_error {
            StageOutcome::Failed(StageFailure::CoarseNoContact)
        } else {
            StageOutcome::Failed(StageFailure::NoContact)
        }
    } else if no_error {
        if !st.on_segment {
            StageOutcome::Failed(StageFailure::StopOffSegment)
        } else {
            StageOutcome::Touched { at_stop: true }
        }
    } else if !st.stop_consistent {
        StageOutcome::Failed(StageFailure::StopInconsistent)
    } else {
        StageOutcome::Touched { at_stop: false }
    };
    (q, outcome)
}

/// How a stage that no event decided before its deadline fails: a
/// positioning move that reported ready away from its end point did not
/// reach it; otherwise the stage timed out.
pub fn stage_timeout(p: StageProgress) -> (r: FailureKind)
    ensures
        r == (if p.inconsistent_ready {
            FailureKind::Position
        } else {
            FailureKind::Timeout
        }),
{
    if p.inconsistent_ready {
        FailureKind::Position
    } else {
        FailureKind::Timeout
    }
}

/// How a failure of an event ends the routine: a search allowed to miss
/// that ran out of travel fails as a coarse miss, a touch during a guarded
/// move as an unexpected contact (not backed off), a probe that stopped
/// without contact as no contact, and every other failure as a position
/// error.
pub fn stage_failure_kind(f: StageFailure) -> (r: FailureKind)
    ensures
        r == match f {
            StageFailure::CoarseNoContact => FailureKind::CoarseNoContact,
            StageFailure::NoContact => FailureKind::NoContact,
            StageFailure::UnexpectedContact => FailureKind::UnexpectedContact { retracted: false },
            _ => FailureKind::Position,
        },
{
    match f {
        StageFailure::CoarseNoContact => FailureKind::CoarseNoContact,
        StageFailure::NoContact => FailureKind::NoContact,
        StageFailure::UnexpectedContact => FailureKind::UnexpectedContact { retracted: false },
        _ => FailureKind::Position,
    }
}

/// Until a status report has shown the machine moving, no event completes a
/// probing stage: acknowledgments, probe reports (with or without contact)
/// and ready statuses leave its progress as it was and are waited past; only
/// an invalid status report fails it.
pub proof fn lemma_no_completion_before_motion(
    kind: StageKind,
    no_error: bool,
    p: StageProgress,
    e: StageObservation,
)
    requires
        probing_stage(kind),
        !p.moving,
        !(e.status matches Some(st) && !st.ready),
    ensures
        ({
            let (q, outcome) = stage_step_spec(kind, no_error, p, e);
            &&& q == p
            &&& (outcome == StageOutcome::Wait || outcome == StageOutcome::Failed(
                StageFailure::InvalidReport,
            ))
        }),
{
}

/// A stage, once seen moving, stays seen moving; contacts and misses, once
/// seen, stay seen.
pub proof fn lemma_progress_only_grows(
    kind: StageKind,
    no_error: bool,
    p: StageProgress,
    e: StageObservation,
)
    ensures
        ({
            let q = stage_step_spec(kind, no_error, p, e).0;
            &&& p.moving ==> q.moving
            &&& p.hit ==> q.hit
            &&& p.failed ==> q.failed
            &&& p.inconsistent_ready ==> q.inconsistent_ready
        }),
{
}

/// A probing stage ends in contact only after a contact report arrived
/// while the machine was moving, with no report of a miss, and at a ready
/// status on the segment (a search allowed to miss) or consistent with the
/// trigger point (any other search); a guarded move never ends in contact.
pub proof fn lemma_touch_needs_contact(
    kind: StageKind,
    no_error: bool,
    p: StageProgress,
    e: StageObservation,
)
    ensures
        ({
            let (q, outcome) = stage_step_spec(kind, no_error, p, e);
            outcome is Touched ==> {
                &&& probing_stage(kind)
                &&& kind != StageKind::GuardedMove
                &&& q.moving && q.hit && !q.failed
                &&& (e.status matches Some(st) && st.ready && st.valid && (if no_error {
                    st.on_segment
                } else {
                    st.stop_consistent
                }))
            }
        }),
{
}

/// A search allowed to miss fails as a coarse miss only when it stopped on
/// its segment at its end point without a contact; a guarded move ends
/// without failure only after a no-contact report, at its end point.
pub proof fn lemma_misses_reach_the_end(
    kind: StageKind,
    no_error: bool,
    p: StageProgress,
    e: StageObservation,
)
    ensures
        ({
            let (q, outcome) = stage_step_spec(kind, no_error, p, e);
            &&& outcome == StageOutcome::Failed(StageFailure::CoarseNoContact) ==> (no_error
                && (e.status matches Some(st) && st.on_segment && st.at_end))
            &&& (kind == StageKind::GuardedMove && outcome == StageOutcome::Reached) ==> (q.failed
                && !q.hit && (e.status matches Some(st) && st.at_end && st.on_segment))
        }),
{
}

} // verus!
