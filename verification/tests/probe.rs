use pimprobe::probe::{
    error_code, restores_modes_after, returns_to_height, routine_settled, stop_needed, FailureKind,
    preflight, Axis, Modes, PreflightError, PreflightState, RepeatabilityOptions, StageKind,
    TimingPolicy,
};
use std::time::Duration;

#[test]
fn modes_render_and_validate() {
    let m = Modes::probing();
    assert_eq!((m.units, m.distance, m.feed), (21, 91, 94));
    assert_eq!(m.command(), "G21 G94 G91");
    assert!(m.valid());
    let inch = Modes { units: 20, distance: 90, feed: 93 };
    assert_eq!(inch.command(), "G20 G93 G90");
    assert!(inch.valid());
    assert!(!Modes::default().valid());
    assert!(!Modes { units: 21, distance: 92, feed: 94 }.valid());
}

#[test]
fn axes_have_indices_and_names() {
    assert_eq!(
        [Axis::X.index(), Axis::Y.index(), Axis::Z.index()],
        [0, 1, 2]
    );
    assert_eq!([Axis::X.name(), Axis::Y.name(), Axis::Z.name()], ["x", "y", "z"]);
    assert_eq!(Axis::Z.letter(), 'Z');
}

#[test]
fn stage_kinds_choose_their_g_code() {
    assert_eq!(StageKind::CoarseProbe.code(), "G38.3");
    assert_eq!(StageKind::GuardedMove.code(), "G38.3");
    assert_eq!(StageKind::FineProbe.code(), "G38.2");
    assert_eq!(StageKind::PositionMove.code(), "G1");
    assert!(StageKind::CoarseProbe.no_error() && !StageKind::FineProbe.no_error());
}

#[test]
fn timing_policy_allows_five_seconds_of_margin() {
    assert_eq!(TimingPolicy::default().response_margin, Duration::from_secs(5));
}

#[test]
fn repeatability_rejects_empty_axes_and_out_of_range_repetitions() {
    let standard = RepeatabilityOptions::default();
    assert_eq!(standard.axes, [true, true, true]);
    assert_eq!(standard.repetitions, 5);
    assert!(standard.validate().is_ok());
    let mut none = RepeatabilityOptions::default();
    none.axes = [false; 3];
    assert_eq!(
        none.validate().unwrap_err().message,
        "select at least one axis and 1..100 repetitions"
    );
    for repetitions in [0, 101] {
        let mut o = RepeatabilityOptions::default();
        o.repetitions = repetitions;
        assert!(o.validate().is_err());
    }
    let mut edge = RepeatabilityOptions::default();
    edge.axes = [false, false, true];
    edge.repetitions = 100;
    assert!(edge.validate().is_ok());
}

fn ready() -> PreflightState {
    PreflightState {
        motion_blocked: false,
        connected: true,
        ready: true,
        spindle_stopped: true,
        probe_extended: true,
        probe_triggered: false,
        probe_offset_known: true,
        travel_limits_known: true,
        position_finite: true,
    }
}

#[test]
fn preflight_errors_explain_what_needs_attention() {
    let base = ready();
    assert_eq!(preflight(&base), Ok(()));
    let cases: Vec<(PreflightState, &str)> = vec![
        (PreflightState { connected: false, ..base }, "Controller is disconnected"),
        (PreflightState { ready: false, ..base }, "Machine is not ready"),
        (
            PreflightState { spindle_stopped: false, ..base },
            "Stop the spindle before probing",
        ),
        (
            PreflightState { probe_triggered: true, ..base },
            "The probe is already touching something",
        ),
    ];
    for (state, expected) in cases {
        let Err(PreflightError::Refused(error)) = preflight(&state) else {
            panic!("expected a refusal");
        };
        assert!(error.contains(expected), "{error}");
    }
}

#[test]
fn preflight_reports_a_motion_block_first_and_then_the_first_unmet_condition() {
    let blocked = PreflightState { motion_blocked: true, connected: false, ..ready() };
    assert_eq!(preflight(&blocked), Err(PreflightError::MotionBlocked));
    let several = PreflightState { ready: false, probe_extended: false, ..ready() };
    assert_eq!(preflight(&several), Err(PreflightError::Refused("Machine is not ready")));
    for (state, expected) in [
        (PreflightState { probe_extended: false, ..ready() }, "probe not extended"),
        (PreflightState { probe_offset_known: false, ..ready() }, "unknown probe offset"),
        (PreflightState { travel_limits_known: false, ..ready() }, "unknown travel limits"),
        (PreflightState { position_finite: false, ..ready() }, "invalid position"),
    ] {
        assert_eq!(preflight(&state), Err(PreflightError::Refused(expected)));
    }
}

#[test]
fn homing_retracts_before_every_repetition() {
    let mut o = RepeatabilityOptions::default();
    assert!(!o.retracts_before(0, true));
    assert!(o.retracts_before(1, true));
    assert!(!o.retracts_before(1, false));
    o.retract = false;
    assert!(!o.retracts_before(3, true));
    o.home = true;
    assert!(o.retracts_before(0, true) && o.retracts_before(3, true));
}

#[test]
fn failures_that_may_leave_motion_running_are_stopped() {
    for kind in [
        FailureKind::Preflight,
        FailureKind::InvalidConfig,
        FailureKind::MotionBlocked,
        FailureKind::CoarseNoContact,
        FailureKind::Obstructed,
        FailureKind::UnexpectedContact { retracted: true },
    ] {
        assert!(!stop_needed(kind, false), "{kind:?}");
    }
    for kind in [
        FailureKind::Cancelled,
        FailureKind::Timeout,
        FailureKind::NoContact,
        FailureKind::Compensation,
        FailureKind::UnexpectedContact { retracted: false },
        FailureKind::Recovery,
    ] {
        assert!(stop_needed(kind, false), "{kind:?}");
        assert!(!stop_needed(kind, true), "{kind:?}");
    }
}

#[test]
fn failures_are_reported_by_code_and_settle_routines_when_final() {
    assert_eq!(error_code(FailureKind::MotionBlocked), "controller_alarm");
    assert_eq!(error_code(FailureKind::NoContact), "no_contact");
    assert_eq!(error_code(FailureKind::CoarseNoContact), "no_contact");
    assert_eq!(error_code(FailureKind::Obstructed), "unexpected_contact");
    assert_eq!(
        error_code(FailureKind::UnexpectedContact { retracted: false }),
        "unexpected_contact"
    );
    assert_eq!(error_code(FailureKind::Timeout), "failed");
    assert!(routine_settled(FailureKind::CoarseNoContact));
    assert!(routine_settled(FailureKind::Compensation));
    assert!(routine_settled(FailureKind::UnexpectedContact { retracted: true }));
    assert!(!routine_settled(FailureKind::UnexpectedContact { retracted: false }));
    assert!(!routine_settled(FailureKind::Timeout));
}

#[test]
fn failed_routines_return_and_restore_only_when_settled() {
    assert!(returns_to_height(FailureKind::CoarseNoContact, true));
    assert!(!returns_to_height(FailureKind::CoarseNoContact, false));
    assert!(!returns_to_height(FailureKind::NoContact, true));
    assert!(restores_modes_after(FailureKind::CoarseNoContact, true, false));
    assert!(!restores_modes_after(FailureKind::CoarseNoContact, false, false));
    assert!(!restores_modes_after(FailureKind::Compensation, true, true));
    assert!(restores_modes_after(FailureKind::UnexpectedContact { retracted: true }, true, false));
    assert!(!restores_modes_after(FailureKind::UnexpectedContact { retracted: false }, true, false));
    assert!(!restores_modes_after(FailureKind::Timeout, true, false));
}
