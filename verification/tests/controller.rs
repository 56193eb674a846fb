use pimprobe::controller::{
    command_line, is_homing, next_session, read_timeout_secs, readiness, valid_wcs,
    ActuatorContext, ActuatorError, ActuatorTracker,
};
use pimprobe::parser::{parse_line, MachineStatus, Record};

fn status(line: &str) -> MachineStatus {
    match parse_line(line).unwrap() {
        Some(Record::Status(s)) => s,
        other => panic!("expected status, got {other:?}"),
    }
}

const READY: &str = "<Ready|MPos:0,0,0,0|WPos:0,0,0,0|T:1|M:5|G:54|PM:0|Pn:>";

fn live() -> ActuatorContext {
    ActuatorContext { connected: true, status_fresh: true }
}

#[test]
fn commands_are_single_lines() {
    assert_eq!(command_line("G0 X1").as_deref(), Some("G0 X1\n"));
    assert_eq!(command_line("G0 X1\n").as_deref(), Some("G0 X1\n"));
    assert_eq!(command_line(""), None);
    assert_eq!(command_line("\n"), None);
    assert_eq!(command_line("G0 X1\n\n"), None);
    assert_eq!(command_line("G0\rX1"), None);
    assert_eq!(command_line("G0\0"), None);
}

#[test]
fn work_coordinate_systems_and_timeouts() {
    assert!(valid_wcs(54) && valid_wcs(59));
    assert!(!valid_wcs(53) && !valid_wcs(60));
    assert_eq!(read_timeout_secs(true), 600);
    assert_eq!(read_timeout_secs(false), 3);
    assert!(is_homing(&status("<Homing|MPos:0,0,0,0>")));
    assert!(!is_homing(&status(READY)));
    assert_eq!(next_session(0), Some(1));
    assert_eq!(next_session(u64::MAX), None);
}

#[test]
fn incomplete_status_cannot_supply_ready() {
    let r = readiness(&status(READY), false);
    assert!(r.ready && r.spindle_stopped && !r.motion_blocked && r.probe_trigger_known);
    assert!(!r.probe_extended && !r.probe_triggered);
    let partial = readiness(&status("<Ready|MPos:0,0,0,0|M:5>"), false);
    assert!(!partial.ready);
    let extended = status("<Ready|MPos:0,0,0,0|WPos:0,0,0,0|T:1|M:5|G:54|PM:1>");
    assert!(readiness(&extended, false).probe_extended);
    assert!(!readiness(&extended, true).probe_extended);
}

#[test]
fn actuator_requests_complete_through_motion() {
    let mut tracker = ActuatorTracker::idle();
    let retracted = status(READY);
    assert_eq!(
        tracker.request(live(), Some(&retracted), true),
        Ok(Some("M122"))
    );
    assert!(tracker.pending);
    // A second request waits for the first.
    assert_eq!(
        tracker.request(live(), Some(&retracted), true),
        Err(ActuatorError::Unavailable)
    );
    // The target state alone does not complete it.
    tracker.observe(true, 1);
    assert!(tracker.pending);
    tracker.observe(true, 2);
    assert!(tracker.pending && tracker.transition);
    tracker.observe(false, 1);
    assert!(tracker.pending);
    tracker.observe(true, 1);
    assert!(!tracker.pending && !tracker.transition);
}

#[test]
fn actuator_requests_need_a_live_ready_machine() {
    let mut tracker = ActuatorTracker::idle();
    let retracted = status(READY);
    assert_eq!(
        tracker.request(live(), None, true),
        Err(ActuatorError::StatusUnavailable)
    );
    assert_eq!(
        tracker.request(
            ActuatorContext { connected: true, status_fresh: false },
            Some(&retracted),
            true
        ),
        Err(ActuatorError::Unavailable)
    );
    assert_eq!(tracker.request(live(), Some(&retracted), false), Ok(None));
    let moving = status("<Ready|MPos:0,0,0,0|WPos:0,0,0,0|T:1|M:5|G:54|PM:3>");
    assert_eq!(
        tracker.request(live(), Some(&moving), true),
        Err(ActuatorError::Moving)
    );
    assert_eq!(tracker.request(live(), Some(&moving), false), Ok(Some("M121")));
    assert!(tracker.pending && tracker.transition && tracker.target == 0);
    tracker.abandon();
    assert!(!tracker.pending);
    let blocked = status("<Alarm:1|MPos:0,0,0,0|WPos:0,0,0,0|T:1|M:5|G:54|PM:0>");
    assert_eq!(
        tracker.request(live(), Some(&blocked), true),
        Err(ActuatorError::Unavailable)
    );
}
