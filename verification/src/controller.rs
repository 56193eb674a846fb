//! Decisions of the controller connection: which commands may be framed,
//! what a status report says about readiness, and when a probe actuator
//! request has completed.
use crate::parser::MachineStatus;
use crate::text::{
    chars_of, contains_char, same, string_of, strip_suffix, strip_suffix_exec,
};
use vstd::prelude::*;

verus! {

/// The command text without one trailing newline, if it is a single
/// nonempty command.
pub open spec fn one_command(c: Seq<char>) -> Option<Seq<char>> {
    let body = match strip_suffix(c, seq!['\n']) {
        Some(b) => b,
        None => c,
    };
    if body.len() == 0 || body.contains('\n') || body.contains('\r') || body.contains('\0') {
        None
    } else {
        Some(body)
    }
}

/// The line to submit for `command`: the command with exactly one
/// terminating newline; `None` for an empty command or several commands.
pub fn command_line(command: &str) -> (r: Option<String>)
    ensures
        match (r, one_command(command@)) {
            (Some(s), Some(b)) => s@ == b.push('\n'),
            (None, None) => true,
            _ => false,
        },
{
    let c = chars_of(command);
    let nl = vec!['\n'];
    assert(nl@ =~= seq!['\n']);
    let mut body = match strip_suffix_exec(&c, &nl) {
        Some(b) => b,
        None => c,
    };
    if body.len() == 0 || contains_char(&body, '\n') || contains_char(&body, '\r') || contains_char(
        &body,
        '\0',
    ) {
        return None;
    }
    body.push('\n');
    Some(string_of(&body))
}

/// Whether `wcs` selects one of the work coordinate systems G54..G59.
pub fn valid_wcs(wcs: i32) -> (r: bool)
    ensures
        r == (54 <= wcs <= 59),
{
    54 <= wcs && wcs <= 59
}

/// How long the connection waits for the next frame, in seconds: the
/// firmware is silent while homing.
pub fn read_timeout_secs(homing: bool) -> (r: u64)
    ensures
        r == if homing {
            600u64
        } else {
            3u64
        },
{
    if homing {
        600
    } else {
        3
    }
}

/// Whether a status report's mode is `Homing`.
pub fn is_homing(status: &MachineStatus) -> (r: bool)
    ensures
        r == (status.mode@ == "Homing"@),
{
    same(&chars_of(status.mode.as_str()), &chars_of("Homing"))
}

/// The identifier of the next connection session.
pub fn next_session(id: u64) -> (r: Option<u64>)
    ensures
        id < u64::MAX ==> r == Some((id + 1) as u64),
        id == u64::MAX ==> r is None,
{
    id.checked_add(1)
}

/// What a fresh status report says about the machine.
pub struct Readiness {
    /// A complete report in `Ready` mode.
    pub ready: bool,
    /// Spindle mode M5.
    pub spindle_stopped: bool,
    pub motion_blocked: bool,
    /// The actuator reports extended and no actuator request is pending.
    pub probe_extended: bool,
    pub probe_trigger_known: bool,
    pub probe_triggered: bool,
}

pub open spec fn is_ready(status: &MachineStatus) -> bool {
    status.complete && status.mode@ == "Ready"@
}

/// The readiness that a status report gives, with an actuator request
/// pending or not.
pub fn readiness(status: &MachineStatus, actuator_pending: bool) -> (r: Readiness)
    ensures
        r.ready == is_ready(status),
        r.spindle_stopped == (status.spindle_mode == 5),
        r.motion_blocked == status.motion_blocked,
        r.probe_extended == (status.probe_actuator_known && status.probe_actuator == 1
            && !actuator_pending),
        r.probe_trigger_known == status.probe_trigger_known,
        r.probe_triggered == status.probe_triggered,
{
    Readiness {
        ready: status.complete && same(&chars_of(status.mode.as_str()), &chars_of("Ready")),
        spindle_stopped: status.spindle_mode == 5,
        motion_blocked: status.motion_blocked,
        probe_extended: status.probe_actuator_known && status.probe_actuator == 1
            && !actuator_pending,
        probe_trigger_known: status.probe_trigger_known,
        probe_triggered: status.probe_triggered,
    }
}

/// Why the probe actuator cannot be moved now.
#[derive(Debug, Clone, Copy, PartialEq, Eq, Structural)]
pub enum ActuatorError {
    /// No status report has arrived on this connection.
    StatusUnavailable,
    /// Disconnected, stale status, a request pending, motion blocked, not
    /// ready, an incomplete report or an unknown actuator state.
    Unavailable,
    /// Extension was requested while the actuator is moving or between
    /// positions.
    Moving,
}

/// The connection facts that an actuator request depends on.
pub struct ActuatorContext {
    pub connected: bool,
    pub status_fresh: bool,
}

/// Tracks one probe actuator request from submission to the reported end
/// state. Actuator states: 0 retracted, 1 extended, 2 and 3 moving.
#[derive(Debug, Clone, Copy, PartialEq, Eq, Structural)]
pub struct ActuatorTracker {
    pub pending: bool,
    pub target: i32,
    /// A moving state was reported since the request.
    pub transition: bool,
}

pub open spec fn moving(a: i32) -> bool {
    a == 2 || a == 3
}

/// Whether the actuator may be asked to move now.
pub open spec fn can_request(
    t: ActuatorTracker,
    ctx: ActuatorContext,
    status: &MachineStatus,
) -> bool {
    ctx.connected && ctx.status_fresh && !t.pending && !status.motion_blocked && status.mode@
        == "Ready"@ && status.complete && status.probe_actuator_known
}

impl ActuatorTracker {
    /// No request pending.
    pub fn idle() -> (t: ActuatorTracker)
        ensures
            !t.pending && !t.transition,
    {
        ActuatorTracker { pending: false, target: 0, transition: false }
    }

    /// Decides a request to extend or retract the probe. `Ok(None)` when the
    /// actuator is already there; `Ok(Some(command))` when the command is to
    /// be submitted, and the request is then pending.
    pub fn request(
        &mut self,
        ctx: ActuatorContext,
        status: Option<&MachineStatus>,
        extended: bool,
    ) -> (r: Result<Option<&'static str>, ActuatorError>)
        ensures
            match status {
                None => r == Err::<Option<&'static str>, ActuatorError>(
                    ActuatorError::StatusUnavailable,
                ) && *final(self) == *old(self),
                Some(s) => if !can_request(*old(self), ctx, s) {
                    r == Err::<Option<&'static str>, ActuatorError>(ActuatorError::Unavailable)
                        && *final(self) == *old(self)
                } else if s.probe_actuator == (if extended {
                    1i32
                } else {
                    0i32
                }) {
                    r == Ok::<Option<&'static str>, ActuatorError>(None) && *final(self)
                        == *old(self)
                } else if extended && s.probe_actuator != 0 {
                    r == Err::<Option<&'static str>, ActuatorError>(ActuatorError::Moving)
                        && *final(self) == *old(self)
                } else {
                    &&& r matches Ok(Some(c)) && c@ == (if extended {
                        "M122"@
                    } else {
                        "M121"@
                    })
                    &&& final(self).pending
                    &&& final(self).target == (if extended {
                        1i32
                    } else {
                        0i32
                    })
                    &&& final(self).transition == moving(s.probe_actuator)
                },
            },
    {
        let s = match status {
            None => return Err(ActuatorError::StatusUnavailable),
            Some(s) => s,
        };
        if !ctx.connected || !ctx.status_fresh || self.pending || s.motion_blocked || !same(
            &chars_of(s.mode.as_str()),
            &chars_of("Ready"),
        ) || !s.complete || !s.probe_actuator_known {
            return Err(ActuatorError::Unavailable);
        }
        let target: i32 = if extended {
            1
        } else {
            0
        };
        if s.probe_actuator == target {
            return Ok(None);
        }
        if extended && s.probe_actuator != 0 {
            return Err(ActuatorError::Moving);
        }
        self.pending = true;
        self.target = target;
        self.transition = s.probe_actuator == 2 || s.probe_actuator == 3;
        Ok(Some(
            if extended {
                "M122"
            } else {
                "M121"
            },
        ))
    }

    /// The submission failed: nothing is pending.
    pub fn abandon(&mut self)
        ensures
            !final(self).pending,
            final(self).target == old(self).target,
            final(self).transition == old(self).transition,
    {
        self.pending = false;
    }

    /// Follows a status report: a moving state marks the transition, and the
    /// target state after a transition completes the request.
    pub fn observe(&mut self, known: bool, actuator: i32)
        ensures
            *final(self) == observe_spec(*old(self), known, actuator),
    {
        if self.pending && known {
            if actuator == 2 || actuator == 3 {
                self.transition = true;
            } else if self.transition && actuator == self.target {
                self.pending = false;
                self.transition = false;
            }
        }
    }
}

pub open spec fn observe_spec(t: ActuatorTracker, known: bool, actuator: i32) -> ActuatorTracker {
    if t.pending && known {
        if moving(actuator) {
            ActuatorTracker { transition: true, ..t }
        } else if t.transition && actuator == t.target {
            ActuatorTracker { pending: false, transition: false, ..t }
        } else {
            t
        }
    } else {
        t
    }
}

/// The state of a tracker after a sequence of reports `(known, actuator)`.
pub open spec fn observe_all(t: ActuatorTracker, reports: Seq<(bool, i32)>) -> ActuatorTracker
    decreases reports.len(),
{
    if reports.len() == 0 {
        t
    } else {
        let p = observe_all(t, reports.drop_last());
        observe_spec(p, reports.last().0, reports.last().1)
    }
}

/// A request completes only through motion: from a pending request that has
/// seen no moving state, reports that never show a moving state leave it
/// pending, even reports of the target state; a report of the target after
/// a moving report completes it.
pub proof fn lemma_actuator_completes_through_motion(
    t: ActuatorTracker,
    reports: Seq<(bool, i32)>,
)
    requires
        t.pending,
        !t.transition,
        forall|i: int| 0 <= i < reports.len() ==> !moving(#[trigger] reports[i].1),
    ensures
        observe_all(t, reports) == t,
        observe_spec(observe_spec(t, true, 2), true, t.target).pending == moving(t.target),
    decreases reports.len(),
{
    if reports.len() > 0 {
        lemma_actuator_completes_through_motion(t, reports.drop_last());
    }
}

} // verus!
