//! Machine vocabulary shared by routines, the controller and the service:
//! parser modes, axes, motion stage kinds, parameter kinds and the options of
//! the repeatability check.
use crate::text::{append, decimal, decimal_exec, string_of};
use vstd::prelude::*;

verus! {

/// An invalid routine or check configuration, with the reason.
#[derive(Debug, Clone, PartialEq, Eq)]
pub struct InvalidConfig {
    pub message: String,
}

/// The G-code parser modes that a routine captures and restores: units
/// (G20/G21), distance (G90/G91) and feed (G93/G94).
#[derive(Debug, Clone, Copy, Default, PartialEq, Eq, Structural)]
pub struct Modes {
    pub units: i32,
    pub distance: i32,
    pub feed: i32,
}

/// The modes a probing motion runs in: millimeters, incremental distances
/// and feed per minute.
pub open spec fn probing_modes() -> Modes {
    Modes { units: 21, distance: 91, feed: 94 }
}

/// The text of a G word with the given number.
pub open spec fn g_word(n: i32) -> Seq<char> {
    seq!['G'] + decimal(n as int)
}

impl Modes {
    pub open spec fn spec_valid(self) -> bool {
        (self.units == 20 || self.units == 21) && (self.distance == 90 || self.distance == 91) && (
        self.feed == 93 || self.feed == 94)
    }

    /// The command that selects these modes: units, feed, then distance.
    pub open spec fn spec_command(self) -> Seq<char> {
        g_word(self.units) + seq![' '] + g_word(self.feed) + seq![' '] + g_word(self.distance)
    }

    /// The modes of a probing motion.
    pub fn probing() -> (m: Modes)
        ensures
            m == probing_modes(),
    {
        Modes { units: 21, distance: 91, feed: 94 }
    }

    /// Whether every mode is one that the firmware reports.
    pub fn valid(self) -> (r: bool)
        ensures
            r == self.spec_valid(),
    {
        (self.units == 20 || self.units == 21) && (self.distance == 90 || self.distance == 91) && (
        self.feed == 93 || self.feed == 94)
    }

    /// The command that selects these modes, as in `G21 G94 G91`.
    pub fn command(self) -> (r: String)
        ensures
            r@ == self.spec_command(),
    {
        let mut v: Vec<char> = vec!['G'];
        append(&mut v, &decimal_exec(self.units));
        v.push(' ');
        v.push('G');
        append(&mut v, &decimal_exec(self.feed));
        v.push(' ');
        v.push('G');
        append(&mut v, &decimal_exec(self.distance));
        assert(v@ =~= self.spec_command());
        string_of(&v)
    }
}

/// A machine axis.
#[derive(Debug, Clone, Copy, PartialEq, Eq, Structural)]
pub enum Axis {
    X,
    Y,
    Z,
}

impl Axis {
    pub open spec fn spec_index(self) -> usize {
        match self {
            Axis::X => 0,
            Axis::Y => 1,
            Axis::Z => 2,
        }
    }

    /// Position of the axis in a coordinate array.
    pub fn index(self) -> (r: usize)
        ensures
            r == self.spec_index(),
    {
        match self {
            Axis::X => 0,
            Axis::Y => 1,
            Axis::Z => 2,
        }
    }

    /// Lower-case name used in script variables, as in `surface_x`.
    pub fn name(self) -> (r: &'static str)
        ensures
            r@ == seq![self.spec_lower()],
    {
        proof {
            reveal_strlit("x");
            reveal_strlit("y");
            reveal_strlit("z");
        }
        match self {
            Axis::X => "x",
            Axis::Y => "y",
            Axis::Z => "z",
        }
    }

    pub open spec fn spec_lower(self) -> char {
        match self {
            Axis::X => 'x',
            Axis::Y => 'y',
            Axis::Z => 'z',
        }
    }

    pub open spec fn spec_letter(self) -> char {
        match self {
            Axis::X => 'X',
            Axis::Y => 'Y',
            Axis::Z => 'Z',
        }
    }

    /// Upper-case letter used in G-code words and messages, as in `X`.
    pub fn letter(self) -> (r: char)
        ensures
            r == self.spec_letter(),
    {
        match self {
            Axis::X => 'X',
            Axis::Y => 'Y',
            Axis::Z => 'Z',
        }
    }
}

/// The machine facts that every routine checks before it moves; the caller
/// reads `position_finite` off the reported coordinates.
#[derive(Debug, Clone, Copy, PartialEq, Eq, Structural)]
pub struct PreflightState {
    pub motion_blocked: bool,
    pub connected: bool,
    pub ready: bool,
    pub spindle_stopped: bool,
    pub probe_extended: bool,
    pub probe_triggered: bool,
    pub probe_offset_known: bool,
    pub travel_limits_known: bool,
    pub position_finite: bool,
}

/// Why a routine may not start.
#[derive(Debug, Clone, Copy, PartialEq, Eq)]
pub enum PreflightError {
    /// The controller reports an alarm or another motion block.
    MotionBlocked,
    /// What the operator has to attend to first.
    Refused(&'static str),
}

/// The first unmet condition of a routine, in the order they are checked.
pub open spec fn preflight_reason(s: PreflightState) -> Option<Seq<char>> {
    if !s.connected {
        Some("Controller is disconnected"@)
    } else if !s.ready {
        Some("Machine is not ready"@)
    } else if !s.spindle_stopped {
        Some("Stop the spindle before probing"@)
    } else if !s.probe_extended {
        Some("probe not extended"@)
    } else if s.probe_triggered {
        Some("The probe is already touching something"@)
    } else if !s.probe_offset_known {
        Some("unknown probe offset"@)
    } else if !s.travel_limits_known {
        Some("unknown travel limits"@)
    } else if !s.position_finite {
        Some("invalid position"@)
    } else {
        None
    }
}

/// Checks that a routine may start: no motion block, then connected, ready,
/// spindle stopped, probe extended and not touching, probe offset and travel
/// limits known and a valid position, reporting the first that fails.
pub fn preflight(s: &PreflightState) -> (r: Result<(), PreflightError>)
    ensures
        s.motion_blocked ==> r == Err::<(), PreflightError>(PreflightError::MotionBlocked),
        !s.motion_blocked ==> match (r, preflight_reason(*s)) {
            (Ok(()), None) => true,
            (Err(PreflightError::Refused(m)), Some(w)) => m@ == w,
            _ => false,
        },
{
    if s.motion_blocked {
        return Err(PreflightError::MotionBlocked);
    }
    let why = if !s.connected {
        "Controller is disconnected"
    } else if !s.ready {
        "Machine is not ready"
    } else if !s.spindle_stopped {
        "Stop the spindle before probing"
    } else if !s.probe_extended {
        "probe not extended"
    } else if s.probe_triggered {
        "The probe is already touching something"
    } else if !s.probe_offset_known {
        "unknown probe offset"
    } else if !s.travel_limits_known {
        "unknown travel limits"
    } else if !s.position_finite {
        "invalid position"
    } else {
        return Ok(());
    };
    Err(PreflightError::Refused(why))
}

/// What kind of failure ended an action, as far as the decisions after it
/// depend on: whether the machine may still be moving, and how the failure
/// is reported.
#[derive(Debug, Clone, Copy, PartialEq, Eq, Structural)]
pub enum FailureKind {
    Cancelled,
    Preflight,
    InvalidConfig,
    Controller,
    Disconnected,
    EventLagged,
    MotionBlocked,
    Position,
    CoarseNoContact,
    NoContact,
    /// The probe touched during a move; `retracted` when it was then backed
    /// off the contact.
    UnexpectedContact { retracted: bool },
    /// The probe touched during a move to a measured point and was backed
    /// off.
    Obstructed,
    Timeout,
    Compensation,
    /// A failure followed by a failed recovery.
    Recovery,
}

/// Failures after which nothing can still be moving: refused before any
/// motion, stopped by the controller, or a search or move that ended where
/// it was meant to.
pub open spec fn settles_by_itself(k: FailureKind) -> bool {
    match k {
        FailureKind::Preflight | FailureKind::InvalidConfig | FailureKind::MotionBlocked
        | FailureKind::CoarseNoContact | FailureKind::Obstructed => true,
        FailureKind::UnexpectedContact { retracted } => retracted,
        _ => false,
    }
}

/// Whether the service must stop the machine and wait for it to settle
/// after a failure: unless the failure settles by itself or the controller
/// already blocks motion.
pub fn stop_needed(kind: FailureKind, motion_blocked: bool) -> (r: bool)
    ensures
        r == (!settles_by_itself(kind) && !motion_blocked),
{
    let settled = match kind {
        FailureKind::Preflight | FailureKind::InvalidConfig | FailureKind::MotionBlocked
        | FailureKind::CoarseNoContact | FailureKind::Obstructed => true,
        FailureKind::UnexpectedContact { retracted } => retracted,
        _ => false,
    };
    !settled && !motion_blocked
}

/// Whether a routine that failed this way has settled, so that its parser
/// modes may be restored and its result is final: a coarse search without
/// contact, a failed compensation, or a contact that was backed off.
pub fn routine_settled(kind: FailureKind) -> (r: bool)
    ensures
        r == (kind == FailureKind::CoarseNoContact || kind == FailureKind::Compensation || kind
            == (FailureKind::UnexpectedContact { retracted: true })),
{
    match kind {
        FailureKind::CoarseNoContact | FailureKind::Compensation => true,
        FailureKind::UnexpectedContact { retracted } => retracted,
        _ => false,
    }
}

/// Whether a routine that failed this way first moves back to its starting
/// height: a Z routine whose coarse search ran out of travel.
pub fn returns_to_height(kind: FailureKind, z_routine: bool) -> (r: bool)
    ensures
        r == (kind == FailureKind::CoarseNoContact && z_routine),
{
    match kind {
        FailureKind::CoarseNoContact => z_routine,
        _ => false,
    }
}

/// Whether a failed routine's parser modes are put back: only when the
/// failure settled the routine, any move back to its starting height
/// succeeded (`returned`), and the controller does not block motion (no
/// command is sent under an alarm).
pub fn restores_modes_after(kind: FailureKind, returned: bool, motion_blocked: bool) -> (r: bool)
    ensures
        r == ((kind == FailureKind::CoarseNoContact || kind == FailureKind::Compensation || kind
            == (FailureKind::UnexpectedContact { retracted: true })) && returned && !motion_blocked),
{
    routine_settled(kind) && returned && !motion_blocked
}

/// The code that the service reports a failure under.
pub fn error_code(kind: FailureKind) -> (r: &'static str)
    ensures
        r@ == match kind {
            FailureKind::MotionBlocked => "controller_alarm"@,
            FailureKind::CoarseNoContact | FailureKind::NoContact => "no_contact"@,
            FailureKind::UnexpectedContact { .. } | FailureKind::Obstructed => "unexpected_contact"@,
            _ => "failed"@,
        },
{
    match kind {
        FailureKind::MotionBlocked => "controller_alarm",
        FailureKind::CoarseNoContact | FailureKind::NoContact => "no_contact",
        FailureKind::UnexpectedContact { .. } | FailureKind::Obstructed => "unexpected_contact",
        _ => "failed",
    }
}

/// The kinds of motion stage that a contact or positioning move submits.
#[derive(Debug, Clone, Copy, PartialEq, Eq, Structural)]
pub enum StageKind {
    CoarseProbe,
    CoarseRetract,
    FineProbe,
    FinalRetract,
    GuardedMove,
    ContactRelease,
    PositionMove,
}

impl StageKind {
    /// The G-code word of the stage: G38.3 for searches that may end without
    /// contact, G38.2 for the fine touch, G1 for every other move.
    pub fn code(self) -> (r: &'static str)
        ensures
            r@ == (match self {
                StageKind::CoarseProbe | StageKind::GuardedMove => "G38.3"@,
                StageKind::FineProbe => "G38.2"@,
                _ => "G1"@,
            }),
    {
        match self {
            StageKind::CoarseProbe | StageKind::GuardedMove => "G38.3",
            StageKind::FineProbe => "G38.2",
            _ => "G1",
        }
    }

    /// Whether running out of travel without a touch is an expected outcome
    /// rather than a firmware error.
    pub fn no_error(self) -> (r: bool)
        ensures
            r == (self == StageKind::CoarseProbe || self == StageKind::GuardedMove),
    {
        matches!(self, StageKind::CoarseProbe | StageKind::GuardedMove)
    }
}

/// The kinds of numeric parameter that settings and routines validate.
#[derive(Debug, Clone, Copy, PartialEq, Eq, Structural)]
pub enum Parameter {
    Travel,
    SearchDistance,
    Retract,
    Diameter,
    PositioningFeed,
    ProbeFeed,
}

/// One progress report of a running routine.
#[derive(Debug, Clone, Default, PartialEq)]
pub struct Progress {
    pub kind: String,
    pub command: String,
    pub message: String,
}

/// How much longer than the nominal motion time a stage may take.
#[derive(Debug, Clone, Copy)]
pub struct TimingPolicy {
    pub response_margin: std::time::Duration,
}

/// The duration of `n` whole seconds, as `Duration::from_secs` makes it.
pub uninterp spec fn duration_secs(n: u64) -> std::time::Duration;

/// `Duration::from_secs`: `n` whole seconds, a function of `n` alone.
#[verifier::external_body]
fn seconds(n: u64) -> (r: std::time::Duration)
    ensures
        r == duration_secs(n),
{
    std::time::Duration::from_secs(n)
}

impl Default for TimingPolicy {
    /// Five seconds of response margin.
    fn default() -> (t: TimingPolicy)
        ensures
            t.response_margin == duration_secs(5),
    {
        TimingPolicy { response_margin: seconds(5) }
    }
}

/// Choices of the probe repeatability check.
#[derive(Debug, Clone)]
pub struct RepeatabilityOptions {
    pub axes: [bool; 3],
    pub repetitions: usize,
    pub home: bool,
    pub retract: bool,
}

impl Default for RepeatabilityOptions {
    /// All three axes, five repetitions, no homing, retraction on.
    fn default() -> (o: RepeatabilityOptions)
        ensures
            o.axes@ == seq![true, true, true],
            o.repetitions == 5,
            !o.home,
            o.retract,
    {
        RepeatabilityOptions { axes: [true, true, true], repetitions: 5, home: false, retract: true }
    }
}

impl RepeatabilityOptions {
    /// Whether an extended probe is retracted at the measuring point before
    /// repetition `repetition` (counted from 0): before every repetition
    /// when homing, which needs the probe retracted, and between
    /// repetitions when retraction is chosen.
    pub fn retracts_before(&self, repetition: usize, extended: bool) -> (r: bool)
        ensures
            r == (extended && (self.home || (repetition > 0 && self.retract))),
    {
        extended && (self.home || (repetition > 0 && self.retract))
    }

    pub open spec fn spec_valid(&self) -> bool {
        (self.axes[0] || self.axes[1] || self.axes[2]) && 1 <= self.repetitions <= 100
    }

    /// Accepts a check that measures at least one axis 1 to 100 times.
    pub fn validate(&self) -> (r: Result<(), InvalidConfig>)
        ensures
            r is Ok <==> self.spec_valid(),
            r matches Err(e) ==> e.message@
                == "select at least one axis and 1..100 repetitions"@,
    {
        if !(self.axes[0] || self.axes[1] || self.axes[2]) || !(1 <= self.repetitions
            && self.repetitions <= 100) {
            return Err(
                InvalidConfig {
                    message: "select at least one axis and 1..100 repetitions".to_owned(),
                },
            );
        }
        Ok(())
    }
}

/// After a failure that can leave the machine moving, a stop is needed
/// unless the controller already blocks motion: a position or timeout
/// failure, a controller error, a lost connection or event stream, a probe
/// that found nothing where it had to, a compensation failure, a
/// cancellation, a failed recovery, or a contact that was not backed off.
/// Only refusals before motion, a block, a coarse miss, an obstruction and a
/// backed-off contact settle by themselves.
pub proof fn lemma_stop_after_failures_that_may_move(kind: FailureKind)
    ensures
        (kind == FailureKind::Position || kind == FailureKind::Timeout || kind
            == FailureKind::Controller || kind == FailureKind::Disconnected || kind
            == FailureKind::EventLagged || kind == FailureKind::NoContact || kind
            == FailureKind::Compensation || kind == FailureKind::Cancelled || kind
            == FailureKind::Recovery || kind == (FailureKind::UnexpectedContact { retracted: false }))
            ==> !settles_by_itself(kind),
        settles_by_itself(kind) ==> (kind == FailureKind::Preflight || kind
            == FailureKind::InvalidConfig || kind == FailureKind::MotionBlocked || kind
            == FailureKind::CoarseNoContact || kind == FailureKind::Obstructed || kind
            == (FailureKind::UnexpectedContact { retracted: true })),
{
}

} // verus!
