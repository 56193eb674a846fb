//! Records of the controller's text protocol: acknowledgments, errors,
//! status reports, probe reports, parser modes and settings.
//!
//! Coordinates and setting values are checked against the decimal syntax of
//! `f64` and kept as their text; infinities, NaN and decimals too large for a
//! finite `f64` are refused. Converting a text to a float is left to the
//! caller.
use crate::magnitude::{below_overflow, below_overflow_exec, clamp_exponent, clamped_exponent};
use crate::probe::Modes;
use crate::text::{
    all_digits, all_digits_exec, append, chars_of, digits_value, is_digit, contains_char, parse_integer, parse_integer_exec, same, slice, split, split_exec,
    split_once, split_once_exec, starts_with, starts_with_exec, string_of, strip_prefix,
    strip_prefix_exec, strip_suffix, strip_suffix_exec, trim, trim_exec, utf8_width,
    utf8_width_exec, views, words, words_exec,
};
use vstd::prelude::*;

verus! {

/// Why a line is not a valid record.
#[derive(Debug, Clone, PartialEq, Eq)]
pub enum ParseError {
    /// A field that must be an integer is not; the field as received.
    InvalidNumber(String),
    /// A coordinate or setting value names an infinity or NaN.
    NonFiniteNumber,
    InvalidReportPrefix,
    MissingClosingBracket,
    MissingProbeResult,
    TooManyProbeValues,
    ExpectedFourCoordinates,
    MissingState,
    InvalidActuatorState,
    InvalidAbnormalList,
    MissingMPos,
}

pub enum ParseErrorView {
    InvalidNumber(Seq<char>),
    NonFiniteNumber,
    InvalidReportPrefix,
    MissingClosingBracket,
    MissingProbeResult,
    TooManyProbeValues,
    ExpectedFourCoordinates,
    MissingState,
    InvalidActuatorState,
    InvalidAbnormalList,
    MissingMPos,
}

impl View for ParseError {
    type V = ParseErrorView;

    open spec fn view(&self) -> ParseErrorView {
        match self {
            ParseError::InvalidNumber(s) => ParseErrorView::InvalidNumber(s@),
            ParseError::NonFiniteNumber => ParseErrorView::NonFiniteNumber,
            ParseError::InvalidReportPrefix => ParseErrorView::InvalidReportPrefix,
            ParseError::MissingClosingBracket => ParseErrorView::MissingClosingBracket,
            ParseError::MissingProbeResult => ParseErrorView::MissingProbeResult,
            ParseError::TooManyProbeValues => ParseErrorView::TooManyProbeValues,
            ParseError::ExpectedFourCoordinates => ParseErrorView::ExpectedFourCoordinates,
            ParseError::MissingState => ParseErrorView::MissingState,
            ParseError::InvalidActuatorState => ParseErrorView::InvalidActuatorState,
            ParseError::InvalidAbnormalList => ParseErrorView::InvalidAbnormalList,
            ParseError::MissingMPos => ParseErrorView::MissingMPos,
        }
    }
}

/// A status report: `<Mode|MPos:...|...>`.
#[derive(Debug, Clone, PartialEq, Eq)]
pub struct MachineStatus {
    pub mode: String,
    /// Machine position, as four decimal texts.
    pub m_pos: Vec<String>,
    /// Work position, as four decimal texts, when reported.
    pub w_pos: Option<Vec<String>>,
    /// Whether the report carries work position, tool, spindle mode and a
    /// G54..G59 coordinate system with a valid tool number.
    pub complete: bool,
    pub wcs: i32,
    pub tool: i32,
    pub spindle_mode: i32,
    pub probe_actuator: i32,
    pub probe_actuator_known: bool,
    pub probe_trigger_known: bool,
    pub probe_triggered: bool,
    pub door_open: bool,
    pub motion_blocked: bool,
    /// Every coordinate text of the report, in order of appearance.
    pub decimals: Vec<String>,
}

/// A probe report: `[PRB:x,y,z,a:success]` or `[PROBE:x,y,z,a:success,tool]`.
#[derive(Debug, Clone, PartialEq, Eq)]
pub struct ProbeReport {
    pub position: Vec<String>,
    pub success: bool,
    pub tool_length: Option<String>,
}

#[derive(Debug, Clone, PartialEq, Eq)]
pub enum Record {
    Ack,
    Error(i32),
    Status(MachineStatus),
    Probe(ProbeReport),
    Modes(Modes),
    Setting(i32, String),
}

pub struct StatusView {
    pub mode: Seq<char>,
    pub m_pos: Seq<Seq<char>>,
    pub w_pos: Option<Seq<Seq<char>>>,
    pub complete: bool,
    pub wcs: i32,
    pub tool: i32,
    pub spindle_mode: i32,
    pub probe_actuator: i32,
    pub probe_actuator_known: bool,
    pub probe_trigger_known: bool,
    pub probe_triggered: bool,
    pub door_open: bool,
    pub motion_blocked: bool,
    pub decimals: Seq<Seq<char>>,
}

pub struct ProbeView {
    pub position: Seq<Seq<char>>,
    pub success: bool,
    pub tool_length: Option<Seq<char>>,
}

pub enum RecordView {
    Ack,
    Error(i32),
    Status(StatusView),
    Probe(ProbeView),
    Modes(Modes),
    Setting(i32, Seq<char>),
}

pub open spec fn strings(v: Seq<String>) -> Seq<Seq<char>> {
    v.map_values(|s: String| s@)
}

pub open spec fn opt_strings(v: Option<Vec<String>>) -> Option<Seq<Seq<char>>> {
    match v {
        Some(v) => Some(strings(v@)),
        None => None,
    }
}

pub open spec fn opt_string(v: Option<String>) -> Option<Seq<char>> {
    match v {
        Some(v) => Some(v@),
        None => None,
    }
}

impl View for MachineStatus {
    type V = StatusView;

    open spec fn view(&self) -> StatusView {
        StatusView {
            mode: self.mode@,
            m_pos: strings(self.m_pos@),
            w_pos: opt_strings(self.w_pos),
            complete: self.complete,
            wcs: self.wcs,
            tool: self.tool,
            spindle_mode: self.spindle_mode,
            probe_actuator: self.probe_actuator,
            probe_actuator_known: self.probe_actuator_known,
            probe_trigger_known: self.probe_trigger_known,
            probe_triggered: self.probe_triggered,
            door_open: self.door_open,
            motion_blocked: self.motion_blocked,
            decimals: strings(self.decimals@),
        }
    }
}

impl View for Record {
    type V = RecordView;

    open spec fn view(&self) -> RecordView {
        match self {
            Record::Ack => RecordView::Ack,
            Record::Error(c) => RecordView::Error(*c),
            Record::Status(s) => RecordView::Status(s@),
            Record::Probe(p) => RecordView::Probe(
                ProbeView {
                    position: strings(p.position@),
                    success: p.success,
                    tool_length: opt_string(p.tool_length),
                },
            ),
            Record::Modes(m) => RecordView::Modes(*m),
            Record::Setting(k, v) => RecordView::Setting(*k, v@),
        }
    }
}

// ---------------------------------------------------------------------------
// The grammar.
/// An `i32` field: the trimmed text in `FromStr` syntax and range.
pub open spec fn number_i32(s: Seq<char>) -> Result<i32, ParseErrorView> {
    match parse_integer(trim(s), -0x8000_0000, 0x7fff_ffff) {
        Some(v) => Ok(v as i32),
        None => Err(ParseErrorView::InvalidNumber(s)),
    }
}

/// `s` without one leading sign.
pub open spec fn unsigned(s: Seq<char>) -> Seq<char> {
    if s.len() > 0 && (s[0] == '+' || s[0] == '-') {
        s.drop_first()
    } else {
        s
    }
}

/// Index of the first `e` or `E` at or after `from`.
pub open spec fn find_exponent(s: Seq<char>, from: int) -> Option<int>
    decreases s.len() - from,
{
    if from < 0 || from >= s.len() {
        None
    } else if s[from] == 'e' || s[from] == 'E' {
        Some(from)
    } else {
        find_exponent(s, from + 1)
    }
}

/// Digits with at most one decimal point and at least one digit.
pub open spec fn mantissa(m: Seq<char>) -> bool {
    match split_once(m, '.') {
        None => m.len() > 0 && all_digits(m),
        Some((whole, fraction)) => all_digits(whole) && all_digits(fraction) && whole.len()
            + fraction.len() > 0,
    }
}

/// What follows the `e` of an exponent: an optional sign and digits.
pub open spec fn exponent(x: Seq<char>) -> bool {
    unsigned(x).len() > 0 && all_digits(unsigned(x))
}

/// An unsigned decimal in the syntax of `f64`'s `FromStr`: a mantissa and
/// an optional exponent.
pub open spec fn decimal_literal(s: Seq<char>) -> bool {
    match find_exponent(s, 0) {
        None => mantissa(s),
        Some(i) => mantissa(s.subrange(0, i)) && exponent(s.subrange(i + 1, s.len() as int)),
    }
}

/// `s` spells the lower-case ASCII word `w`, ignoring ASCII case.
pub open spec fn same_letters(s: Seq<char>, w: Seq<char>) -> bool {
    s.len() == w.len() && forall|i: int|
        0 <= i < s.len() ==> #[trigger] s[i] == w[i] || ('A' <= s[i] <= 'Z' && (s[i] as u32) + 32
            == (w[i] as u32))
}

/// The words that `f64`'s `FromStr` reads as an infinity or NaN.
pub open spec fn non_finite_word(s: Seq<char>) -> bool {
    ||| same_letters(s, seq!['i', 'n', 'f'])
    ||| same_letters(s, seq!['i', 'n', 'f', 'i', 'n', 'i', 't', 'y'])
    ||| same_letters(s, seq!['n', 'a', 'n'])
}

/// The part of a decimal before its exponent.
pub open spec fn mantissa_of(b: Seq<char>) -> Seq<char> {
    match find_exponent(b, 0) {
        None => b,
        Some(i) => b.subrange(0, i),
    }
}

/// The digits of a mantissa with its decimal point left out.
pub open spec fn significand(m: Seq<char>) -> Seq<char> {
    match split_once(m, '.') {
        None => m,
        Some((whole, fraction)) => whole + fraction,
    }
}

/// How many digits of a mantissa follow its decimal point.
pub open spec fn fraction_len(m: Seq<char>) -> nat {
    match split_once(m, '.') {
        None => 0,
        Some((_, fraction)) => fraction.len(),
    }
}

/// The value of an exponent's text: an optional sign and digits.
pub open spec fn signed_digits(x: Seq<char>) -> int {
    if x.len() > 0 && x[0] == '-' {
        -digits_value(unsigned(x))
    } else {
        digits_value(unsigned(x))
    }
}

/// The exponent of a decimal, 0 when it has none.
pub open spec fn exponent_value(b: Seq<char>) -> int {
    match find_exponent(b, 0) {
        None => 0,
        Some(i) => signed_digits(b.subrange(i + 1, b.len() as int)),
    }
}

/// Whether the unsigned decimal `b` is finite as an `f64`: its significand
/// times ten to the power of its exponent less its fraction digits is below
/// the overflow threshold.
pub open spec fn finite_literal(b: Seq<char>) -> bool {
    below_overflow(significand(mantissa_of(b)), exponent_value(b) - fraction_len(mantissa_of(b)))
}

/// A coordinate or setting value: once trimmed, an optional sign and then a
/// decimal in `f64` syntax whose value `f64` holds as a finite number. A
/// spelled infinity or NaN, or a decimal that rounds to infinity, is refused
/// as non-finite; any other text as an invalid number.
pub open spec fn finite_text(s: Seq<char>) -> Result<(), ParseErrorView> {
    let body = unsigned(trim(s));
    if non_finite_word(body) {
        Err(ParseErrorView::NonFiniteNumber)
    } else if decimal_literal(body) {
        if finite_literal(body) {
            Ok(())
        } else {
            Err(ParseErrorView::NonFiniteNumber)
        }
    } else {
        Err(ParseErrorView::InvalidNumber(s))
    }
}

/// The first refusal among texts checked in order.
pub open spec fn finite_texts(p: Seq<Seq<char>>) -> Result<(), ParseErrorView>
    decreases p.len(),
{
    if p.len() == 0 {
        Ok(())
    } else {
        match finite_texts(p.drop_last()) {
            Err(e) => Err(e),
            Ok(_) => finite_text(p.last()),
        }
    }
}

/// Four comma-separated coordinates, each checked in order before they are
/// counted.
pub open spec fn position(s: Seq<char>) -> Result<Seq<Seq<char>>, ParseErrorView> {
    let p = split(s, ',');
    match finite_texts(p) {
        Err(e) => Err(e),
        Ok(_) => if p.len() == 4 {
            Ok(p)
        } else {
            Err(ParseErrorView::ExpectedFourCoordinates)
        },
    }
}

/// First occurrence of the two characters `a b` in `s`.
pub open spec fn find_pair(s: Seq<char>, a: char, b: char, from: int) -> Option<int>
    decreases s.len() - from,
{
    if from < 0 || from + 1 >= s.len() {
        None
    } else if s[from] == a && s[from + 1] == b {
        Some(from)
    } else {
        find_pair(s, a, b, from + 1)
    }
}

pub open spec fn serial_prefix() -> Seq<char> {
    seq!['[', 'S', 'e', 'r', 'i', 'a', 'l', 'R', 'e', 'p', 'o', 'r', 't', ':']
}

/// The record carried by a numbered report `[SerialReport:n] record`, or the
/// line itself.
pub open spec fn unwrap_serial(line: Seq<char>) -> Result<Seq<char>, ParseErrorView> {
    match strip_prefix(line, serial_prefix()) {
        Some(report) => match find_pair(report, ']', ' ', 0) {
            Some(i) => {
                let sequence = report.subrange(0, i);
                if parse_integer(trim(sequence), 0, 0xffff_ffff_ffff_ffff) is Some {
                    Ok(report.subrange(i + 2, report.len() as int))
                } else {
                    Err(ParseErrorView::InvalidNumber(sequence))
                }
            },
            None => Err(ParseErrorView::InvalidReportPrefix),
        },
        None => Ok(line),
    }
}

/// The modes named by the words of a `[GC:...]` report.
pub open spec fn modes_of(w: Seq<Seq<char>>) -> Modes
    decreases w.len(),
{
    if w.len() == 0 {
        Modes { units: 0, distance: 0, feed: 0 }
    } else {
        let m = modes_of(w.drop_last());
        let x = w.last();
        if x == seq!['G', '2', '0'] {
            Modes { units: 20, ..m }
        } else if x == seq!['G', '2', '1'] {
            Modes { units: 21, ..m }
        } else if x == seq!['G', '9', '0'] {
            Modes { distance: 90, ..m }
        } else if x == seq!['G', '9', '1'] {
            Modes { distance: 91, ..m }
        } else if x == seq!['G', '9', '3'] {
            Modes { feed: 93, ..m }
        } else if x == seq!['G', '9', '4'] {
            Modes { feed: 94, ..m }
        } else {
            m
        }
    }
}

/// The tool length of a probe result, checked when present.
pub open spec fn tool_text(parts: Seq<Seq<char>>) -> Result<(), ParseErrorView> {
    if parts.len() >= 2 {
        finite_text(parts[1])
    } else {
        Ok(())
    }
}

/// A probe report body `x,y,z,a:success[,tool]`: the success flag, then the
/// tool length, then the count of result values, then the position.
pub open spec fn probe_body(s: Seq<char>) -> Result<RecordView, ParseErrorView> {
    match split_once(s, ':') {
        None => Err(ParseErrorView::MissingProbeResult),
        Some((pos, result)) => {
            let parts = split(result, ',');
            match number_i32(parts[0]) {
                Err(e) => Err(e),
                Ok(success) => match tool_text(parts) {
                    Err(e) => Err(e),
                    Ok(_) => if parts.len() > 2 {
                        Err(ParseErrorView::TooManyProbeValues)
                    } else {
                        match position(pos) {
                            Err(e) => Err(e),
                            Ok(p) => Ok(
                                RecordView::Probe(
                                    ProbeView {
                                        position: p,
                                        success: success != 0,
                                        tool_length: if parts.len() == 2 {
                                            Some(parts[1])
                                        } else {
                                            None
                                        },
                                    },
                                ),
                            ),
                        }
                    },
                },
            }
        },
    }
}

/// The state of a status report while its fields are read in order.
pub struct Scan {
    pub status: StatusView,
    pub have_pos: bool,
    pub have_w: bool,
    pub have_t: bool,
    pub have_m: bool,
    pub have_g: bool,
    /// The actuator state read from byte 29 of the last `MS` field.
    pub compact: Option<i32>,
}

/// The character whose UTF-8 encoding starts at byte `b` of `s`, if any.
pub open spec fn char_at_byte(s: Seq<char>, b: nat) -> Option<char>
    decreases s.len(),
{
    if s.len() == 0 {
        None
    } else if b == 0 {
        Some(s[0])
    } else if b < utf8_width(s[0]) {
        None
    } else {
        char_at_byte(s.drop_first(), (b - utf8_width(s[0])) as nat)
    }
}

/// The actuator state packed in byte 29 of the compact machine-state field.
pub open spec fn compact_actuator(value: Seq<char>) -> Option<i32> {
    match char_at_byte(value, 29) {
        Some(c) => if '0' <= c && c <= '3' {
            Some((c as u32 - '0' as u32) as i32)
        } else {
            None
        },
        None => None,
    }
}

/// The codes of an `Abnormal:[...]` list, read in order.
pub open spec fn abnormal_codes(
    codes: Seq<Seq<char>>,
    door: bool,
    blocked: bool,
) -> Result<(bool, bool), ParseErrorView>
    decreases codes.len(),
{
    if codes.len() == 0 {
        Ok((door, blocked))
    } else {
        match abnormal_codes(codes.drop_last(), door, blocked) {
            Err(e) => Err(e),
            Ok((d, b)) => match number_i32(codes.last()) {
                Err(e) => Err(e),
                Ok(code) => if code == 106 {
                    Ok((true, b))
                } else {
                    Ok((d, true))
                },
            },
        }
    }
}

pub open spec fn abnormal(value: Seq<char>, door: bool, blocked: bool) -> Result<
    (bool, bool),
    ParseErrorView,
> {
    match strip_prefix(trim(value), seq!['[']) {
        None => Err(ParseErrorView::InvalidAbnormalList),
        Some(inner) => match strip_suffix(inner, seq![']']) {
            None => Err(ParseErrorView::InvalidAbnormalList),
            Some(list) => if trim(list).len() == 0 {
                Ok((door, blocked))
            } else {
                abnormal_codes(split(list, ','), door, blocked)
            },
        },
    }
}

pub open spec fn scan_position(s: Scan, value: Seq<char>, machine: bool) -> Result<
    Scan,
    ParseErrorView,
> {
    match position(value) {
        Err(e) => Err(e),
        Ok(p) => Ok(
            if machine {
                Scan {
                    status: StatusView { m_pos: p, decimals: s.status.decimals + p, ..s.status },
                    have_pos: true,
                    ..s
                }
            } else {
                Scan {
                    status: StatusView {
                        w_pos: Some(p),
                        decimals: s.status.decimals + p,
                        ..s.status
                    },
                    have_w: true,
                    ..s
                }
            },
        ),
    }
}

/// A `T`, `M` or `G` field: tool, spindle mode or coordinate system.
pub open spec fn scan_number(s: Scan, key: char, value: Seq<char>) -> Result<Scan, ParseErrorView> {
    match number_i32(value) {
        Err(e) => Err(e),
        Ok(n) => Ok(
            if key == 'T' {
                Scan { status: StatusView { tool: n, ..s.status }, have_t: true, ..s }
            } else if key == 'M' {
                Scan { status: StatusView { spindle_mode: n, ..s.status }, have_m: true, ..s }
            } else {
                Scan { status: StatusView { wcs: n, ..s.status }, have_g: true, ..s }
            },
        ),
    }
}

pub open spec fn scan_actuator(s: Scan, value: Seq<char>) -> Result<Scan, ParseErrorView> {
    match number_i32(value) {
        Err(e) => Err(e),
        Ok(n) => if 0 <= n && n <= 3 {
            Ok(
                Scan {
                    status: StatusView {
                        probe_actuator: n,
                        probe_actuator_known: true,
                        ..s.status
                    },
                    ..s
                },
            )
        } else {
            Err(ParseErrorView::InvalidActuatorState)
        },
    }
}

pub open spec fn scan_abnormal(s: Scan, value: Seq<char>) -> Result<Scan, ParseErrorView> {
    match abnormal(value, s.status.door_open, s.status.motion_blocked) {
        Err(e) => Err(e),
        Ok((d, b)) => Ok(
            Scan { status: StatusView { door_open: d, motion_blocked: b, ..s.status }, ..s },
        ),
    }
}

/// One `key:value` field of a status report; other fields are ignored.
pub open spec fn scan_field(s: Scan, field: Seq<char>) -> Result<Scan, ParseErrorView> {
    match split_once(field, ':') {
        None => Ok(s),
        Some((key, value)) => if key == seq!['M', 'S'] {
            Ok(Scan { compact: compact_actuator(value), ..s })
        } else if key == seq!['M', 'P', 'o', 's'] {
            scan_position(s, value, true)
        } else if key == seq!['W', 'P', 'o', 's'] {
            scan_position(s, value, false)
        } else if key == seq!['T'] || key == seq!['M'] || key == seq!['G'] {
            scan_number(s, key[0], value)
        } else if key == seq!['P', 'M'] {
            scan_actuator(s, value)
        } else if key == seq!['P', 'n'] {
            Ok(
                Scan {
                    status: StatusView {
                        probe_trigger_known: true,
                        probe_triggered: value.contains('P'),
                        ..s.status
                    },
                    ..s
                },
            )
        } else if key == seq!['A', 'b', 'n', 'o', 'r', 'm', 'a', 'l'] {
            scan_abnormal(s, value)
        } else {
            Ok(s)
        },
    }
}

/// The fields of a status report, read in order.
pub open spec fn scan_fields(start: Scan, fields: Seq<Seq<char>>) -> Result<Scan, ParseErrorView>
    decreases fields.len(),
{
    if fields.len() == 0 {
        Ok(start)
    } else {
        match scan_fields(start, fields.drop_last()) {
            Err(e) => Err(e),
            Ok(s) => scan_field(s, fields.last()),
        }
    }
}

pub open spec fn initial_scan(mode: Seq<char>) -> Scan {
    Scan {
        status: StatusView {
            mode: mode,
            m_pos: seq![seq!['0'], seq!['0'], seq!['0'], seq!['0']],
            w_pos: None,
            complete: false,
            wcs: 0,
            tool: 0,
            spindle_mode: 0,
            probe_actuator: 0,
            probe_actuator_known: false,
            probe_trigger_known: false,
            probe_triggered: false,
            door_open: false,
            motion_blocked: false,
            decimals: Seq::empty(),
        },
        have_pos: false,
        have_w: false,
        have_t: false,
        have_m: false,
        have_g: false,
        compact: None,
    }
}

pub open spec fn alarm_prefix() -> Seq<char> {
    seq!['A', 'l', 'a', 'r', 'm', ':']
}

/// The status once all fields are read: the compact actuator state stands in
/// for a missing `PM` field, completeness is derived, and an alarm other
/// than an open door blocks motion.
pub open spec fn finish_scan(s: Scan) -> StatusView {
    let known = s.status.probe_actuator_known || s.compact is Some;
    let actuator = if !s.status.probe_actuator_known && s.compact is Some {
        s.compact->0
    } else {
        s.status.probe_actuator
    };
    StatusView {
        probe_actuator: actuator,
        probe_actuator_known: known,
        complete: s.have_w && s.have_t && s.have_m && s.have_g && 54 <= s.status.wcs <= 59
            && s.status.tool >= 0,
        motion_blocked: s.status.motion_blocked || (starts_with(s.status.mode, alarm_prefix())
            && !s.status.door_open),
        ..s.status
    }
}

/// A status report body `Mode|field|field...`.
pub open spec fn status_body(s: Seq<char>) -> Result<RecordView, ParseErrorView> {
    let parts = split(s, '|');
    if parts[0].len() == 0 {
        Err(ParseErrorView::MissingState)
    } else {
        match scan_fields(initial_scan(parts[0]), parts.drop_first()) {
            Err(e) => Err(e),
            Ok(scan) => if !scan.have_pos {
                Err(ParseErrorView::MissingMPos)
            } else {
                Ok(RecordView::Status(finish_scan(scan)))
            },
        }
    }
}

pub open spec fn error_prefix() -> Seq<char> {
    seq!['e', 'r', 'r', 'o', 'r', ':']
}

pub open spec fn gc_prefix() -> Seq<char> {
    seq!['[', 'G', 'C', ':']
}

pub open spec fn prb_prefix() -> Seq<char> {
    seq!['[', 'P', 'R', 'B', ':']
}

pub open spec fn probe_prefix() -> Seq<char> {
    seq!['[', 'P', 'R', 'O', 'B', 'E', ':']
}

/// The record that a line without its report number holds.
pub open spec fn record_of(line: Seq<char>) -> Result<Option<RecordView>, ParseErrorView> {
    if line == seq!['o', 'k'] {
        Ok(Some(RecordView::Ack))
    } else if starts_with(line, error_prefix()) {
        match number_i32(line.subrange(6, line.len() as int)) {
            Err(e) => Err(e),
            Ok(n) => Ok(Some(RecordView::Error(n))),
        }
    } else if starts_with(line, gc_prefix()) {
        match strip_suffix(line.subrange(4, line.len() as int), seq![']']) {
            None => Err(ParseErrorView::MissingClosingBracket),
            Some(body) => Ok(Some(RecordView::Modes(modes_of(words(body))))),
        }
    } else if starts_with(line, prb_prefix()) || starts_with(line, probe_prefix()) {
        let rest = if starts_with(line, prb_prefix()) {
            line.subrange(5, line.len() as int)
        } else {
            line.subrange(7, line.len() as int)
        };
        match strip_suffix(rest, seq![']']) {
            None => Err(ParseErrorView::MissingClosingBracket),
            Some(body) => match probe_body(body) {
                Err(e) => Err(e),
                Ok(r) => Ok(Some(r)),
            },
        }
    } else if starts_with(line, seq!['<']) {
        match strip_suffix(line.subrange(1, line.len() as int), seq!['>']) {
            None => Err(ParseErrorView::MissingClosingBracket),
            Some(body) => match status_body(body) {
                Err(e) => Err(e),
                Ok(r) => Ok(Some(r)),
            },
        }
    } else if starts_with(line, seq!['$']) {
        match split_once(line.subrange(1, line.len() as int), '=') {
            Some((key, value)) => match number_i32(key) {
                Ok(k) => match finite_text(value) {
                    Err(e) => Err(e),
                    Ok(_) => Ok(Some(RecordView::Setting(k, value))),
                },
                Err(_) => Ok(None),
            },
            None => Ok(None),
        }
    } else {
        Ok(None)
    }
}

/// The record of one line of controller output: surrounding white space is
/// ignored, a report number is checked and dropped, and unrecognized lines
/// carry no record.
pub open spec fn parsed(line: Seq<char>) -> Result<Option<RecordView>, ParseErrorView> {
    match unwrap_serial(trim(line)) {
        Err(e) => Err(e),
        Ok(body) => record_of(body),
    }
}

} // verus!

verus! {

// ---------------------------------------------------------------------------
// The parser.
/// White space around a line never changes the record it holds.
pub proof fn lemma_surrounding_space_is_ignored(before: Seq<char>, line: Seq<char>, after: Seq<char>)
    requires
        crate::text::all_space(before),
        crate::text::all_space(after),
    ensures
        parsed(before + line + after) == parsed(line),
{
    crate::text::lemma_trim_surrounded(before, line, after);
}

proof fn lemma_scan_keeps_work_position(start: Scan, fields: Seq<Seq<char>>)
    requires
        start.have_w ==> start.status.w_pos is Some,
    ensures
        scan_fields(start, fields) matches Ok(s) ==> (s.have_w ==> s.status.w_pos is Some),
    decreases fields.len(),
{
    if fields.len() > 0 {
        lemma_scan_keeps_work_position(start, fields.drop_last());
    }
}

/// A status report is complete only when it names a G54..G59 coordinate
/// system, a tool number of at least zero and the work position; and an
/// alarm blocks motion unless an open door explains it.
pub proof fn lemma_complete_status(line: Seq<char>)
    ensures
        parsed(line) matches Ok(Some(RecordView::Status(s))) ==> {
            &&& s.complete ==> 54 <= s.wcs <= 59 && s.tool >= 0 && s.w_pos is Some
            &&& starts_with(s.mode, alarm_prefix()) && !s.door_open ==> s.motion_blocked
        },
{
    if let Ok(body) = unwrap_serial(trim(line)) {
        if starts_with(body, seq!['<']) {
            if let Some(inner) = strip_suffix(body.subrange(1, body.len() as int), seq!['>']) {
                let parts = split(inner, '|');
                lemma_scan_keeps_work_position(initial_scan(parts[0]), parts.drop_first());
            }
        }
    }
}

proof fn lemma_words_append_word(x: Seq<char>, w: Seq<char>)
    requires
        w.len() > 0,
        forall|i: int| 0 <= i < w.len() ==> !crate::text::is_space(#[trigger] w[i]),
        x.len() == 0 || crate::text::is_space(x.last()),
    ensures
        words(x + w) == words(x).push(w),
    decreases w.len(),
{
    let xw = x + w;
    if w.len() == 1 {
        assert(xw.drop_last() =~= x);
        assert(xw.last() == w[0]);
        assert(seq![w[0]] =~= w);
    } else {
        lemma_words_append_word(x, w.drop_last());
        assert(xw.drop_last() =~= x + w.drop_last());
        assert(xw.last() == w.last());
        assert(xw[xw.len() - 2] == w[w.len() - 2]);
        let before = words(x).push(w.drop_last());
        assert(before.update(before.len() - 1, w.drop_last().push(w.last())) =~= words(x).push(w))
            by {
            assert(w.drop_last().push(w.last()) =~= w);
        }
        assert(words(xw) =~= words(x).push(w));
    }
}

proof fn lemma_g_word(n: i32)
    requires
        n == 20 || n == 21 || n == 90 || n == 91 || n == 93 || n == 94,
    ensures
        crate::probe::g_word(n) == seq!['G', crate::text::digit_char((n / 10) as nat),
            crate::text::digit_char((n % 10) as nat)],
        crate::probe::g_word(n).len() == 3,
        forall|i: int| 0 <= i < 3 ==> !crate::text::is_space(#[trigger] crate::probe::g_word(n)[i]),
        n == 20 ==> crate::probe::g_word(n) == seq!['G', '2', '0'],
        n == 21 ==> crate::probe::g_word(n) == seq!['G', '2', '1'],
        n == 90 ==> crate::probe::g_word(n) == seq!['G', '9', '0'],
        n == 91 ==> crate::probe::g_word(n) == seq!['G', '9', '1'],
        n == 93 ==> crate::probe::g_word(n) == seq!['G', '9', '3'],
        n == 94 ==> crate::probe::g_word(n) == seq!['G', '9', '4'],
{
    assert(crate::text::digit_char(0) == '0');
    assert(crate::text::digit_char(1) == '1');
    assert(crate::text::digit_char(2) == '2');
    assert(crate::text::digit_char(3) == '3');
    assert(crate::text::digit_char(4) == '4');
    assert(crate::text::digit_char(9) == '9');
    reveal_with_fuel(crate::text::decimal_nat, 2);
    assert(crate::text::decimal_nat(n as nat) =~= seq![
        crate::text::digit_char((n / 10) as nat),
        crate::text::digit_char((n % 10) as nat),
    ]);
    assert(crate::probe::g_word(n) =~= seq!['G', crate::text::digit_char((n / 10) as nat),
        crate::text::digit_char((n % 10) as nat)]);
}

/// The words of a modes command name the modes it selects.
proof fn lemma_command_modes(m: Modes)
    requires
        m.spec_valid(),
    ensures
        modes_of(words(m.spec_command())) == m,
{
    let u = crate::probe::g_word(m.units);
    let f = crate::probe::g_word(m.feed);
    let d = crate::probe::g_word(m.distance);
    lemma_g_word(m.units);
    lemma_g_word(m.feed);
    lemma_g_word(m.distance);
    let sp = seq![' '];
    let cmd = m.spec_command();
    assert(cmd == u + sp + f + sp + d);
    lemma_words_append_word(Seq::<char>::empty(), u);
    assert(Seq::<char>::empty() + u =~= u);
    assert(words(u + sp) == words(u)) by {
        assert((u + sp).drop_last() =~= u);
    }
    lemma_words_append_word(u + sp, f);
    assert(words(u + sp + f + sp) == words(u + sp + f)) by {
        assert((u + sp + f + sp).drop_last() =~= u + sp + f);
    }
    lemma_words_append_word(u + sp + f + sp, d);
    let ws = words(cmd);
    assert(ws =~= seq![u, f, d]);
    assert(ws.drop_last() =~= seq![u, f]);
    assert(ws.drop_last().drop_last() =~= seq![u]);
    assert(ws.drop_last().drop_last().drop_last() =~= Seq::<Seq<char>>::empty());
    reveal_with_fuel(modes_of, 2);
    let m1 = modes_of(ws.drop_last().drop_last());
    let m2 = modes_of(ws.drop_last());
    assert(m1 == Modes { units: m.units, distance: 0, feed: 0 });
    assert(m2 == Modes { units: m.units, distance: 0, feed: m.feed });
}

/// Parsing a parser-state report built from `Modes::command` gives the
/// modes back, for every valid set of modes.
pub proof fn lemma_modes_report_round_trip(m: Modes)
    requires
        m.spec_valid(),
    ensures
        parsed(gc_prefix() + m.spec_command() + seq![']']) == Ok::<
            Option<RecordView>,
            ParseErrorView,
        >(Some(RecordView::Modes(m))),
{
    lemma_command_modes(m);
    let cmd = m.spec_command();
    let line = gc_prefix() + cmd + seq![']'];
    assert(line[0] == '[');
    assert(line.last() == ']');
    assert(crate::text::trim_start(line) == line);
    assert(crate::text::trim_end(line) == line);
    assert(trim(line) == line);
    assert(line[1] == 'G');
    assert(line.len() >= 14) by {
        lemma_g_word(m.units);
        lemma_g_word(m.feed);
        lemma_g_word(m.distance);
    }
    assert(line.subrange(0, 14)[1] == 'G');
    assert(strip_prefix(line, serial_prefix()) is None) by {
        assert(serial_prefix()[1] == 'S');
    }
    assert(unwrap_serial(line) == Ok::<Seq<char>, ParseErrorView>(line));
    assert(line != seq!['o', 'k']);
    assert(!starts_with(line, error_prefix())) by {
        assert(line.subrange(0, 6)[0] == '[');
    }
    assert(line.subrange(0, 4) =~= gc_prefix());
    assert(line.subrange(4, line.len() as int) =~= cmd + seq![']']);
    assert((cmd + seq![']']).subrange(0, cmd.len() as int) =~= cmd);
    assert(strip_suffix(cmd + seq![']'], seq![']']) == Some(cmd)) by {
        assert((cmd + seq![']']).subrange(cmd.len() as int, cmd.len() as int + 1) =~= seq![']']);
    }
}

/// A probe report's success flag is the integer after its `:`: the probe
/// touched exactly when it is nonzero, so a report ending in `:0` is a miss.
pub proof fn lemma_probe_success_is_nonzero_flag(s: Seq<char>)
    ensures
        probe_body(s) matches Ok(RecordView::Probe(p)) ==> (split_once(s, ':') matches Some(
            (pos, result),
        ) && parse_integer(trim(split(result, ',')[0]), -0x8000_0000, 0x7fff_ffff) matches Some(
            flag,
        ) && p.success == (flag != 0)),
{
}

/// A report `[PRB:position:flag]` with a flag of digits is a touch exactly
/// when the flag is not zero.
pub proof fn lemma_probe_report_flag(pos: Seq<char>, flag: Seq<char>)
    requires
        !pos.contains(':'),
        flag.len() > 0,
        all_digits(flag),
        digits_value(flag) <= 0x7fff_ffff,
    ensures
        parsed(prb_prefix() + pos + seq![':'] + flag + seq![']']) matches Ok(Some(
            RecordView::Probe(p),
        )) ==> p.success == (digits_value(flag) != 0),
{
    let body = pos + seq![':'] + flag;
    lemma_prb_line(body);
    assert(prb_prefix() + pos + seq![':'] + flag + seq![']'] =~= prb_prefix() + body + seq![']']);
    lemma_first_colon(pos, flag);
    lemma_digit_flag(flag);
    lemma_probe_success_is_nonzero_flag(body);
}

proof fn lemma_digit_flag(flag: Seq<char>)
    requires
        flag.len() > 0,
        all_digits(flag),
        digits_value(flag) <= 0x7fff_ffff,
    ensures
        parse_integer(trim(split(flag, ',')[0]), -0x8000_0000, 0x7fff_ffff) == Some(
            digits_value(flag),
        ),
{
    assert(!flag.contains(',')) by {
        if flag.contains(',') {
            let k = choose|k: int| 0 <= k < flag.len() && flag[k] == ',';
            assert(is_digit(flag[k]));
        }
    }
    lemma_split_without(flag, ',');
    assert(!crate::text::is_space(flag[0])) by {
        assert(is_digit(flag[0]));
    }
    assert(!crate::text::is_space(flag.last())) by {
        assert(is_digit(flag[flag.len() - 1]));
    }
    assert(crate::text::trim_start(flag) == flag);
    assert(crate::text::trim_end(flag) == flag);
    assert(flag[0] != '+' && flag[0] != '-') by {
        assert(is_digit(flag[0]));
    }
    crate::text::lemma_digits_nonnegative(flag);
}

/// A line `[PRB:body]` holds what `body` holds as a probe report.
proof fn lemma_prb_line(body: Seq<char>)
    ensures
        parsed(prb_prefix() + body + seq![']']) == match probe_body(body) {
            Err(e) => Err(e),
            Ok(r) => Ok(Some(r)),
        },
{
    let line = prb_prefix() + body + seq![']'];
    assert(line[0] == '[');
    assert(line[1] == 'P');
    assert(line.last() == ']');
    assert(crate::text::trim_start(line) == line);
    assert(crate::text::trim_end(line) == line);
    assert(strip_prefix(line, serial_prefix()) is None) by {
        assert(serial_prefix()[1] == 'S');
        if line.len() >= 14 {
            assert(line.subrange(0, 14)[1] == 'P');
        }
    }
    assert(unwrap_serial(trim(line)) == Ok::<Seq<char>, ParseErrorView>(line));
    assert(line != seq!['o', 'k']);
    assert(!starts_with(line, error_prefix())) by {
        assert(line.subrange(0, 6)[0] == '[');
        assert(line.subrange(0, 6)[1] == 'P');
    }
    assert(!starts_with(line, gc_prefix())) by {
        assert(line.subrange(0, 4)[1] == 'P');
    }
    assert(line.subrange(0, 5) =~= prb_prefix());
    assert(line.subrange(5, line.len() as int) =~= body + seq![']']);
    assert((body + seq![']']).subrange(0, body.len() as int) =~= body);
    assert(strip_suffix(body + seq![']'], seq![']']) == Some(body)) by {
        assert((body + seq![']']).subrange(body.len() as int, body.len() as int + 1) =~= seq![']']);
    }
}

proof fn lemma_first_colon(pos: Seq<char>, rest: Seq<char>)
    requires
        !pos.contains(':'),
    ensures
        split_once(pos + seq![':'] + rest, ':') == Some((pos, rest)),
{
    let s = pos + seq![':'] + rest;
    lemma_find_from_skips(s, pos.len() as int, 0);
    assert(s.subrange(0, pos.len() as int) =~= pos);
    assert(s.subrange(pos.len() as int + 1, s.len() as int) =~= rest);
}

proof fn lemma_find_from_skips(s: Seq<char>, n: int, from: int)
    requires
        0 <= from <= n < s.len(),
        s[n] == ':',
        forall|k: int| 0 <= k < n ==> s[k] != ':',
    ensures
        crate::text::find_from(s, ':', from) == Some(n),
    decreases n - from,
{
    if from < n {
        lemma_find_from_skips(s, n, from + 1);
    }
}

proof fn lemma_split_without(s: Seq<char>, d: char)
    requires
        !s.contains(d),
    ensures
        split(s, d) == seq![s],
    decreases s.len(),
{
    if s.len() > 0 {
        assert(!s.drop_last().contains(d)) by {
            if s.drop_last().contains(d) {
                let k = choose|k: int| 0 <= k < s.drop_last().len() && s.drop_last()[k] == d;
                assert(s[k] == d);
            }
        }
        lemma_split_without(s.drop_last(), d);
        assert(s.last() != d) by {
            if s.last() == d {
                assert(s[s.len() - 1] == d);
            }
        }
        assert(seq![s.drop_last()].update(0, s.drop_last().push(s.last())) =~= seq![s]) by {
            assert(s.drop_last().push(s.last()) =~= s);
        }
    } else {
        assert(s =~= Seq::<char>::empty());
    }
}

/// Every text passes the coordinate check.
pub open spec fn all_finite(p: Seq<Seq<char>>) -> bool {
    forall|i: int| 0 <= i < p.len() ==> finite_text(#[trigger] p[i]) is Ok
}

proof fn lemma_texts_each(p: Seq<Seq<char>>)
    requires
        finite_texts(p) is Ok,
    ensures
        all_finite(p),
    decreases p.len(),
{
    if p.len() > 0 {
        lemma_texts_each(p.drop_last());
        assert forall|i: int| 0 <= i < p.len() implies finite_text(#[trigger] p[i]) is Ok by {
            if i < p.len() - 1 {
                assert(p.drop_last()[i] == p[i]);
            }
        }
    }
}

proof fn lemma_scan_keeps_decimals(start: Scan, fields: Seq<Seq<char>>)
    requires
        all_finite(start.status.decimals),
    ensures
        scan_fields(start, fields) matches Ok(s) ==> all_finite(s.status.decimals),
    decreases fields.len(),
{
    if fields.len() > 0 {
        lemma_scan_keeps_decimals(start, fields.drop_last());
        if let Ok(s) = scan_fields(start, fields.drop_last()) {
            if let Some((key, value)) = split_once(fields.last(), ':') {
                if position(value) is Ok {
                    let p = split(value, ',');
                    lemma_texts_each(p);
                    let d = s.status.decimals + p;
                    assert forall|i: int| 0 <= i < d.len() implies finite_text(#[trigger] d[i]) is Ok by {
                        if i < s.status.decimals.len() {
                            assert(d[i] == s.status.decimals[i]);
                        } else {
                            assert(d[i] == p[i - s.status.decimals.len()]);
                        }
                    }
                }
            }
        }
    }
}

/// Every number that a record reports as decimal text (the coordinates of a
/// status or probe report, a probe's tool length, a setting's value) is a
/// decimal in `f64` syntax whose value `f64` holds as a finite number, never
/// an infinity or NaN.
pub proof fn lemma_reported_numbers_are_decimal(line: Seq<char>)
    ensures
        match parsed(line) {
            Ok(Some(RecordView::Status(s))) => all_finite(s.decimals),
            Ok(Some(RecordView::Probe(p))) => all_finite(p.position) && (p.tool_length matches Some(
                t,
            ) ==> finite_text(t) is Ok),
            Ok(Some(RecordView::Setting(_, v))) => finite_text(v) is Ok,
            _ => true,
        },
{
    if let Ok(body) = unwrap_serial(trim(line)) {
        if starts_with(body, seq!['<']) {
            if let Some(inner) = strip_suffix(body.subrange(1, body.len() as int), seq!['>']) {
                let parts = split(inner, '|');
                lemma_scan_keeps_decimals(initial_scan(parts[0]), parts.drop_first());
            }
        }
        let rest = if starts_with(body, prb_prefix()) {
            body.subrange(5, body.len() as int)
        } else {
            body.subrange(7, body.len() as int)
        };
        if let Some(inner) = strip_suffix(rest, seq![']']) {
            if let Some((pos, _)) = split_once(inner, ':') {
                if position(pos) is Ok {
                    lemma_texts_each(split(pos, ','));
                }
            }
        }
    }
}

proof fn lemma_find_report_end(report: Seq<char>, digits: Seq<char>, from: int)
    requires
        0 <= from <= digits.len(),
        all_digits(digits),
        digits.len() + 1 < report.len(),
        report.subrange(0, digits.len() as int) == digits,
        report[digits.len() as int] == ']',
        report[digits.len() as int + 1] == ' ',
    ensures
        find_pair(report, ']', ' ', from) == Some(digits.len() as int),
    decreases digits.len() - from,
{
    if from < digits.len() {
        assert(report[from] == digits[from]);
        lemma_find_report_end(report, digits, from + 1);
    }
}

/// A numbered report `[SerialReport:n] record` holds what `record` holds:
/// the report number is checked and dropped.
pub proof fn lemma_report_number_is_transparent(digits: Seq<char>, record: Seq<char>)
    requires
        digits.len() > 0,
        all_digits(digits),
        digits_value(digits) <= 0xffff_ffff_ffff_ffff,
        record.len() > 0,
        !crate::text::is_space(record[0]),
        !crate::text::is_space(record.last()),
        !starts_with(record, serial_prefix()),
    ensures
        parsed(serial_prefix() + digits + seq![']', ' '] + record) == parsed(record),
{
    let p = serial_prefix();
    let line = p + digits + seq![']', ' '] + record;
    let report = digits + seq![']', ' '] + record;
    assert(line[0] == '[');
    assert(line.last() == record.last());
    assert(crate::text::trim_start(line) == line);
    assert(crate::text::trim_end(line) == line);
    assert(crate::text::trim_start(record) == record);
    assert(crate::text::trim_end(record) == record);
    assert(line.subrange(0, p.len() as int) =~= p);
    assert(line.subrange(p.len() as int, line.len() as int) =~= report);
    assert(report.subrange(0, digits.len() as int) =~= digits);
    assert(report[digits.len() as int] == ']');
    assert(report[digits.len() as int + 1] == ' ');
    lemma_find_report_end(report, digits, 0);
    assert(digits[0] != '+' && digits[0] != '-') by {
        assert(is_digit(digits[0]));
    }
    assert(!crate::text::is_space(digits[0])) by {
        assert(is_digit(digits[0]));
    }
    assert(!crate::text::is_space(digits.last())) by {
        assert(is_digit(digits[digits.len() - 1]));
    }
    assert(crate::text::trim_start(digits) == digits);
    assert(crate::text::trim_end(digits) == digits);
    assert(report.subrange(digits.len() as int + 2, report.len() as int) =~= record);
    assert(trim(line) == line);
    assert(trim(record) == record);
    assert(trim(digits) == digits);
    assert(strip_prefix(line, p) == Some(report));
    assert(report.subrange(0, digits.len() as int) == digits);
    crate::text::lemma_digits_nonnegative(digits);
    assert(parse_integer(digits, 0, 0xffff_ffff_ffff_ffff) == Some(digits_value(digits)));
    assert(unwrap_serial(line) == Ok::<Seq<char>, ParseErrorView>(record));
    assert(strip_prefix(record, p) is None);
    assert(unwrap_serial(record) == Ok::<Seq<char>, ParseErrorView>(record));
}

pub open spec fn number_view(r: Result<i32, ParseError>) -> Result<i32, ParseErrorView> {
    match r {
        Ok(v) => Ok(v),
        Err(e) => Err(e@),
    }
}

fn invalid_number(s: &[char]) -> (e: ParseError)
    ensures
        e@ == ParseErrorView::InvalidNumber(s@),
{
    ParseError::InvalidNumber(string_of(s))
}

fn number_i32_exec(s: &[char]) -> (r: Result<i32, ParseError>)
    ensures
        number_view(r) == number_i32(s@),
{
    let t = trim_exec(s);
    match parse_integer_exec(&t, -0x8000_0000, 0x7fff_ffff) {
        Some(v) => Ok(v as i32),
        None => Err(invalid_number(s)),
    }
}

pub open spec fn position_view(r: Result<Vec<Vec<char>>, ParseError>) -> Result<
    Seq<Seq<char>>,
    ParseErrorView,
> {
    match r {
        Ok(v) => Ok(views(v@)),
        Err(e) => Err(e@),
    }
}

pub open spec fn unit_view(r: Result<(), ParseError>) -> Result<(), ParseErrorView> {
    match r {
        Ok(_) => Ok(()),
        Err(e) => Err(e@),
    }
}

fn unsigned_exec(s: &[char]) -> (r: Vec<char>)
    ensures
        r@ == unsigned(s@),
{
    if s.len() > 0 && (s[0] == '+' || s[0] == '-') {
        let r = slice(s, 1, s.len());
        assert(r@ =~= s@.drop_first());
        r
    } else {
        slice(s, 0, s.len())
    }
}

fn find_exponent_exec(s: &[char]) -> (r: Option<usize>)
    ensures
        match r {
            Some(i) => find_exponent(s@, 0) == Some(i as int) && i < s.len(),
            None => find_exponent(s@, 0) is None,
        },
{
    let mut i: usize = 0;
    while i < s.len()
        invariant
            i <= s.len(),
            find_exponent(s@, 0) == find_exponent(s@, i as int),
        decreases s.len() - i,
    {
        if s[i] == 'e' || s[i] == 'E' {
            return Some(i);
        }
        i += 1;
    }
    None
}

fn mantissa_exec(m: &[char]) -> (r: bool)
    ensures
        r == mantissa(m@),
{
    match split_once_exec(m, '.') {
        None => m.len() > 0 && all_digits_exec(m),
        Some((whole, fraction)) => all_digits_exec(&whole) && all_digits_exec(&fraction) && (
        whole.len() > 0 || fraction.len() > 0),
    }
}

fn decimal_literal_exec(s: &[char]) -> (r: bool)
    ensures
        r == decimal_literal(s@),
{
    match find_exponent_exec(s) {
        None => mantissa_exec(s),
        Some(i) => {
            let e = unsigned_exec(&slice(s, i + 1, s.len()));
            mantissa_exec(&slice(s, 0, i)) && e.len() > 0 && all_digits_exec(&e)
        },
    }
}

fn same_letters_exec(s: &[char], w: &[char]) -> (r: bool)
    ensures
        r == same_letters(s@, w@),
{
    if s.len() != w.len() {
        return false;
    }
    let mut i: usize = 0;
    while i < s.len()
        invariant
            i <= s.len(),
            s.len() == w.len(),
            forall|j: int|
                0 <= j < i ==> #[trigger] s@[j] == w@[j] || ('A' <= s@[j] <= 'Z' && (s@[j] as u32)
                    + 32 == (w@[j] as u32)),
        decreases s.len() - i,
    {
        if !(s[i] == w[i] || ('A' <= s[i] && s[i] <= 'Z' && (s[i] as u32) + 32 == (w[i] as u32))) {
            return false;
        }
        i += 1;
    }
    true
}

fn finite_text_exec(s: &[char]) -> (r: Result<(), ParseError>)
    ensures
        unit_view(r) == finite_text(s@),
{
    let body = unsigned_exec(&trim_exec(s));
    let inf = vec!['i', 'n', 'f'];
    let infinity = vec!['i', 'n', 'f', 'i', 'n', 'i', 't', 'y'];
    let nan = vec!['n', 'a', 'n'];
    assert(inf@ =~= seq!['i', 'n', 'f']);
    assert(infinity@ =~= seq!['i', 'n', 'f', 'i', 'n', 'i', 't', 'y']);
    assert(nan@ =~= seq!['n', 'a', 'n']);
    if same_letters_exec(&body, &inf) || same_letters_exec(&body, &infinity) || same_letters_exec(
        &body,
        &nan,
    ) {
        Err(ParseError::NonFiniteNumber)
    } else if decimal_literal_exec(&body) {
        if finite_literal_exec(&body) {
            Ok(())
        } else {
            Err(ParseError::NonFiniteNumber)
        }
    } else {
        Err(invalid_number(s))
    }
}

fn finite_literal_exec(b: &[char]) -> (r: bool)
    requires
        decimal_literal(b@),
    ensures
        r == finite_literal(b@),
{
    let (mant, clamped) = match find_exponent_exec(b) {
        None => (slice(b, 0, b.len()), 0i128),
        Some(i) => {
            let x = slice(b, i + 1, b.len());
            let negative = x.len() > 0 && x[0] == '-';
            let d = unsigned_exec(&x);
            (slice(b, 0, i), clamped_exponent(&d, negative))
        },
    };
    assert(b@.subrange(0, b.len() as int) =~= b@);
    assert(mant@ == mantissa_of(b@));
    assert(mantissa(mant@));
    assert(clamped == clamp_exponent(exponent_value(b@)));
    let (digits, fraction) = match split_once_exec(&mant, '.') {
        None => (mant, 0usize),
        Some((whole, fraction)) => {
            let mut d = whole;
            append(&mut d, &fraction);
            (d, fraction.len())
        },
    };
    assert(digits@ == significand(mant@));
    assert(fraction == fraction_len(mant@));
    assert(all_digits(digits@)) by {
        if let Some((w, f)) = split_once(mant@, '.') {
            assert forall|j: int| 0 <= j < digits@.len() implies is_digit(#[trigger] digits@[j]) by {
                if j < w.len() {
                    assert(digits@[j] == w[j]);
                } else {
                    assert(digits@[j] == f[j - w.len()]);
                }
            }
        }
    }
    below_overflow_exec(&digits, clamped, fraction, Ghost(exponent_value(b@)))
}

proof fn lemma_texts_error(p: Seq<Seq<char>>, k: int)
    requires
        0 <= k <= p.len(),
        finite_texts(p.take(k)) is Err,
    ensures
        finite_texts(p) == finite_texts(p.take(k)),
    decreases p.len() - k,
{
    if k < p.len() {
        assert(p.take(k + 1).drop_last() =~= p.take(k));
        lemma_texts_error(p, k + 1);
    } else {
        assert(p.take(k) =~= p);
    }
}

fn position_exec(s: &[char]) -> (r: Result<Vec<Vec<char>>, ParseError>)
    ensures
        position_view(r) == position(s@),
{
    let p = split_exec(s, ',');
    let mut i: usize = 0;
    while i < p.len()
        invariant
            i <= p.len(),
            views(p@) == split(s@, ','),
            finite_texts(views(p@).take(i as int)) == Ok::<(), ParseErrorView>(()),
        decreases p.len() - i,
    {
        let ghost ws = views(p@).take(i + 1);
        assert(ws.drop_last() =~= views(p@).take(i as int));
        assert(ws.last() == p@[i as int]@);
        match finite_text_exec(&p[i]) {
            Err(e) => {
                assert(finite_texts(ws) == Err::<(), ParseErrorView>(e@));
                proof {
                    lemma_texts_error(views(p@), i + 1);
                }
                return Err(e);
            },
            Ok(_) => {},
        }
        i += 1;
    }
    assert(views(p@).take(p.len() as int) =~= views(p@));
    if p.len() == 4 {
        Ok(p)
    } else {
        Err(ParseError::ExpectedFourCoordinates)
    }
}

fn strings_of(v: &Vec<Vec<char>>) -> (r: Vec<String>)
    ensures
        strings(r@) == views(v@),
{
    let mut r: Vec<String> = Vec::new();
    let mut i: usize = 0;
    while i < v.len()
        invariant
            i <= v.len(),
            strings(r@) == views(v@).take(i as int),
        decreases v.len() - i,
    {
        let s = string_of(&v[i]);
        let ghost before = r@;
        r.push(s);
        assert(strings(r@) =~= strings(before).push(s@));
        i += 1;
        assert(strings(r@) =~= views(v@).take(i as int));
    }
    assert(views(v@).take(v.len() as int) =~= views(v@));
    r
}

fn find_pair_exec(s: &[char], a: char, b: char) -> (r: Option<usize>)
    ensures
        match r {
            Some(i) => find_pair(s@, a, b, 0) == Some(i as int) && i + 1 < s.len(),
            None => find_pair(s@, a, b, 0) is None,
        },
{
    let mut i: usize = 0;
    while i < s.len() && s.len() - i > 1
        invariant
            i <= s.len(),
            find_pair(s@, a, b, 0) == find_pair(s@, a, b, i as int),
        decreases s.len() - i,
    {
        if s[i] == a && s[i + 1] == b {
            return Some(i);
        }
        i += 1;
    }
    None
}

fn unwrap_serial_exec(line: Vec<char>) -> (r: Result<Vec<char>, ParseError>)
    ensures
        match (r, unwrap_serial(line@)) {
            (Ok(v), Ok(w)) => v@ == w,
            (Err(e), Err(f)) => e@ == f,
            _ => false,
        },
{
    let prefix = vec!['[', 'S', 'e', 'r', 'i', 'a', 'l', 'R', 'e', 'p', 'o', 'r', 't', ':'];
    assert(prefix@ == serial_prefix());
    match strip_prefix_exec(&line, &prefix) {
        None => Ok(line),
        Some(report) => match find_pair_exec(&report, ']', ' ') {
            None => Err(ParseError::InvalidReportPrefix),
            Some(i) => {
                let sequence = slice(&report, 0, i);
                let t = trim_exec(&sequence);
                if parse_integer_exec(&t, 0, 0xffff_ffff_ffff_ffff).is_some() {
                    Ok(slice(&report, i + 2, report.len()))
                } else {
                    Err(invalid_number(&sequence))
                }
            },
        },
    }
}

fn modes_exec(w: &Vec<Vec<char>>) -> (m: Modes)
    ensures
        m == modes_of(views(w@)),
{
    let mut m = Modes { units: 0, distance: 0, feed: 0 };
    let mut i: usize = 0;
    while i < w.len()
        invariant
            i <= w.len(),
            m == modes_of(views(w@).take(i as int)),
        decreases w.len() - i,
    {
        let x = &w[i];
        let ghost ws = views(w@).take(i + 1);
        assert(ws.drop_last() =~= views(w@).take(i as int));
        assert(ws.last() == x@);
        if same(x, &vec!['G', '2', '0']) {
            m.units = 20;
        } else if same(x, &vec!['G', '2', '1']) {
            m.units = 21;
        } else if same(x, &vec!['G', '9', '0']) {
            m.distance = 90;
        } else if same(x, &vec!['G', '9', '1']) {
            m.distance = 91;
        } else if same(x, &vec!['G', '9', '3']) {
            m.feed = 93;
        } else if same(x, &vec!['G', '9', '4']) {
            m.feed = 94;
        }
        i += 1;
    }
    assert(views(w@).take(w.len() as int) =~= views(w@));
    m
}

fn probe_exec(s: &[char]) -> (r: Result<Record, ParseError>)
    ensures
        match (r, probe_body(s@)) {
            (Ok(v), Ok(w)) => v@ == w,
            (Err(e), Err(f)) => e@ == f,
            _ => false,
        },
{
    let (pos, result) = match split_once_exec(s, ':') {
        None => return Err(ParseError::MissingProbeResult),
        Some(p) => p,
    };
    let parts = split_exec(&result, ',');
    let success = match number_i32_exec(&parts[0]) {
        Err(e) => return Err(e),
        Ok(v) => v,
    };
    if parts.len() >= 2 {
        if let Err(e) = finite_text_exec(&parts[1]) {
            return Err(e);
        }
    }
    if parts.len() > 2 {
        return Err(ParseError::TooManyProbeValues);
    }
    let p = match position_exec(&pos) {
        Err(e) => return Err(e),
        Ok(p) => p,
    };
    let tool_length = if parts.len() == 2 {
        Some(string_of(&parts[1]))
    } else {
        None
    };
    Ok(
        Record::Probe(
            ProbeReport { position: strings_of(&p), success: success != 0, tool_length: tool_length },
        ),
    )
}

} // verus!

verus! {

fn extend_texts(dst: &mut Vec<Vec<char>>, src: &Vec<Vec<char>>)
    ensures
        views(final(dst)@) == views(old(dst)@) + views(src@),
{
    let mut i: usize = 0;
    while i < src.len()
        invariant
            i <= src.len(),
            views(dst@) == views(old(dst)@) + views(src@).take(i as int),
        decreases src.len() - i,
    {
        let c = slice(&src[i], 0, src[i].len());
        assert(c@ =~= src@[i as int]@);
        let ghost before = dst@;
        dst.push(c);
        assert(views(dst@) =~= views(before).push(c@));
        i += 1;
        assert(views(dst@) =~= views(old(dst)@) + views(src@).take(i as int));
    }
    assert(views(src@).take(src.len() as int) =~= views(src@));
}

proof fn lemma_char_at_byte_step(s: Seq<char>, i: int, b: nat)
    requires
        0 <= i < s.len(),
        b > 0,
    ensures
        char_at_byte(s.subrange(i, s.len() as int), b) == (if b < utf8_width(s[i]) {
            None::<char>
        } else {
            char_at_byte(s.subrange(i + 1, s.len() as int), (b - utf8_width(s[i])) as nat)
        }),
{
    let t = s.subrange(i, s.len() as int);
    assert(t[0] == s[i]);
    assert(t.drop_first() =~= s.subrange(i + 1, s.len() as int));
}

fn compact_actuator_exec(value: &[char]) -> (r: Option<i32>)
    ensures
        r == compact_actuator(value@),
{
    let mut i: usize = 0;
    let mut b: usize = 0;
    assert(value@.subrange(0, value@.len() as int) =~= value@);
    while i < value.len() && b < 29
        invariant
            i <= value.len(),
            b <= 32,
            b <= 29 ==> char_at_byte(value@, 29) == char_at_byte(
                value@.subrange(i as int, value@.len() as int),
                (29 - b) as nat,
            ),
            b > 29 ==> char_at_byte(value@, 29) is None,
        decreases value.len() - i,
    {
        proof {
            lemma_char_at_byte_step(value@, i as int, (29 - b) as nat);
        }
        b += utf8_width_exec(value[i]);
        i += 1;
    }
    if b == 29 && i < value.len() {
        let c = value[i];
        assert(value@.subrange(i as int, value@.len() as int)[0] == c);
        if '0' <= c && c <= '3' {
            Some((c as u32 - '0' as u32) as i32)
        } else {
            None
        }
    } else {
        assert(b < 29 ==> value@.subrange(i as int, value@.len() as int).len() == 0);
        None
    }
}

pub open spec fn pair_view(r: Result<(bool, bool), ParseError>) -> Result<(bool, bool), ParseErrorView> {
    match r {
        Ok(v) => Ok(v),
        Err(e) => Err(e@),
    }
}

proof fn lemma_codes_error(codes: Seq<Seq<char>>, k: int, door: bool, blocked: bool)
    requires
        0 <= k <= codes.len(),
        abnormal_codes(codes.take(k), door, blocked) is Err,
    ensures
        abnormal_codes(codes, door, blocked) == abnormal_codes(codes.take(k), door, blocked),
    decreases codes.len() - k,
{
    if k < codes.len() {
        assert(codes.take(k + 1).drop_last() =~= codes.take(k));
        lemma_codes_error(codes, k + 1, door, blocked);
    } else {
        assert(codes.take(k) =~= codes);
    }
}

#[verifier::loop_isolation(false)]
fn abnormal_exec(value: &[char], door: bool, blocked: bool) -> (r: Result<(bool, bool), ParseError>)
    ensures
        pair_view(r) == abnormal(value@, door, blocked),
{
    let t = trim_exec(value);
    let open = vec!['['];
    let close = vec![']'];
    assert(open@ =~= seq!['[']);
    assert(close@ =~= seq![']']);
    let inner = match strip_prefix_exec(&t, &open) {
        None => return Err(ParseError::InvalidAbnormalList),
        Some(v) => v,
    };
    let list = match strip_suffix_exec(&inner, &close) {
        None => return Err(ParseError::InvalidAbnormalList),
        Some(v) => v,
    };
    if trim_exec(&list).len() == 0 {
        return Ok((door, blocked));
    }
    let codes = split_exec(&list, ',');
    let mut d = door;
    let mut b = blocked;
    let mut i: usize = 0;
    while i < codes.len()
        invariant
            i <= codes.len(),
            abnormal_codes(views(codes@).take(i as int), door, blocked) == Ok::<
                (bool, bool),
                ParseErrorView,
            >((d, b)),
        decreases codes.len() - i,
    {
        let ghost ws = views(codes@).take(i + 1);
        assert(ws.drop_last() =~= views(codes@).take(i as int));
        assert(ws.last() == codes@[i as int]@);
        match number_i32_exec(&codes[i]) {
            Err(e) => {
                assert(abnormal_codes(ws, door, blocked) == Err::<(bool, bool), ParseErrorView>(e@));
                proof {
                    lemma_codes_error(views(codes@), i + 1, door, blocked);
                }
                return Err(e);
            },
            Ok(code) => {
                if code == 106 {
                    d = true;
                } else {
                    b = true;
                }
            },
        }
        i += 1;
    }
    assert(views(codes@).take(codes.len() as int) =~= views(codes@));
    Ok((d, b))
}

/// The exec counterpart of `Scan`.
struct Scanner {
    mode: Vec<char>,
    m_pos: Vec<Vec<char>>,
    w_pos: Option<Vec<Vec<char>>>,
    wcs: i32,
    tool: i32,
    spindle_mode: i32,
    probe_actuator: i32,
    probe_actuator_known: bool,
    probe_trigger_known: bool,
    probe_triggered: bool,
    door_open: bool,
    motion_blocked: bool,
    decimals: Vec<Vec<char>>,
    have_pos: bool,
    have_w: bool,
    have_t: bool,
    have_m: bool,
    have_g: bool,
    compact: Option<i32>,
}

pub open spec fn opt_views(v: Option<Vec<Vec<char>>>) -> Option<Seq<Seq<char>>> {
    match v {
        Some(v) => Some(views(v@)),
        None => None,
    }
}

impl View for Scanner {
    type V = Scan;

    closed spec fn view(&self) -> Scan {
        Scan {
            status: StatusView {
                mode: self.mode@,
                m_pos: views(self.m_pos@),
                w_pos: opt_views(self.w_pos),
                complete: false,
                wcs: self.wcs,
                tool: self.tool,
                spindle_mode: self.spindle_mode,
                probe_actuator: self.probe_actuator,
                probe_actuator_known: self.probe_actuator_known,
                probe_trigger_known: self.probe_trigger_known,
                probe_triggered: self.probe_triggered,
                door_open: self.door_open,
                motion_blocked: self.motion_blocked,
                decimals: views(self.decimals@),
            },
            have_pos: self.have_pos,
            have_w: self.have_w,
            have_t: self.have_t,
            have_m: self.have_m,
            have_g: self.have_g,
            compact: self.compact,
        }
    }
}

spec fn scan_view(r: Result<Scanner, ParseError>) -> Result<Scan, ParseErrorView> {
    match r {
        Ok(s) => Ok(s@),
        Err(e) => Err(e@),
    }
}

fn scan_position_exec(s: Scanner, value: &[char], machine: bool) -> (r: Result<Scanner, ParseError>)
    ensures
        scan_view(r) == scan_position(s@, value@, machine),
{
    let mut s = s;
    let p = match position_exec(value) {
        Err(e) => {
            assert(position(value@) == Err::<Seq<Seq<char>>, ParseErrorView>(e@));
            return Err(e);
        },
        Ok(p) => p,
    };
    extend_texts(&mut s.decimals, &p);
    if machine {
        s.m_pos = p;
        s.have_pos = true;
    } else {
        s.w_pos = Some(p);
        s.have_w = true;
    }
    Ok(s)
}

fn scan_number_exec(s: Scanner, key: char, value: &[char]) -> (r: Result<Scanner, ParseError>)
    ensures
        scan_view(r) == scan_number(s@, key, value@),
{
    let mut s = s;
    match number_i32_exec(value) {
        Err(e) => Err(e),
        Ok(n) => {
            if key == 'T' {
                s.tool = n;
                s.have_t = true;
            } else if key == 'M' {
                s.spindle_mode = n;
                s.have_m = true;
            } else {
                s.wcs = n;
                s.have_g = true;
            }
            Ok(s)
        },
    }
}

fn scan_actuator_exec(s: Scanner, value: &[char]) -> (r: Result<Scanner, ParseError>)
    ensures
        scan_view(r) == scan_actuator(s@, value@),
{
    let mut s = s;
    match number_i32_exec(value) {
        Err(e) => Err(e),
        Ok(n) => {
            if !(0 <= n && n <= 3) {
                return Err(ParseError::InvalidActuatorState);
            }
            s.probe_actuator = n;
            s.probe_actuator_known = true;
            Ok(s)
        },
    }
}

fn scan_abnormal_exec(s: Scanner, value: &[char]) -> (r: Result<Scanner, ParseError>)
    ensures
        scan_view(r) == scan_abnormal(s@, value@),
{
    let mut s = s;
    match abnormal_exec(value, s.door_open, s.motion_blocked) {
        Err(e) => Err(e),
        Ok((d, b)) => {
            s.door_open = d;
            s.motion_blocked = b;
            Ok(s)
        },
    }
}

fn scan_field_exec(s: Scanner, field: &[char]) -> (r: Result<Scanner, ParseError>)
    ensures
        scan_view(r) == scan_field(s@, field@),
{
    let mut s = s;
    let (key, value) = match split_once_exec(field, ':') {
        None => return Ok(s),
        Some(p) => p,
    };
    let ms = vec!['M', 'S'];
    let mpos = vec!['M', 'P', 'o', 's'];
    let wpos = vec!['W', 'P', 'o', 's'];
    let t = vec!['T'];
    let m = vec!['M'];
    let g = vec!['G'];
    let pm = vec!['P', 'M'];
    let pn = vec!['P', 'n'];
    let abn = vec!['A', 'b', 'n', 'o', 'r', 'm', 'a', 'l'];
    assert(ms@ =~= seq!['M', 'S']);
    assert(mpos@ =~= seq!['M', 'P', 'o', 's']);
    assert(wpos@ =~= seq!['W', 'P', 'o', 's']);
    assert(t@ =~= seq!['T']);
    assert(m@ =~= seq!['M']);
    assert(g@ =~= seq!['G']);
    assert(pm@ =~= seq!['P', 'M']);
    assert(pn@ =~= seq!['P', 'n']);
    assert(abn@ =~= seq!['A', 'b', 'n', 'o', 'r', 'm', 'a', 'l']);
    if same(&key, &ms) {
        s.compact = compact_actuator_exec(&value);
        Ok(s)
    } else if same(&key, &mpos) {
        scan_position_exec(s, &value, true)
    } else if same(&key, &wpos) {
        scan_position_exec(s, &value, false)
    } else if same(&key, &t) || same(&key, &m) || same(&key, &g) {
        scan_number_exec(s, key[0], &value)
    } else if same(&key, &pm) {
        scan_actuator_exec(s, &value)
    } else if same(&key, &pn) {
        s.probe_trigger_known = true;
        s.probe_triggered = contains_char(&value, 'P');
        Ok(s)
    } else if same(&key, &abn) {
        scan_abnormal_exec(s, &value)
    } else {
        Ok(s)
    }
}

} // verus!

verus! {

proof fn lemma_scan_error(start: Scan, fields: Seq<Seq<char>>, k: int)
    requires
        0 <= k <= fields.len(),
        scan_fields(start, fields.take(k)) is Err,
    ensures
        scan_fields(start, fields) == scan_fields(start, fields.take(k)),
    decreases fields.len() - k,
{
    if k < fields.len() {
        assert(fields.take(k + 1).drop_last() =~= fields.take(k));
        lemma_scan_error(start, fields, k + 1);
    } else {
        assert(fields.take(k) =~= fields);
    }
}

pub open spec fn record_view(r: Result<Record, ParseError>) -> Result<RecordView, ParseErrorView> {
    match r {
        Ok(v) => Ok(v@),
        Err(e) => Err(e@),
    }
}

#[verifier::loop_isolation(false)]
fn status_exec(s: &[char]) -> (r: Result<Record, ParseError>)
    ensures
        record_view(r) == status_body(s@),
{
    let parts = split_exec(s, '|');
    if parts[0].len() == 0 {
        return Err(ParseError::MissingState);
    }
    let m_pos = vec![vec!['0'], vec!['0'], vec!['0'], vec!['0']];
    assert(m_pos@[0]@ =~= seq!['0']);
    assert(m_pos@[1]@ =~= seq!['0']);
    assert(m_pos@[2]@ =~= seq!['0']);
    assert(m_pos@[3]@ =~= seq!['0']);
    assert(views(m_pos@) =~= seq![seq!['0'], seq!['0'], seq!['0'], seq!['0']]);
    let mut scan = Scanner {
        mode: slice(&parts[0], 0, parts[0].len()),
        m_pos: m_pos,
        w_pos: None,
        wcs: 0,
        tool: 0,
        spindle_mode: 0,
        probe_actuator: 0,
        probe_actuator_known: false,
        probe_trigger_known: false,
        probe_triggered: false,
        door_open: false,
        motion_blocked: false,
        decimals: Vec::new(),
        have_pos: false,
        have_w: false,
        have_t: false,
        have_m: false,
        have_g: false,
        compact: None,
    };
    let ghost start = initial_scan(parts@[0]@);
    let ghost fields = views(parts@).drop_first();
    assert(scan@.status.m_pos =~= start.status.m_pos);
    assert(scan@.status.decimals =~= start.status.decimals);
    assert(scan@.status.mode =~= start.status.mode);
    assert(scan@.status == start.status);
    assert(scan@ == start);
    assert(fields.take(0) =~= Seq::<Seq<char>>::empty());
    let mut j: usize = 1;
    while j < parts.len()
        invariant
            1 <= j <= parts.len(),
            fields.len() == parts.len() - 1,
            scan_fields(start, fields.take(j - 1)) == Ok::<Scan, ParseErrorView>(scan@),
        decreases parts.len() - j,
    {
        let ghost ws = fields.take(j as int);
        assert(ws.drop_last() =~= fields.take(j - 1));
        assert(ws.last() == parts@[j as int]@);
        match scan_field_exec(scan, &parts[j]) {
            Err(e) => {
                proof {
                    lemma_scan_error(start, fields, j as int);
                }
                return Err(e);
            },
            Ok(next) => {
                scan = next;
            },
        }
        j += 1;
    }
    assert(fields.take(fields.len() as int) =~= fields);
    if !scan.have_pos {
        return Err(ParseError::MissingMPos);
    }
    let known = scan.probe_actuator_known || scan.compact.is_some();
    let actuator = if !scan.probe_actuator_known && scan.compact.is_some() {
        match scan.compact {
            Some(a) => a,
            None => 0,
        }
    } else {
        scan.probe_actuator
    };
    let alarm = vec!['A', 'l', 'a', 'r', 'm', ':'];
    assert(alarm@ =~= alarm_prefix());
    let blocked = scan.motion_blocked || (starts_with_exec(&scan.mode, &alarm) && !scan.door_open);
    let complete = scan.have_w && scan.have_t && scan.have_m && scan.have_g && 54 <= scan.wcs
        && scan.wcs <= 59 && scan.tool >= 0;
    let w_pos = match &scan.w_pos {
        Some(w) => Some(strings_of(w)),
        None => None,
    };
    Ok(
        Record::Status(
            MachineStatus {
                mode: string_of(&scan.mode),
                m_pos: strings_of(&scan.m_pos),
                w_pos: w_pos,
                complete: complete,
                wcs: scan.wcs,
                tool: scan.tool,
                spindle_mode: scan.spindle_mode,
                probe_actuator: actuator,
                probe_actuator_known: known,
                probe_trigger_known: scan.probe_trigger_known,
                probe_triggered: scan.probe_triggered,
                door_open: scan.door_open,
                motion_blocked: blocked,
                decimals: strings_of(&scan.decimals),
            },
        ),
    )
}

pub open spec fn line_view(r: Result<Option<Record>, ParseError>) -> Result<
    Option<RecordView>,
    ParseErrorView,
> {
    match r {
        Ok(Some(v)) => Ok(Some(v@)),
        Ok(None) => Ok(None),
        Err(e) => Err(e@),
    }
}

fn wrap(r: Result<Record, ParseError>) -> (w: Result<Option<Record>, ParseError>)
    ensures
        line_view(w) == match record_view(r) {
            Ok(v) => Ok::<Option<RecordView>, ParseErrorView>(Some(v)),
            Err(e) => Err(e),
        },
{
    match r {
        Ok(v) => Ok(Some(v)),
        Err(e) => Err(e),
    }
}

fn record_exec(line: &[char]) -> (r: Result<Option<Record>, ParseError>)
    ensures
        line_view(r) == record_of(line@),
{
    let ok = vec!['o', 'k'];
    let error = vec!['e', 'r', 'r', 'o', 'r', ':'];
    let gc = vec!['[', 'G', 'C', ':'];
    let prb = vec!['[', 'P', 'R', 'B', ':'];
    let probe = vec!['[', 'P', 'R', 'O', 'B', 'E', ':'];
    let lt = vec!['<'];
    let dollar = vec!['$'];
    let rb = vec![']'];
    let gt = vec!['>'];
    assert(ok@ =~= seq!['o', 'k']);
    assert(error@ =~= error_prefix());
    assert(gc@ =~= gc_prefix());
    assert(prb@ =~= prb_prefix());
    assert(probe@ =~= probe_prefix());
    assert(lt@ =~= seq!['<']);
    assert(dollar@ =~= seq!['$']);
    assert(rb@ =~= seq![']']);
    assert(gt@ =~= seq!['>']);
    if same(line, &ok) {
        return Ok(Some(Record::Ack));
    }
    if starts_with_exec(line, &error) {
        return match number_i32_exec(&slice(line, 6, line.len())) {
            Err(e) => Err(e),
            Ok(n) => Ok(Some(Record::Error(n))),
        };
    }
    if starts_with_exec(line, &gc) {
        return match strip_suffix_exec(&slice(line, 4, line.len()), &rb) {
            None => Err(ParseError::MissingClosingBracket),
            Some(body) => Ok(Some(Record::Modes(modes_exec(&words_exec(&body))))),
        };
    }
    let is_prb = starts_with_exec(line, &prb);
    if is_prb || starts_with_exec(line, &probe) {
        let rest = if is_prb {
            slice(line, 5, line.len())
        } else {
            slice(line, 7, line.len())
        };
        return match strip_suffix_exec(&rest, &rb) {
            None => Err(ParseError::MissingClosingBracket),
            Some(body) => wrap(probe_exec(&body)),
        };
    }
    if starts_with_exec(line, &lt) {
        return match strip_suffix_exec(&slice(line, 1, line.len()), &gt) {
            None => Err(ParseError::MissingClosingBracket),
            Some(body) => wrap(status_exec(&body)),
        };
    }
    if starts_with_exec(line, &dollar) {
        return match split_once_exec(&slice(line, 1, line.len()), '=') {
            Some((key, value)) => match number_i32_exec(&key) {
                Ok(k) => match finite_text_exec(&value) {
                    Err(e) => Err(e),
                    Ok(_) => Ok(Some(Record::Setting(k, string_of(&value)))),
                },
                Err(_) => Ok(None),
            },
            None => Ok(None),
        };
    }
    Ok(None)
}

/// Parses one line of controller output. Surrounding white space is ignored
/// and a `[SerialReport:n] ` number is checked and dropped; a line that is
/// no known record gives `Ok(None)`.
pub fn parse_line(line: &str) -> (r: Result<Option<Record>, ParseError>)
    ensures
        line_view(r) == parsed(line@),
{
    let chars = chars_of(line);
    let t = trim_exec(&chars);
    match unwrap_serial_exec(t) {
        Err(e) => Err(e),
        Ok(body) => record_exec(&body),
    }
}

pub open spec fn error_text(e: ParseErrorView) -> Seq<char> {
    match e {
        ParseErrorView::InvalidNumber(s) => "invalid number: "@ + s,
        ParseErrorView::NonFiniteNumber => "non-finite number"@,
        ParseErrorView::InvalidReportPrefix => "invalid report prefix"@,
        ParseErrorView::MissingClosingBracket => "missing closing bracket"@,
        ParseErrorView::MissingProbeResult => "missing probe result"@,
        ParseErrorView::TooManyProbeValues => "too many probe result values"@,
        ParseErrorView::ExpectedFourCoordinates => "expected four coordinates"@,
        ParseErrorView::MissingState => "missing state"@,
        ParseErrorView::InvalidActuatorState => "invalid actuator state"@,
        ParseErrorView::InvalidAbnormalList => "invalid abnormal list"@,
        ParseErrorView::MissingMPos => "missing MPos"@,
    }
}

impl ParseError {
    /// The operator-facing text of the error.
    pub fn message(&self) -> (r: String)
        ensures
            r@ == error_text(self@),
    {
        match self {
            ParseError::InvalidNumber(s) => {
                let mut v = chars_of("invalid number: ");
                let t = chars_of(s.as_str());
                let ghost prefix = v@;
                let mut i: usize = 0;
                while i < t.len()
                    invariant
                        i <= t.len(),
                        v@ == prefix + t@.take(i as int),
                    decreases t.len() - i,
                {
                    v.push(t[i]);
                    i += 1;
                    assert(v@ =~= prefix + t@.take(i as int));
                }
                assert(t@.take(t.len() as int) =~= t@);
                string_of(&v)
            },
            ParseError::NonFiniteNumber => "non-finite number".to_owned(),
            ParseError::InvalidReportPrefix => "invalid report prefix".to_owned(),
            ParseError::MissingClosingBracket => "missing closing bracket".to_owned(),
            ParseError::MissingProbeResult => "missing probe result".to_owned(),
            ParseError::TooManyProbeValues => "too many probe result values".to_owned(),
            ParseError::ExpectedFourCoordinates => "expected four coordinates".to_owned(),
            ParseError::MissingState => "missing state".to_owned(),
            ParseError::InvalidActuatorState => "invalid actuator state".to_owned(),
            ParseError::InvalidAbnormalList => "invalid abnormal list".to_owned(),
            ParseError::MissingMPos => "missing MPos".to_owned(),
        }
    }
}

} // verus!
