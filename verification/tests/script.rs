use pimprobe::script::LineKind::{Command, Comment, Declaration};
use pimprobe::script::{command_span, declarations_span, literal_kind, step_span, LineKind, ScriptLine};

fn line(step: isize, kind: LineKind) -> ScriptLine {
    ScriptLine { step, kind }
}

fn script() -> Vec<ScriptLine> {
    vec![
        line(-1, Comment),
        line(-1, Command),
        line(0, Comment),
        line(0, Comment),
        line(0, Command),
        line(0, Declaration),
        line(0, Declaration),
        line(0, Command),
        line(0, Comment),
        line(1, Command),
    ]
}

#[test]
fn a_command_span_ends_after_the_next_command_of_the_step() {
    let s = script();
    assert_eq!(command_span(&s, 0, -1), 2);
    assert_eq!(command_span(&s, 2, 0), 5);
    assert_eq!(command_span(&s, 5, 0), 8);
    // No command left in the step: the rest of the step.
    assert_eq!(command_span(&s, 8, 0), 9);
    // Lines of another step are never shown early.
    assert_eq!(command_span(&s, 2, 1), 2);
    assert_eq!(command_span(&s, 10, 1), 10);
}

#[test]
fn declarations_follow_their_stage() {
    let s = script();
    assert_eq!(declarations_span(&s, 5, 0), 7);
    assert_eq!(declarations_span(&s, 4, 0), 4);
    assert_eq!(declarations_span(&s, 5, 1), 5);
}

#[test]
fn the_rest_of_a_step_stops_at_the_next_step() {
    let s = script();
    assert_eq!(step_span(&s, 2, 0), 9);
    assert_eq!(step_span(&s, 9, 1), 10);
    assert_eq!(step_span(&s, 0, 0), 0);
}

#[test]
fn literal_lines_are_commands_unless_commented() {
    assert_eq!(literal_kind("; probe X"), LineKind::Comment);
    assert_eq!(literal_kind("G90"), LineKind::Command);
    assert_eq!(literal_kind(""), LineKind::Command);
    assert_eq!(literal_kind(" ;x"), LineKind::Command);
}
