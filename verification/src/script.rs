//! Streaming a routine's review script while the routine runs.
//!
//! Every script line belongs to a step of the routine: `-1` before the
//! first step, then the index of the step, then the steps after the last.
//! As a step runs, its lines are shown in order: before each submitted
//! command, the lines up to and including that command; after a stage, the
//! declarations of the values it measured; at the end of the step, whatever
//! of it is left. These functions say how far each of those reaches.
use vstd::prelude::*;

verus! {

/// How streaming treats a script line.
#[derive(Debug, Clone, Copy, PartialEq, Eq, Structural)]
pub enum LineKind {
    /// A line that the controller receives.
    Command,
    /// A value that a stage has measured, shown once it is known.
    Declaration,
    /// An explanation.
    Comment,
}

/// A script line as streaming sees it.
#[derive(Debug, Clone, Copy, PartialEq, Eq, Structural)]
pub struct ScriptLine {
    pub step: isize,
    pub kind: LineKind,
}

/// How a line written out as literal text is streamed: a `;` comment is an
/// explanation, any other text a command.
pub fn literal_kind(text: &str) -> (k: LineKind)
    ensures
        k == if text@.len() > 0 && text@[0] == ';' {
            LineKind::Comment
        } else {
            LineKind::Command
        },
{
    let c = crate::text::chars_of(text);
    if c.len() > 0 && c[0] == ';' {
        LineKind::Comment
    } else {
        LineKind::Command
    }
}

/// The end of the lines shown before the next command of `step`: from
/// `from`, the lines of the step up to and including its first command.
pub open spec fn command_end(lines: Seq<ScriptLine>, from: int, step: isize) -> int
    decreases lines.len() - from,
{
    if from < 0 || from >= lines.len() || lines[from].step != step {
        from
    } else if lines[from].kind == LineKind::Command {
        from + 1
    } else {
        command_end(lines, from + 1, step)
    }
}

/// The end of the declarations of `step` that follow `from`.
pub open spec fn declarations_end(lines: Seq<ScriptLine>, from: int, step: isize) -> int
    decreases lines.len() - from,
{
    if from < 0 || from >= lines.len() || lines[from].step != step || lines[from].kind
        != LineKind::Declaration {
        from
    } else {
        declarations_end(lines, from + 1, step)
    }
}

/// The end of the lines of `step` that follow `from`.
pub open spec fn step_end(lines: Seq<ScriptLine>, from: int, step: isize) -> int
    decreases lines.len() - from,
{
    if from < 0 || from >= lines.len() || lines[from].step != step {
        from
    } else {
        step_end(lines, from + 1, step)
    }
}

/// The lines from `from` to `command_end` all belong to the step, and only
/// the last of them can be a command.
pub proof fn lemma_command_span(lines: Seq<ScriptLine>, from: int, step: isize)
    requires
        0 <= from <= lines.len(),
    ensures
        from <= command_end(lines, from, step) <= lines.len(),
        forall|i: int|
            from <= i < command_end(lines, from, step) ==> #[trigger] lines[i].step == step,
        forall|i: int|
            from <= i < command_end(lines, from, step) - 1 ==> #[trigger] lines[i].kind
                != LineKind::Command,
    decreases lines.len() - from,
{
    if from < lines.len() && lines[from].step == step && lines[from].kind != LineKind::Command {
        lemma_command_span(lines, from + 1, step);
    }
}

/// The lines of a step are shown once and in order: the span of a command
/// and the declarations after it never run past the end of the step.
pub proof fn lemma_spans_stay_in_step(lines: Seq<ScriptLine>, from: int, step: isize)
    requires
        0 <= from <= lines.len(),
    ensures
        from <= command_end(lines, from, step) <= step_end(lines, from, step) <= lines.len(),
        from <= declarations_end(lines, from, step) <= step_end(lines, from, step),
        step_end(lines, step_end(lines, from, step), step) == step_end(lines, from, step),
    decreases lines.len() - from,
{
    if from < lines.len() && lines[from].step == step {
        lemma_spans_stay_in_step(lines, from + 1, step);
    }
}

/// Where the lines shown before the next command of `step` end; the
/// command, if the step has one left, is the last of them.
pub fn command_span(lines: &[ScriptLine], from: usize, step: isize) -> (end: usize)
    requires
        from <= lines.len(),
    ensures
        end == command_end(lines@, from as int, step),
{
    let mut i = from;
    while i < lines.len() && lines[i].step == step
        invariant
            from <= i <= lines.len(),
            command_end(lines@, from as int, step) == command_end(lines@, i as int, step),
        decreases lines.len() - i,
    {
        if lines[i].kind == LineKind::Command {
            return i + 1;
        }
        i += 1;
    }
    i
}

/// Where the declarations of `step` that follow `from` end.
pub fn declarations_span(lines: &[ScriptLine], from: usize, step: isize) -> (end: usize)
    requires
        from <= lines.len(),
    ensures
        end == declarations_end(lines@, from as int, step),
{
    let mut i = from;
    while i < lines.len() && lines[i].step == step && lines[i].kind == LineKind::Declaration
        invariant
            from <= i <= lines.len(),
            declarations_end(lines@, from as int, step) == declarations_end(
                lines@,
                i as int,
                step,
            ),
        decreases lines.len() - i,
    {
        i += 1;
    }
    i
}

/// Where the lines of `step` that follow `from` end.
pub fn step_span(lines: &[ScriptLine], from: usize, step: isize) -> (end: usize)
    requires
        from <= lines.len(),
    ensures
        end == step_end(lines@, from as int, step),
{
    let mut i = from;
    while i < lines.len() && lines[i].step == step
        invariant
            from <= i <= lines.len(),
            step_end(lines@, from as int, step) == step_end(lines@, i as int, step),
        decreases lines.len() - i,
    {
        i += 1;
    }
    i
}

} // verus!
