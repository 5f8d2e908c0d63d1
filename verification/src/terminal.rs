//! What the tool writes to its terminal, and where progress bars are drawn.

use vstd::prelude::*;
use vstd::string::StringExecFns;
use crate::text::str_eq;

verus! {

/// The ANSI escape that switches the terminal to a named bold color.
pub open spec fn spec_color_code(color: Seq<char>) -> Option<Seq<char>> {
    if color == "red"@ {
        Some("\x1B[1;31m"@)
    } else if color == "green"@ {
        Some("\x1B[1;32m"@)
    } else if color == "yellow"@ {
        Some("\x1B[1;33m"@)
    } else if color == "magenta"@ {
        Some("\x1B[1;35m"@)
    } else if color == "cyan"@ {
        Some("\x1B[1;36m"@)
    } else {
        None
    }
}

/// The ANSI escape for a named color (see `spec_color_code`).
pub fn color_code(color: &str) -> (res: Option<&'static str>)
    ensures
        match res {
            Some(c) => spec_color_code(color@) == Some(c@),
            None => spec_color_code(color@) is None,
        },
{
    if str_eq(color, "red") {
        Some("\x1B[1;31m")
    } else if str_eq(color, "green") {
        Some("\x1B[1;32m")
    } else if str_eq(color, "yellow") {
        Some("\x1B[1;33m")
    } else if str_eq(color, "magenta") {
        Some("\x1B[1;35m")
    } else if str_eq(color, "cyan") {
        Some("\x1B[1;36m")
    } else {
        None
    }
}

/// The text written for one message: the color's escape (for a known color), the
/// message, a newline if asked for, and the reset escape whenever a color was given.
pub open spec fn spec_terminal_text(output: Seq<char>, newline: bool, color: Option<Seq<char>>) -> Seq<char> {
    let start = match color {
        Some(c) => match spec_color_code(c) {
            Some(code) => code,
            None => Seq::empty(),
        },
        None => Seq::empty(),
    };
    let end_of_line = if newline { "\n"@ } else { Seq::empty() };
    let reset = if color is Some { "\x1B[0m"@ } else { Seq::empty() };
    start + output + end_of_line + reset
}

/// The model of an optional color name.
pub open spec fn color_view(color: Option<&str>) -> Option<Seq<char>> {
    match color {
        Some(c) => Some(c@),
        None => None,
    }
}

/// The text `terminal_write` emits for a message (see `spec_terminal_text`); the caller
/// writes it out, with any live progress bars suspended.
pub fn terminal_write(output: &str, newline: bool, color: Option<&str>) -> (res: String)
    ensures
        res@ == spec_terminal_text(output@, newline, color_view(color)),
{
    let mut text = String::new();
    if let Some(c) = color {
        if let Some(code) = color_code(c) {
            text.append(code);
        }
    }
    text.append(output);
    if newline {
        text.append("\n");
    }
    if color.is_some() {
        text.append("\x1B[0m");
    }
    assert(text@ =~= spec_terminal_text(output@, newline, color_view(color)));
    text
}

/// Where progress bars are drawn.
#[derive(Clone, Copy, Debug, PartialEq, Eq, Structural)]
pub enum DrawTargetKind {
    /// Standard output, shown only when it is a terminal.
    Stdout,
    /// Standard output, always shown (the tool's own embedded terminal is not a tty).
    ForcedStdout,
    /// Not drawn at all.
    Hidden,
}

/// The embedded terminal always shows progress; otherwise it is drawn only when the
/// output is interactive.
pub open spec fn spec_progress_target_kind(writer_is_interactive: bool, embedded_terminal: bool) -> DrawTargetKind {
    if embedded_terminal {
        DrawTargetKind::ForcedStdout
    } else if writer_is_interactive {
        DrawTargetKind::Stdout
    } else {
        DrawTargetKind::Hidden
    }
}

/// Where progress bars are drawn (see `spec_progress_target_kind`).
pub fn progress_target_kind(writer_is_interactive: bool, embedded_terminal: bool) -> (res: DrawTargetKind)
    ensures
        res == spec_progress_target_kind(writer_is_interactive, embedded_terminal),
{
    if embedded_terminal {
        DrawTargetKind::ForcedStdout
    } else if writer_is_interactive {
        DrawTargetKind::Stdout
    } else {
        DrawTargetKind::Hidden
    }
}

#[verifier::external_type_specification]
#[verifier::external_body]
pub struct ExProgressDrawTarget(indicatif::ProgressDrawTarget);

/// The kinds of draw target indicatif distinguishes (its private `TargetKind`): a
/// terminal, a boxed `TermLike`, a `MultiProgress`, or nothing.
#[derive(Clone, Copy, Debug, PartialEq, Eq, Structural)]
pub enum DrawTargetVariant {
    Term,
    TermLike,
    Multi,
    Hidden,
}

/// Which kind of target an indicatif draw target is, as its `kind` field records it.
pub uninterp spec fn draw_target_variant(target: indicatif::ProgressDrawTarget) -> DrawTargetVariant;

/// Calls `indicatif::ProgressDrawTarget::stdout()`. Claimed, from its source: the target
/// is a terminal target on buffered stdout, or the hidden target when stdout is not a
/// terminal (or the terminal is `dumb`); which of the two depends on the environment.
#[verifier::external_body]
fn draw_target_stdout() -> (res: indicatif::ProgressDrawTarget)
    ensures
        draw_target_variant(res) == DrawTargetVariant::Term || draw_target_variant(res) == DrawTargetVariant::Hidden,
{
    indicatif::ProgressDrawTarget::stdout()
}

/// Calls `indicatif::ProgressDrawTarget::term_like` on `console::Term::buffered_stdout()`.
/// Claimed, from its source: the target is a `TermLike` target, drawn on standard output
/// whether or not it is a terminal.
#[verifier::external_body]
fn draw_target_forced_stdout() -> (res: indicatif::ProgressDrawTarget)
    ensures
        draw_target_variant(res) == DrawTargetVariant::TermLike,
{
    indicatif::ProgressDrawTarget::term_like(Box::new(console::Term::buffered_stdout()))
}

/// Calls `indicatif::ProgressDrawTarget::hidden()`. Claimed, from its source: the target
/// is the hidden target.
#[verifier::external_body]
fn draw_target_hidden() -> (res: indicatif::ProgressDrawTarget)
    ensures
        draw_target_variant(res) == DrawTargetVariant::Hidden,
{
    indicatif::ProgressDrawTarget::hidden()
}

/// The kinds of indicatif target that can stand for a chosen kind: the embedded terminal
/// always gets a `TermLike` target on stdout; interactive output gets the stdout terminal
/// target (which indicatif itself hides when stdout turns out not to be a terminal);
/// anything else gets the hidden target.
pub open spec fn target_realizes(kind: DrawTargetKind, variant: DrawTargetVariant) -> bool {
    match kind {
        DrawTargetKind::ForcedStdout => variant == DrawTargetVariant::TermLike,
        DrawTargetKind::Stdout => variant == DrawTargetVariant::Term || variant == DrawTargetVariant::Hidden,
        DrawTargetKind::Hidden => variant == DrawTargetVariant::Hidden,
    }
}

/// The draw target for the live progress UI, of the kind `progress_target_kind` chooses
/// (see `target_realizes`).
pub fn progress_draw_target(writer_is_interactive: bool, embedded_terminal: bool) -> (res: indicatif::ProgressDrawTarget)
    ensures
        target_realizes(spec_progress_target_kind(writer_is_interactive, embedded_terminal), draw_target_variant(res)),
{
    match progress_target_kind(writer_is_interactive, embedded_terminal) {
        DrawTargetKind::ForcedStdout => draw_target_forced_stdout(),
        DrawTargetKind::Stdout => draw_target_stdout(),
        DrawTargetKind::Hidden => draw_target_hidden(),
    }
}

} // verus!
