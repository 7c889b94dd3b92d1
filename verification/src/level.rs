//! Diagnostic severities and their mapping to the renderer's coarser set.

use vstd::prelude::*;

verus! {

/// Severity of a diagnostic or of a single annotation.
///
/// The variants are listed in rendering order: `Bug`, `Fatal` and `Error`
/// render as errors, `Warning` as a warning, the note kinds as notes, the
/// help kinds as help, and `Allow` as plain information.
#[derive(Clone, Copy, Debug, PartialEq, Eq, Structural)]
pub enum Level {
    Bug,
    Fatal,
    Error,
    Warning,
    Note,
    OnceNote,
    FailureNote,
    Help,
    OnceHelp,
    Allow,
}

/// The renderer-facing severity set: coarser than [`Level`].
#[derive(Clone, Copy, Debug, PartialEq, Eq, Structural)]
pub enum RenderLevel {
    Error,
    Warning,
    Note,
    Help,
    Info,
}

/// The mapping from [`Level`] down to [`RenderLevel`], as a specification.
pub open spec fn spec_render_level(level: Level) -> RenderLevel {
    match level {
        Level::Bug | Level::Fatal | Level::Error => RenderLevel::Error,
        Level::Warning => RenderLevel::Warning,
        Level::Note | Level::OnceNote | Level::FailureNote => RenderLevel::Note,
        Level::Help | Level::OnceHelp => RenderLevel::Help,
        Level::Allow => RenderLevel::Info,
    }
}

/// Maps a severity down to the renderer's coarser severity set.
pub fn to_render_level(level: Level) -> (r: RenderLevel)
    ensures
        r == spec_render_level(level),
{
    match level {
        Level::Bug | Level::Fatal | Level::Error => RenderLevel::Error,
        Level::Warning => RenderLevel::Warning,
        Level::Note | Level::OnceNote | Level::FailureNote => RenderLevel::Note,
        Level::Help | Level::OnceHelp => RenderLevel::Help,
        Level::Allow => RenderLevel::Info,
    }
}

} // verus!
