//! What a pane is doing, as far as the user's attention is concerned.

use vstd::prelude::*;

verus! {

/// A pane's status: working on its own, waiting for input, finished, or
/// finished with an error.
#[derive(Debug, Clone, Copy, PartialEq, Eq, Structural)]
pub enum PaneStatus {
    Running,
    Idle,
    Done,
    Failed,
}

/// The single-width glyph a status is drawn with.
pub open spec fn status_glyph(s: PaneStatus) -> char {
    match s {
        PaneStatus::Running => '\u{00bb}',
        PaneStatus::Idle => '!',
        PaneStatus::Done => '\u{2713}',
        PaneStatus::Failed => '\u{2717}',
    }
}

/// The glyph for a status: `»` working, `!` wants input, `✓` done,
/// `✗` failed.
pub fn status_glyph_for(s: PaneStatus) -> (c: char)
    ensures
        c == status_glyph(s),
{
    match s {
        PaneStatus::Running => '\u{00bb}',
        PaneStatus::Idle => '!',
        PaneStatus::Done => '\u{2713}',
        PaneStatus::Failed => '\u{2717}',
    }
}

/// Whether a status asks for the user: a pane waiting for input or one
/// that failed.
pub open spec fn wants_attention(s: PaneStatus) -> bool {
    s == PaneStatus::Idle || s == PaneStatus::Failed
}

/// The glyphs are the documented ones (`»` working, `!` wants input, `✓`
/// done, `✗` failed), and no two statuses share one, so a tile's glyph
/// always tells its status.
pub proof fn each_status_has_its_own_glyph(a: PaneStatus, b: PaneStatus)
    ensures
        status_glyph(PaneStatus::Running) == '\u{00bb}',
        status_glyph(PaneStatus::Idle) == '!',
        status_glyph(PaneStatus::Done) == '\u{2713}',
        status_glyph(PaneStatus::Failed) == '\u{2717}',
        status_glyph(a) == status_glyph(b) ==> a == b,
{
}

} // verus!
