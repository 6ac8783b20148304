//! A pane's status as the event loop tracks it: OSC 133 shell-integration
//! markers set it explicitly, and for panes that never speak the protocol
//! an activity heuristic calls fresh output working and a long silence a
//! request for attention. Also what a pane's exit does to the session.

use vstd::prelude::*;
use crate::escape::{osc133_scan, scan_osc133};
use crate::status::PaneStatus;

verus! {

/// How long a pane without shell integration must stay silent before it
/// is taken to want attention (ms): long enough that a compiler pausing
/// between crates does not flicker, short enough that a finished agent
/// surfaces quickly.
pub const QUIET_AFTER_MS: u64 = 4000;

/// What a pane tracks: whether it has spoken OSC 133, and its status.
#[derive(Debug, Clone, Copy, PartialEq, Eq, Structural)]
pub struct PaneActivity {
    pub saw_osc133: bool,
    pub status: PaneStatus,
}

/// The pane after output `bytes`: the last OSC 133 marker in them sets
/// the status and hands the pane to the protocol for good; without one,
/// fresh output from a protocol-less pane means it is working, and a pane
/// owned by the protocol keeps its status.
pub open spec fn after_output_spec(a: PaneActivity, bytes: Seq<u8>) -> PaneActivity {
    match osc133_scan(bytes, 0, None) {
        Some(st) => PaneActivity { saw_osc133: true, status: st },
        None => if a.saw_osc133 {
            a
        } else {
            PaneActivity { saw_osc133: false, status: PaneStatus::Running }
        },
    }
}

/// Track a chunk of a pane's output.
pub fn after_output(a: PaneActivity, bytes: &[u8]) -> (r: PaneActivity)
    ensures
        r == after_output_spec(a, bytes@),
{
    match scan_osc133(bytes) {
        Some(st) => PaneActivity { saw_osc133: true, status: st },
        None => if a.saw_osc133 {
            a
        } else {
            PaneActivity { saw_osc133: false, status: PaneStatus::Running }
        },
    }
}

/// The pane once `quiet_ms` have passed since its last output: a pane
/// owned by the protocol is left alone; any other is working until it has
/// been quiet for `QUIET_AFTER_MS`, and wants attention after that.
pub open spec fn after_quiet_spec(a: PaneActivity, quiet_ms: u64) -> PaneActivity {
    if a.saw_osc133 {
        a
    } else if quiet_ms >= QUIET_AFTER_MS {
        PaneActivity { saw_osc133: false, status: PaneStatus::Idle }
    } else {
        PaneActivity { saw_osc133: false, status: PaneStatus::Running }
    }
}

/// Apply the activity heuristic.
pub fn after_quiet(a: PaneActivity, quiet_ms: u64) -> (r: PaneActivity)
    ensures
        r == after_quiet_spec(a, quiet_ms),
{
    if a.saw_osc133 {
        a
    } else if quiet_ms >= QUIET_AFTER_MS {
        PaneActivity { saw_osc133: false, status: PaneStatus::Idle }
    } else {
        PaneActivity { saw_osc133: false, status: PaneStatus::Running }
    }
}

/// Explicit status beats the heuristic from the first marker on: once a
/// pane has spoken OSC 133 it stays owned by the protocol, silence never
/// changes its status, and output changes it only through a marker.
pub proof fn the_protocol_owns_a_pane_from_its_first_marker(a: PaneActivity, bytes: Seq<u8>, quiet_ms: u64)
    requires
        a.saw_osc133,
    ensures
        after_quiet_spec(a, quiet_ms) == a,
        after_output_spec(a, bytes).saw_osc133,
        osc133_scan(bytes, 0, None) is None ==> after_output_spec(a, bytes) == a,
{
}

/// What a pane's process exiting does to the session.
#[derive(Debug, Clone, Copy, PartialEq, Eq, Structural)]
pub enum ExitAction {
    /// The last pane is gone: gwae quits.
    Quit,
    /// Close the pane in the layout, as closing it by hand would.
    Close,
    /// The pane had already left the layout: only drop its handle.
    Drop,
}

/// Decide what a pane's exit does, with `total` panes in the layout and
/// whether the layout still holds this one.
pub fn exit_action(total: usize, in_layout: bool) -> (r: ExitAction)
    ensures
        r == (if in_layout && total <= 1 {
            ExitAction::Quit
        } else if in_layout {
            ExitAction::Close
        } else {
            ExitAction::Drop
        }),
{
    if in_layout && total <= 1 {
        ExitAction::Quit
    } else if in_layout {
        ExitAction::Close
    } else {
        ExitAction::Drop
    }
}

/// A pane without shell integration is working while its output is fresh
/// and wants attention once it has been silent four seconds: its status
/// only ever turns from working to waiting as silence grows, never back.
pub proof fn silence_turns_a_working_pane_into_a_waiting_one(a: PaneActivity, q1: u64, q2: u64)
    requires
        !a.saw_osc133,
        q1 <= q2,
    ensures
        q1 < 4000 ==> after_quiet_spec(a, q1).status == PaneStatus::Running,
        q1 >= 4000 ==> after_quiet_spec(a, q1).status == PaneStatus::Idle,
        after_quiet_spec(a, q1).status == PaneStatus::Idle ==> after_quiet_spec(a, q2).status == PaneStatus::Idle,
        !after_quiet_spec(a, q1).saw_osc133,
{
}

} // verus!
