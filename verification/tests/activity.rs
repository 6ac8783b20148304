use gwae::activity::{after_output, after_quiet, exit_action, ExitAction, PaneActivity, QUIET_AFTER_MS};
use gwae::status::PaneStatus;

fn plain(status: PaneStatus) -> PaneActivity {
    PaneActivity { saw_osc133: false, status }
}

#[test]
fn a_plain_pane_works_while_it_prints_and_wants_attention_once_quiet() {
    let a = after_output(plain(PaneStatus::Idle), b"compiling...");
    assert_eq!(a, plain(PaneStatus::Running));
    assert_eq!(after_quiet(a, QUIET_AFTER_MS - 1), plain(PaneStatus::Running));
    assert_eq!(after_quiet(a, QUIET_AFTER_MS), plain(PaneStatus::Idle));
}

#[test]
fn the_protocol_owns_a_pane_from_its_first_marker() {
    let a = after_output(plain(PaneStatus::Running), b"\x1b]133;D;0\x07");
    assert_eq!(a, PaneActivity { saw_osc133: true, status: PaneStatus::Done });
    // Silence and plain output no longer move it.
    assert_eq!(after_quiet(a, 60_000), a);
    assert_eq!(after_output(a, b"more output"), a);
    // Only another marker does.
    let b = after_output(a, b"\x1b]133;C\x07");
    assert_eq!(b, PaneActivity { saw_osc133: true, status: PaneStatus::Running });
}

#[test]
fn the_last_pane_exiting_quits_gwae() {
    assert_eq!(exit_action(1, true), ExitAction::Quit);
    assert_eq!(exit_action(3, true), ExitAction::Close);
    assert_eq!(exit_action(3, false), ExitAction::Drop);
    assert_eq!(exit_action(1, false), ExitAction::Drop);
}
