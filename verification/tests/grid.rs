use gwae::grid::{
    focused_pane, has_attention, layout_pane_count, layout_widest_strip, smart_jump_target,
    status_tally, strip_number, Column, Focus, Layout, PaneInfo, Strip,
};
use gwae::status::PaneStatus;

fn strip(id: u64, stacks: &[&[u64]]) -> Strip {
    Strip {
        id,
        name: String::new(),
        scroll_x: 0,
        columns: stacks.iter().map(|s| Column { panes: s.to_vec() }).collect(),
    }
}

/// Four panes in four columns of one strip, focus on the first, all running.
fn four() -> Layout {
    Layout {
        rows: vec![strip(1, &[&[1], &[2], &[3], &[4]])],
        focus: Focus { row: 1, column: 0, pane: 0 },
        panes: (1..=4).map(|id| PaneInfo { id, status: PaneStatus::Running }).collect(),
    }
}

fn set(l: &mut Layout, id: u64, s: PaneStatus) {
    for p in l.panes.iter_mut() {
        if p.id == id {
            p.status = s;
        }
    }
}

#[test]
fn smart_jump_prefers_failed_then_attention() {
    let mut layout = four();
    let ids: Vec<u64> = vec![1, 2, 3, 4];
    assert_eq!(smart_jump_target(&layout), None);
    set(&mut layout, ids[3], PaneStatus::Done);
    assert_eq!(smart_jump_target(&layout), Some(ids[3]));
    set(&mut layout, ids[2], PaneStatus::Idle);
    assert_eq!(smart_jump_target(&layout), Some(ids[2]), "attention beats done");
    set(&mut layout, ids[1], PaneStatus::Failed);
    assert_eq!(smart_jump_target(&layout), Some(ids[1]), "failed beats all");
    set(&mut layout, ids[0], PaneStatus::Failed);
    assert_eq!(smart_jump_target(&layout), Some(ids[1]));
}

#[test]
fn smart_jump_walks_forward_from_focus_and_wraps() {
    let mut layout = four();
    layout.focus.column = 2;
    set(&mut layout, 2, PaneStatus::Idle);
    set(&mut layout, 4, PaneStatus::Idle);
    // Nearer after the focused pane wins within a rank, wrapping around.
    assert_eq!(smart_jump_target(&layout), Some(4));
    set(&mut layout, 4, PaneStatus::Running);
    assert_eq!(smart_jump_target(&layout), Some(2));
    // A pane the layout has no status for is never a target.
    layout.panes.retain(|p| p.id != 2);
    assert_eq!(smart_jump_target(&layout), None);
}

#[test]
fn strip_number_tracks_position_not_row_id() {
    // Strip ids are allocation counters: the second strip may well be id 9.
    let mut layout = Layout {
        rows: vec![strip(1, &[&[1]]), strip(9, &[&[2]]), strip(14, &[&[3]])],
        focus: Focus { row: 1, column: 0, pane: 0 },
        panes: vec![],
    };
    assert_eq!(strip_number(&layout), 1);
    layout.focus.row = 9;
    assert_eq!(strip_number(&layout), 2);
    layout.focus.row = 14;
    assert_eq!(strip_number(&layout), 3);
    layout.focus.row = 77;
    assert_eq!(strip_number(&layout), 1);
}

#[test]
fn focused_pane_and_counts_follow_the_grid() {
    let mut layout = Layout {
        rows: vec![strip(3, &[&[10, 11], &[12]]), strip(4, &[&[13], &[14], &[15]])],
        focus: Focus { row: 3, column: 0, pane: 1 },
        panes: vec![],
    };
    assert_eq!(focused_pane(&layout), Some(11));
    layout.focus.pane = 2;
    assert_eq!(focused_pane(&layout), None);
    assert_eq!(layout_pane_count(&layout), 6);
    assert_eq!(layout_widest_strip(&layout), 3);
    let empty = Layout { rows: vec![], focus: Focus { row: 0, column: 0, pane: 0 }, panes: vec![] };
    assert_eq!(layout_widest_strip(&empty), 1);
    assert_eq!(layout_pane_count(&empty), 0);
}

#[test]
fn status_tally_counts_by_status_in_a_fixed_order() {
    let mut layout = four();
    set(&mut layout, 2, PaneStatus::Failed);
    set(&mut layout, 3, PaneStatus::Done);
    let t = status_tally(&layout);
    let got: Vec<(String, Option<PaneStatus>)> = t;
    assert_eq!(
        got,
        vec![
            ("4".to_string(), None),
            (" \u{bb}2".to_string(), Some(PaneStatus::Running)),
            (" \u{2713}1".to_string(), Some(PaneStatus::Done)),
            (" \u{2717}1".to_string(), Some(PaneStatus::Failed)),
        ]
    );
    assert!(has_attention(&layout));
    set(&mut layout, 2, PaneStatus::Done);
    assert!(!has_attention(&layout));
}
