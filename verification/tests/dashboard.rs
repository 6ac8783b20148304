use gwae::cell::{Cell, Color};
use gwae::dashboard::{
    draw_minimap, gutter, hud_map_width, hud_pane_at, paint_center_minimap, plan_center_minimap, MapCell, MiniMap,
    MinimapConfig, TileInks,
};
use gwae::grid::{Column, Focus, Layout, PaneInfo, Strip};
use gwae::panels::Palette;
use gwae::status::PaneStatus;

fn pal() -> Palette {
    Palette {
        base: Color::Idx(234),
        surface: Color::Idx(236),
        overlay: Color::Idx(240),
        text: Color::Idx(252),
        muted: Color::Idx(245),
        accent: Color::Idx(1),
        label: Color::Idx(238),
        running: Color::Idx(2),
        idle: Color::Rgb(250, 250, 250),
        done: Color::Idx(4),
        failed: Color::Idx(9),
        running_muted: Color::Idx(22),
        idle_muted: Color::Idx(58),
        done_muted: Color::Idx(24),
        failed_muted: Color::Idx(52),
    }
}

fn inks() -> TileInks {
    TileInks {
        accent: Color::Rgb(255, 255, 255),
        running: Color::Rgb(0, 0, 0),
        idle: Color::Rgb(0, 0, 0),
        done: Color::Rgb(0, 0, 0),
        failed: Color::Rgb(255, 255, 255),
    }
}

fn strip(id: u64, cols: &[&[u64]]) -> Strip {
    Strip { id, name: String::new(), scroll_x: 0, columns: cols.iter().map(|c| Column { panes: c.to_vec() }).collect() }
}

fn layout() -> Layout {
    Layout {
        rows: vec![strip(1, &[&[1], &[2]]), strip(2, &[&[3]])],
        focus: Focus { row: 1, column: 0, pane: 0 },
        panes: vec![
            PaneInfo { id: 1, status: PaneStatus::Running },
            PaneInfo { id: 2, status: PaneStatus::Idle },
            PaneInfo { id: 3, status: PaneStatus::Done },
        ],
    }
}

fn tile(x: u16, y: u16, w: u16, column: usize, pane: u64, status: PaneStatus, focus_col: bool, focus_row: bool) -> MapCell {
    MapCell { x, y, w, column, pane_idx: 0, pane, status, focus_col, focus_row }
}

fn map() -> MiniMap {
    MiniMap {
        width: 10,
        height: 2,
        cells: vec![
            tile(0, 0, 5, 0, 1, PaneStatus::Running, true, true),
            tile(5, 0, 5, 1, 2, PaneStatus::Idle, false, true),
            tile(0, 1, 10, 0, 3, PaneStatus::Done, false, false),
        ],
    }
}

fn mm() -> MinimapConfig {
    MinimapConfig { show: true, max_width: 60, max_rows: 8, show_counts: true }
}

#[test]
fn gutter_labels_number_the_strips() {
    let (labels, w) = gutter(12);
    assert_eq!(labels[0], "1");
    assert_eq!(labels[11], "12");
    assert_eq!(w, 2);
    assert_eq!(gutter(0).1, 0);
}

#[test]
fn map_width_is_tight_to_the_widest_strip() {
    assert_eq!(hud_map_width(100, 30, &layout(), &mm()), Some(10));
    assert_eq!(hud_map_width(19, 30, &layout(), &mm()), None, "too narrow");
    assert_eq!(hud_map_width(100, 7, &layout(), &mm()), None, "too short");
    let single = Layout { rows: vec![strip(1, &[&[1]])], focus: Focus { row: 1, column: 0, pane: 0 }, panes: vec![PaneInfo { id: 1, status: PaneStatus::Running }] };
    assert_eq!(hud_map_width(100, 30, &single, &mm()), None, "nothing to triage");
    let capped = MinimapConfig { max_width: 7, ..mm() };
    assert_eq!(hud_map_width(100, 30, &layout(), &capped), Some(7));
}

#[test]
fn the_plan_centers_the_panel_and_resolves_clicks_to_panes() {
    let plan = plan_center_minimap(100, 30, &layout(), &mm(), map(), &vec![None, None]).unwrap();
    assert_eq!((plan.rect.x, plan.rect.y, plan.rect.w, plan.rect.h), (43, 12, 14, 5));
    assert_eq!(plan.row_y, vec![13, 14]);
    assert_eq!(plan.ruler_y, vec![None, None]);
    assert_eq!(plan.map_ox, 46);
    assert_eq!(plan.tally_y, Some(15));
    assert_eq!((plan.inner_w, plan.inner_ox, plan.hidden, plan.gutter_w), (12, 44, 0, 1));
    assert_eq!(hud_pane_at(&plan, 46, 13), Some(1));
    assert_eq!(hud_pane_at(&plan, 51, 13), Some(2));
    assert_eq!(hud_pane_at(&plan, 46, 14), Some(3));
    assert_eq!(hud_pane_at(&plan, 60, 13), None);
    assert_eq!(hud_pane_at(&plan, 46, 20), None);
}

#[test]
fn overflowing_strips_get_a_ruler_row_under_their_tiles() {
    let plan = plan_center_minimap(100, 30, &layout(), &mm(), map(), &vec![Some((0, 0)), None]).unwrap();
    assert_eq!(plan.row_y, vec![13, 15]);
    assert_eq!(plan.ruler_y, vec![Some(14), None]);
    assert_eq!(plan.rect.h, 6);
    let none_shown = MinimapConfig { max_rows: 0, ..mm() };
    assert!(plan_center_minimap(100, 30, &layout(), &none_shown, map(), &vec![None, None]).is_none());
    assert!(plan_center_minimap(14, 30, &layout(), &mm(), map(), &vec![None, None]).is_none(), "too narrow");
}

#[test]
fn painting_the_dashboard_draws_gutter_tiles_and_tally() {
    let plan = plan_center_minimap(100, 30, &layout(), &mm(), map(), &vec![Some((0, 0)), None]).unwrap();
    let mut out = vec![Cell::default(); 100 * 30];
    paint_center_minimap(&mut out, 100, 30, &layout(), &plan, &pal(), &inks(), None, None);
    let at = |x: usize, y: usize| out[y * 100 + x];
    assert_eq!(at(43, 12).ch, '╭');
    assert_eq!(at(44, 13).ch, '1');
    assert_eq!(at(44, 13).style.fg, Color::Idx(1), "focused strip label in the accent");
    assert!(at(44, 13).style.bold);
    assert_eq!(at(46, 13).ch, '»');
    assert_eq!(at(46, 13).style.fg, Color::Idx(2), "glyph keeps its tint on a neutral fill");
    assert_eq!(at(51, 13).ch, '!');
    assert_eq!(at(51, 13).style.bg, Color::Rgb(250, 250, 250));
    assert_eq!(at(51, 13).style.fg, Color::Rgb(0, 0, 0));
    assert_eq!(at(52, 13).ch, '2');
    assert_eq!(at(46, 14).ch, '─', "ruler under the visible column");
    assert_eq!(at(50, 14).ch, '─');
    assert_eq!(at(51, 14).ch, ' ');
    let tally: String = (45..55).map(|x| at(x, 16).ch).collect();
    assert_eq!(tally, "3 »1 !1 ✓1");
    assert!(at(45, 16).style.bold);
}

#[test]
fn the_corner_map_sits_bottom_right_with_a_chevron_and_tally() {
    let mut out = vec![Cell::default(); 40 * 10];
    draw_minimap(&mut out, 40, 10, &layout(), &mm(), &pal(), &map());
    let row = |y: usize| -> String { (0..40).map(|x| out[y * 40 + x].ch).collect() };
    assert_eq!(&row(8)[29..].chars().collect::<String>(), "❯1   »2   !");
    assert_eq!(out[8 * 40 + 30].style.bg, Color::Idx(1));
    assert_eq!(out[8 * 40 + 30].style.fg, Color::Idx(231));
    assert!(out[8 * 40 + 30].style.bold);
    assert_eq!(out[8 * 40 + 35].style.bg, Color::Idx(58));
    let tally: String = (30..40).map(|x| out[7 * 40 + x].ch).collect();
    assert_eq!(tally, "3 »1 !1 ✓1");
    let mut off = vec![Cell::default(); 40 * 10];
    draw_minimap(&mut off, 40, 10, &layout(), &MinimapConfig { show: false, ..mm() }, &pal(), &map());
    assert_eq!(off, vec![Cell::default(); 400]);
}

#[test]
fn the_dashboard_never_paints_outside_its_own_rect() {
    for (cols, rows) in [(20u16, 8u16), (24, 9), (40, 10), (80, 24), (200, 60)] {
        let mark = Cell { ch: '#', ..Cell::default() };
        let mut out = vec![mark; cols as usize * rows as usize];
        let rulers = vec![Some((0, 0)), None];
        if let Some(plan) = plan_center_minimap(cols, rows, &layout(), &mm(), map(), &rulers) {
            let r = plan.rect;
            assert!(r.x + r.w <= cols && r.y + r.h <= rows);
            paint_center_minimap(&mut out, cols, rows, &layout(), &plan, &pal(), &inks(), Some("awake"), Some("DEV"));
            for y in 0..rows {
                for x in 0..cols {
                    let inside = x >= r.x && y >= r.y && x < r.x + r.w && y < r.y + r.h;
                    if !inside {
                        assert_eq!(out[y as usize * cols as usize + x as usize], mark, "({x},{y}) at {cols}x{rows}");
                    }
                }
            }
        }
    }
}

#[test]
fn badges_stamp_the_dashboard_frame_only_when_given() {
    let plan = plan_center_minimap(100, 30, &layout(), &mm(), map(), &vec![None, None]).unwrap();
    for (keep_awake, dev) in [(false, false), (true, false), (false, true), (true, true)] {
        let mut out = vec![Cell::default(); 100 * 30];
        paint_center_minimap(
            &mut out,
            100,
            30,
            &layout(),
            &plan,
            &pal(),
            &inks(),
            if keep_awake { Some("awake") } else { None },
            if dev { Some("DEV") } else { None },
        );
        let row = |y: usize| -> String { (0..100).map(|x| out[y * 100 + x].ch).collect() };
        let top = row(plan.rect.y as usize);
        let bottom = row((plan.rect.y + plan.rect.h - 1) as usize);
        assert_eq!(top.contains("awake"), keep_awake, "{top}");
        assert_eq!(bottom.contains("DEV"), dev, "{bottom}");
        if keep_awake {
            // Centered across the 14-wide frame at x 43: (14 - 5) / 2 = 4.
            assert_eq!(out[plan.rect.y as usize * 100 + 47].ch, 'a');
            assert_eq!(out[plan.rect.y as usize * 100 + 47].style.fg, Color::Idx(1));
            assert!(out[plan.rect.y as usize * 100 + 47].style.bold);
        }
    }
}

#[test]
fn the_cut_off_note_is_clipped_to_a_narrow_panel() {
    let three = Layout {
        rows: vec![strip(1, &[&[1]]), strip(2, &[&[2]]), strip(3, &[&[3]])],
        focus: Focus { row: 1, column: 0, pane: 0 },
        panes: vec![
            PaneInfo { id: 1, status: PaneStatus::Running },
            PaneInfo { id: 2, status: PaneStatus::Idle },
            PaneInfo { id: 3, status: PaneStatus::Done },
        ],
    };
    let narrow = MiniMap {
        width: 2,
        height: 3,
        cells: vec![
            tile(0, 0, 2, 0, 1, PaneStatus::Running, true, true),
            tile(0, 1, 2, 0, 2, PaneStatus::Idle, false, false),
            tile(0, 2, 2, 0, 3, PaneStatus::Done, false, false),
        ],
    };
    let cfg = MinimapConfig { show: true, max_width: 2, max_rows: 1, show_counts: false };
    let (cols, rows) = (40u16, 8u16);
    let rulers = vec![None, None, None];
    let plan = plan_center_minimap(cols, rows, &three, &cfg, narrow, &rulers).expect("fits");
    assert!(plan.hidden > 0);
    let mark = Cell { ch: '#', ..Cell::default() };
    let mut out = vec![mark; cols as usize * rows as usize];
    paint_center_minimap(&mut out, cols, rows, &three, &plan, &pal(), &inks(), None, None);
    let r = plan.rect;
    for y in 0..rows {
        for x in 0..cols {
            let inside = x >= r.x && y >= r.y && x < r.x + r.w && y < r.y + r.h;
            if !inside {
                assert_eq!(out[y as usize * cols as usize + x as usize], mark, "({x},{y}) outside {r:?}");
            }
        }
    }
    // The note starts at the inner left edge and stops at the frame.
    let note_y = (r.y + r.h - 2) as usize;
    let line: String = (plan.inner_ox..plan.inner_ox + plan.inner_w).map(|x| out[note_y * cols as usize + x].ch).collect();
    let full = format!("\u{22ef} +{} strips", plan.hidden);
    assert!(full.starts_with(&line) || line.starts_with('\u{22ef}'), "{line:?}");
    assert_eq!(out[note_y * cols as usize + (r.x + r.w - 1) as usize].ch, '│', "the frame survives");
}
