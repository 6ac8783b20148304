use gwae::cell::{Cell, Color, Style};
use gwae::panels::{
    dim_behind, draw_quit_confirm, draw_toast, draw_toast_at, stamp_dev_badge, stamp_keep_awake_badge, Palette,
};
use gwae::view::Rect;
use gwae::keys::{handle_key, Cmd, KeyCode, KeyEvent, Modifiers};

fn pal() -> Palette {
    Palette {
        base: Color::Idx(234),
        surface: Color::Idx(236),
        overlay: Color::Idx(240),
        text: Color::Idx(252),
        muted: Color::Idx(245),
        accent: Color::Idx(1),
        label: Color::Idx(238),
        running: Color::Idx(2),
        idle: Color::Idx(3),
        done: Color::Idx(4),
        failed: Color::Idx(9),
        running_muted: Color::Idx(22),
        idle_muted: Color::Idx(58),
        done_muted: Color::Idx(24),
        failed_muted: Color::Idx(52),
    }
}

fn row_text(out: &[Cell], cols: usize, y: usize) -> String {
    (0..cols).map(|x| out[y * cols + x].ch).collect()
}

#[test]
fn tui_toast_anchors_to_pane_bottom_left() {
    let (cols, rows) = (40u16, 10u16);
    let mut frame = vec![Cell::default(); cols as usize * rows as usize];
    let rect = Rect { x: 20, y: 2, w: 20, h: 5 };
    draw_toast_at(&mut frame, cols, rows, "copied 3 lines", &pal(), true, Some(rect));
    let row = row_text(&frame, cols as usize, 6);
    assert!(row.trim_start().starts_with("copied 3 lines"), "{row:?}");
    assert_eq!(row.find('c'), Some(21), "starts at the pane's left edge");
    let mut frame = vec![Cell::default(); cols as usize * rows as usize];
    draw_toast(&mut frame, cols, rows, "hi", &pal(), true);
    assert_eq!(frame[9 * cols as usize + 1].ch, 'h');
}

#[test]
fn chrome_toast_anchors_to_pane_bottom_left() {
    let (cols, rows) = (40u16, 10u16);
    let mut frame = vec![Cell::default(); cols as usize * rows as usize];
    let rect = Rect { x: 20, y: 2, w: 20, h: 5 };
    draw_toast_at(&mut frame, cols, rows, "copied 3 lines", &pal(), true, Some(rect));
    let row = row_text(&frame, cols as usize, 6);
    assert!(row.trim_start().starts_with("copied 3 lines"), "{row:?}");
    assert_eq!(row.find('c'), Some(21), "starts at the pane's left edge");
    let mut frame = vec![Cell::default(); cols as usize * rows as usize];
    draw_toast(&mut frame, cols, rows, "hi", &pal(), true);
    assert_eq!(frame[9 * cols as usize + 1].ch, 'h');
}

#[test]
fn toasts_clip_at_the_screen_edge_and_errors_use_the_failed_tint() {
    let (cols, rows) = (10u16, 2u16);
    let mut frame = vec![Cell::default(); 20];
    draw_toast(&mut frame, cols, rows, "config reload failed", &pal(), false);
    assert_eq!(row_text(&frame, 10, 1), " config re");
    assert_eq!(frame[11].style.fg, Color::Idx(9));
    assert_eq!(frame[11].style.bg, Color::Idx(236));
    assert_eq!(row_text(&frame, 10, 0), "          ");
    let mut narrow = vec![Cell::default(); 7];
    draw_toast(&mut narrow, 7, 1, "x", &pal(), true);
    assert_eq!(narrow, vec![Cell::default(); 7], "nothing on a screen under 8 columns");
}

#[test]
fn force_quit_panel_names_the_cost_and_the_keys() {
    let (cols, rows) = (80u16, 20u16);
    let mut out = vec![Cell::default(); 80 * 20];
    draw_quit_confirm(&mut out, cols, rows, 3, &pal(), "⌥+Shift+q");
    let all: Vec<String> = (0..20).map(|y| row_text(&out, 80, y)).collect();
    let title = all.iter().position(|r| r.contains("force quit gwae? 3 panes will be killed")).unwrap();
    assert!(all[title + 1].contains("running commands are terminated immediately"));
    assert!(all[title + 2].contains("⌥+Shift+q again or ⏎ quits   esc cancels"));
    assert!(all[title - 1].contains('╭'));
    let x = all[title].find('f').unwrap();
    let cell = out[title * 80 + all[title][..x].chars().count()];
    assert_eq!(cell.style.fg, Color::Idx(9));
    assert!(cell.style.bold);
    let corner = all[title - 1].chars().position(|c| c == '╭').unwrap();
    assert_eq!(out[(title - 1) * 80 + corner].style.fg, Color::Idx(9));
    let mut one = vec![Cell::default(); 80 * 20];
    draw_quit_confirm(&mut one, cols, rows, 1, &pal(), "q");
    let text: String = (0..20).map(|y| row_text(&one, 80, y)).collect();
    assert!(text.contains("1 pane will be killed"));
    let mut tiny = vec![Cell::default(); 20 * 5];
    draw_quit_confirm(&mut tiny, 20, 5, 2, &pal(), "q");
    assert_eq!(tiny, vec![Cell::default(); 100]);
}

#[test]
fn dimming_keeps_the_panel_and_darkens_everything_else() {
    let lit = Cell { ch: 'a', style: Style { fg: Color::Rgb(160, 32, 16), bg: Color::Idx(5), bold: true, ..Style::default() }, ..Cell::default() };
    let mut out = vec![lit; 9];
    dim_behind(&mut out, 3, 3, Rect { x: 1, y: 1, w: 1, h: 1 });
    assert_eq!(out[4], lit);
    assert_eq!(out[0].style.fg, Color::Rgb(90, 18, 9));
    assert_eq!(out[0].style.bg, Color::Idx(5));
    assert!(!out[0].style.bold);
    assert_eq!(out[0].ch, 'a');
}

#[test]
fn badges_are_stamped_centered_on_the_frame_rows() {
    let mut out = vec![Cell::default(); 20 * 4];
    let rect = Rect { x: 0, y: 0, w: 20, h: 4 };
    stamp_keep_awake_badge(&mut out, 20, rect, &pal(), " awake ");
    stamp_dev_badge(&mut out, 20, rect, &pal(), " DEV ");
    assert_eq!(row_text(&out, 20, 0), "       awake        ");
    assert_eq!(row_text(&out, 20, 3), "        DEV         ");
    assert!(out[8].style.bold);
    assert_eq!(out[8].style.fg, Color::Idx(1));
    let mut narrow = vec![Cell::default(); 6];
    stamp_keep_awake_badge(&mut narrow, 6, Rect { x: 0, y: 0, w: 6, h: 1 }, &pal(), "wide!");
    assert_eq!(narrow, vec![Cell::default(); 6], "a badge that does not fit is skipped");
}

#[test]
fn force_quit_chord_arms_a_centered_disclaimer() {
    let ev = KeyEvent::new(KeyCode::Char('q'), Modifiers::of(true, false, true));
    assert_eq!(handle_key(&ev), Some(Cmd::Quit));

    let cols: u16 = 80;
    let rows: u16 = 24;
    let chord = "⌥+Shift+q";
    let mut out = vec![Cell::default(); cols as usize * rows as usize];
    let p = pal();
    draw_quit_confirm(&mut out, cols, rows, 4, &p, chord);
    let lines: Vec<String> = (0..rows as usize).map(|y| row_text(&out, cols as usize, y)).collect();
    assert!(lines.iter().any(|s| s.contains("force quit gwae?")), "disclaimer names the action, got {lines:?}");
    assert!(lines.iter().any(|s| s.contains("4 panes will be killed")), "disclaimer names the cost, got {lines:?}");
    assert!(lines.iter().any(|s| s.contains(chord)), "disclaimer says how to confirm, got {lines:?}");
    assert!(lines.iter().any(|s| s.contains("esc cancels")), "disclaimer says how to back out, got {lines:?}");
    let painted: Vec<usize> = (0..rows as usize)
        .filter(|y| (0..cols as usize).any(|x| out[y * cols as usize + x].style.bg != Color::Default))
        .collect();
    assert!(out.iter().any(|c| c.ch == '╭') && out.iter().any(|c| c.ch == '╯'), "disclaimer is a framed box");
    let mid = rows as usize / 2;
    assert!(
        painted.first().is_some_and(|f| *f < mid) && painted.last().is_some_and(|l| *l > mid),
        "disclaimer straddles the screen center, painted {painted:?}"
    );
    let mut one = vec![Cell::default(); cols as usize * rows as usize];
    draw_quit_confirm(&mut one, cols, rows, 1, &p, chord);
    let text: String = one.iter().map(|c| c.ch).collect();
    assert!(text.contains("1 pane will be killed"), "singular pane count");
    let mut tiny = vec![Cell::default(); 10 * 4];
    draw_quit_confirm(&mut tiny, 10, 4, 3, &p, chord);
    assert!(tiny.iter().all(|c| c.style.bg == Color::Default), "no partial disclaimer may be painted");
}

#[test]
fn the_scrim_dims_around_the_panel_and_never_through_it() {
    let (cols, rows) = (40u16, 12u16);
    let bright = Color::Rgb(200, 200, 200);
    let lit = Cell {
        ch: 'x',
        style: Style { fg: bright, bg: bright, bold: true, ..Style::default() },
        width: 1,
        ..Cell::default()
    };
    let mut out = vec![lit; cols as usize * rows as usize];
    let keep = Rect { x: 10, y: 4, w: 8, h: 3 };
    dim_behind(&mut out, cols, rows, keep);
    let at = |x: u16, y: u16| out[y as usize * cols as usize + x as usize];
    assert_eq!(at(10, 4).style.bg, bright);
    assert_eq!(at(17, 6).style.bg, bright);
    assert!(at(12, 5).style.bold);
    for (x, y) in [(0u16, 0u16), (9, 4), (18, 6), (39, 11)] {
        let c = at(x, y);
        assert_ne!(c.style.bg, bright, "cell ({x},{y}) should be dimmed");
        assert_eq!(c.ch, 'x', "the scrim restyles, it does not erase");
        assert!(!c.style.bold, "bold would fight the scrim");
    }
}
