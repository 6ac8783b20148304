use gwae::cell::{Cell, Color, Style};
use gwae::panels::Palette;
use gwae::status::PaneStatus;
use gwae::ticks::draw_edge_ticks;

fn pal() -> Palette {
    Palette {
        base: Color::Idx(234),
        surface: Color::Idx(236),
        overlay: Color::Idx(240),
        text: Color::Idx(252),
        muted: Color::Idx(245),
        accent: Color::Idx(1),
        label: Color::Idx(238),
        running: Color::Idx(2),
        idle: Color::Idx(3),
        done: Color::Idx(4),
        failed: Color::Idx(9),
        running_muted: Color::Idx(22),
        idle_muted: Color::Idx(58),
        done_muted: Color::Idx(24),
        failed_muted: Color::Idx(52),
    }
}

#[test]
fn bottom_ticks_mark_column_edges_and_flag_attention() {
    let p = pal();
    let mut out = vec![Cell::default(); 30];
    let ticks = vec![(0, PaneStatus::Running), (4, PaneStatus::Idle), (20, PaneStatus::Failed)];
    let strips = vec![(true, false), (false, true), (false, false), (false, false)];
    draw_edge_ticks(&mut out, 10, 3, &ticks, 0, &strips, &p);
    // The focused column's tick is in the accent.
    assert_eq!(out[20].style.bg, p.accent);
    assert_eq!(out[20].style.fg, Color::Idx(231));
    // A column waiting for input: its muted tint, and `!` beside it.
    assert_eq!(out[24].style.bg, p.idle_muted);
    assert_eq!(out[25].ch, '!');
    assert_eq!(out[25].style.bg, p.idle_muted);
    // A box starting off screen is clamped to the last column, with no room
    // for its glyph; the right-edge mark of the bottom strip recolors it.
    assert_eq!(out[29].ch, ' ');
    assert_eq!(out[29].style.bg, p.overlay);
    // Right-edge strip marks: focused, wanting attention, plain.
    assert_eq!(out[9].style.bg, p.accent);
    assert_eq!(out[19].style.bg, p.idle_muted);
    // Nothing else changed.
    assert_eq!(out[0], Cell::default());
    assert_eq!(out[21], Cell::default());
}

#[test]
fn the_attention_glyph_never_covers_colored_cells() {
    let p = pal();
    let mut out = vec![Cell::default(); 10];
    out[5] = Cell { ch: 'x', style: Style { bg: Color::Idx(5), ..Style::default() }, ..Cell::default() };
    draw_edge_ticks(&mut out, 10, 1, &vec![(4, PaneStatus::Failed)], 1, &vec![], &p);
    assert_eq!(out[4].style.bg, p.failed_muted);
    assert_eq!(out[5].ch, 'x');
}

#[test]
fn an_empty_screen_gets_no_ticks() {
    let p = pal();
    let mut out: Vec<Cell> = vec![];
    draw_edge_ticks(&mut out, 0, 5, &vec![(0, PaneStatus::Idle)], 0, &vec![(true, true)], &p);
    assert!(out.is_empty());
}
