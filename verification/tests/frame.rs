use gwae::cell::{Cell, Color, Style};
use gwae::frame::{draw_focus_frame, put_frame_cell, FrameCanvas};
use gwae::view::Rect;

fn dot() -> Cell {
    Cell { ch: '.', ..Cell::default() }
}

fn glyphs(out: &[Cell], cols: usize, y: usize) -> String {
    (0..cols).map(|x| out[y * cols + x].ch).collect()
}

#[test]
fn draw_focus_frame_rings_the_rect() {
    let mut out = vec![dot(); 25];
    let accent = Color::Idx(36);
    draw_focus_frame(&mut out, 5, Rect { x: 1, y: 1, w: 3, h: 3 }, accent);
    let cell = |x: usize, y: usize| out[y * 5 + x];
    assert_eq!(cell(1, 1).ch, '╭');
    assert_eq!(cell(3, 1).ch, '╮');
    assert_eq!(cell(1, 3).ch, '╰');
    assert_eq!(cell(3, 3).ch, '╯');
    assert_eq!(cell(2, 1).ch, '─');
    assert_eq!(cell(2, 3).ch, '─');
    assert_eq!(cell(1, 2).ch, '│');
    assert_eq!(cell(3, 2).ch, '│');
    for (x, y) in [(1, 1), (2, 1), (1, 2), (3, 2), (2, 3), (3, 3)] {
        assert_eq!(cell(x, y).style.fg, accent);
        assert_eq!(cell(x, y).style.bg, Color::Default);
    }
    assert_eq!(cell(2, 2).ch, '.');
    assert_eq!(cell(2, 2).style.fg, Color::Default);
    assert_eq!(cell(0, 0).ch, '.');
    assert_eq!(cell(0, 2).ch, '.');
}

#[test]
fn draw_focus_frame_single_cell_rect() {
    let mut out = vec![Cell::default(); 1];
    draw_focus_frame(&mut out, 1, Rect { x: 0, y: 0, w: 1, h: 1 }, Color::Idx(1));
    assert_eq!(out[0].ch, '─');
    assert_eq!(out[0].style.fg, Color::Idx(1));
}

#[test]
fn focus_frame_resets_the_ring_background_and_attributes() {
    let styled = Cell {
        ch: 'x',
        style: Style { fg: Color::Idx(2), bg: Color::Idx(235), bold: true, underline: true, inverse: true },
        ..Cell::default()
    };
    let mut out = vec![styled; 9];
    draw_focus_frame(&mut out, 3, Rect { x: 0, y: 0, w: 3, h: 3 }, Color::Idx(9));
    assert_eq!(out[0].style, Style { fg: Color::Idx(9), bg: Color::Default, bold: false, underline: false, inverse: false });
    assert_eq!(out[4], styled);
}

#[test]
fn frame_glyph_blanks_the_orphaned_half_of_a_wide_glyph() {
    let wide = Cell { ch: '你', width: 2, ..Cell::default() };
    let cont = Cell { ch: ' ', width: 0, ..Cell::default() };
    // Overwriting the head blanks the continuation after it.
    let mut out = vec![wide, cont, dot()];
    put_frame_cell(&mut out, 0, '│', Color::Idx(4));
    assert_eq!(out[0].ch, '│');
    assert_eq!(out[0].width, 1);
    assert_eq!(out[1], Cell::default());
    assert_eq!(out[2], dot());
    // Overwriting the continuation blanks the head before it.
    let mut out = vec![dot(), wide, cont];
    put_frame_cell(&mut out, 2, '│', Color::Idx(4));
    assert_eq!(out[1], Cell::default());
    assert_eq!(out[2].ch, '│');
    // Past the buffer nothing happens.
    let mut out = vec![dot(); 2];
    put_frame_cell(&mut out, 5, '│', Color::Idx(4));
    assert_eq!(out, vec![dot(); 2]);
}

#[test]
fn adjacent_boxes_share_one_rule_with_tees() {
    let mut canvas = FrameCanvas::new(7, 3);
    canvas.rect(Rect { x: 0, y: 0, w: 4, h: 3 }, Color::Idx(8), 1);
    canvas.rect(Rect { x: 3, y: 0, w: 4, h: 3 }, Color::Idx(8), 1);
    let mut out = vec![Cell::default(); 21];
    canvas.flush(&mut out);
    assert_eq!(glyphs(&out, 7, 0), "╭──┬──╮");
    assert_eq!(glyphs(&out, 7, 1), "│  │  │");
    assert_eq!(glyphs(&out, 7, 2), "╰──┴──╯");
}

#[test]
fn focus_owns_a_shared_edge_whichever_box_is_drawn_last() {
    for focus_first in [true, false] {
        let mut canvas = FrameCanvas::new(7, 3);
        let focus = (Rect { x: 0, y: 0, w: 4, h: 3 }, Color::Idx(1), 2u8);
        let plain = (Rect { x: 3, y: 0, w: 4, h: 3 }, Color::Idx(8), 1u8);
        let order = if focus_first { [focus, plain] } else { [plain, focus] };
        for (r, c, p) in order {
            canvas.rect(r, c, p);
        }
        let mut out = vec![Cell::default(); 21];
        canvas.flush(&mut out);
        assert_eq!(out[7 + 3].ch, '│');
        assert_eq!(out[7 + 3].style.fg, Color::Idx(1), "shared edge takes the focus color");
        assert_eq!(out[7 + 6].style.fg, Color::Idx(8));
        assert_eq!(out[7].style.fg, Color::Idx(1));
    }
}

#[test]
fn a_stacked_gap_rule_tees_into_the_column_frame() {
    let mut canvas = FrameCanvas::new(5, 5);
    canvas.rect(Rect { x: 0, y: 0, w: 5, h: 5 }, Color::Idx(8), 1);
    canvas.hline(0, 4, 2, Color::Idx(8), 1);
    let mut out = vec![Cell::default(); 25];
    canvas.flush(&mut out);
    assert_eq!(glyphs(&out, 5, 2), "├───┤");
}

#[test]
fn repainting_a_box_changes_nothing() {
    let mut once = FrameCanvas::new(4, 4);
    once.rect(Rect { x: 0, y: 0, w: 4, h: 4 }, Color::Idx(3), 1);
    let mut twice = FrameCanvas::new(4, 4);
    twice.rect(Rect { x: 0, y: 0, w: 4, h: 4 }, Color::Idx(3), 1);
    twice.rect(Rect { x: 0, y: 0, w: 4, h: 4 }, Color::Idx(5), 1);
    assert_eq!(once.edges, twice.edges, "an equal priority keeps the first color");
}

#[test]
fn an_empty_canvas_is_empty_and_a_ring_is_not() {
    let mut canvas = FrameCanvas::new(3, 3);
    assert!(canvas.is_empty());
    canvas.add(5, 5, 1, Color::Idx(1), 1);
    assert!(canvas.is_empty(), "off-screen contributions are dropped");
    canvas.vline(1, 0, 2, Color::Idx(1), 1);
    assert!(!canvas.is_empty());
}

#[test]
fn glyph_table_covers_corners_tees_and_lone_ends() {
    assert_eq!(FrameCanvas::glyph(0), None);
    assert_eq!(FrameCanvas::glyph(15), Some('┼'));
    assert_eq!(FrameCanvas::glyph(7), Some('├'));
    assert_eq!(FrameCanvas::glyph(13), Some('┤'));
    assert_eq!(FrameCanvas::glyph(14), Some('┬'));
    assert_eq!(FrameCanvas::glyph(11), Some('┴'));
    assert_eq!(FrameCanvas::glyph(6), Some('╭'));
    assert_eq!(FrameCanvas::glyph(12), Some('╮'));
    assert_eq!(FrameCanvas::glyph(3), Some('╰'));
    assert_eq!(FrameCanvas::glyph(9), Some('╯'));
    assert_eq!(FrameCanvas::glyph(1), Some('│'));
    assert_eq!(FrameCanvas::glyph(2), Some('─'));
}
