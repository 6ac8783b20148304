use gwae::cell::{Cell, Color, Style};
use gwae::frame::FrameCanvas;
use gwae::render::{
    cursor_spot, pane_row, paint_cursor, skeleton_outlines, Outline, OutlineShape, Placeholder,
    SkeletonInput, P_CHROME, P_FOCUS_COL, P_FOCUS_PANE,
};
use gwae::view::{PaneView, Rect};

const SK: Color = Color::Idx(240);
const FOCUS: Color = Color::Idx(1);

fn input(ranges: Vec<(i32, i32)>, live: usize, focus: usize, stacks: Vec<usize>, views: Vec<PaneView>) -> SkeletonInput {
    SkeletonInput {
        cols: 80,
        strip_h: 24,
        ranges,
        live,
        focus_column: focus,
        stacks,
        views,
        chrome_color: SK,
        focus_color: FOCUS,
    }
}

fn ring(x: u16, w: u16, color: Color, prio: u8) -> Outline {
    Outline { shape: OutlineShape::Ring(Rect { x, y: 0, w, h: 24 }), color, prio }
}

#[test]
fn two_live_columns_share_their_boundary_and_focus_is_accented() {
    let inp = input(vec![(0, 40), (40, 80)], 2, 0, vec![1, 1], vec![]);
    let (outlines, holders) = skeleton_outlines(&inp, 24, None);
    assert_eq!(outlines, vec![ring(0, 41, FOCUS, P_FOCUS_COL), ring(40, 40, SK, P_CHROME)]);
    assert!(holders.is_empty());
}

#[test]
fn empty_right_side_gets_placeholder_boxes_and_offscreen_ones_are_skipped() {
    let inp = input(vec![(0, 40), (40, 80), (80, 120)], 1, 0, vec![1], vec![]);
    let (outlines, holders) = skeleton_outlines(&inp, 24, None);
    assert_eq!(outlines, vec![ring(0, 41, FOCUS, P_FOCUS_COL), ring(40, 40, SK, P_CHROME)]);
    assert_eq!(holders, vec![Placeholder { rect: Rect { x: 40, y: 0, w: 40, h: 24 }, column: 2, ordinal: 0 }]);
}

fn view(pid: u64, col: usize, y: u16, h: u16) -> PaneView {
    PaneView { pid, col, rect: Rect { x: 1, y, w: 38, h }, col_x0: 0, h_scroll: 0, grid_cols: 38, grid_rows: h }
}

#[test]
fn a_split_focused_column_keeps_chrome_and_rings_the_focused_pane() {
    let views = vec![view(1, 0, 1, 10), view(2, 0, 12, 11)];
    let inp = input(vec![(0, 40)], 1, 0, vec![2], views);
    let focus_rect = Some(Rect { x: 1, y: 12, w: 38, h: 11 });
    let (outlines, _) = skeleton_outlines(&inp, 24, focus_rect);
    assert_eq!(
        outlines,
        vec![
            ring(0, 41, SK, P_CHROME),
            Outline { shape: OutlineShape::Rule { x0: 0, x1: 40, y: 11 }, color: SK, prio: P_CHROME },
            Outline { shape: OutlineShape::Ring(Rect { x: 0, y: 11, w: 40, h: 13 }), color: FOCUS, prio: P_FOCUS_PANE },
        ]
    );
    // Drawn and flushed, the gap rule tees into the column frame and the
    // focus ring owns the edges it shares.
    let mut canvas = FrameCanvas::new(80, 24);
    canvas.draw_outlines(&outlines);
    let mut out = vec![Cell::default(); 80 * 24];
    canvas.flush(&mut out);
    assert_eq!(out[11 * 80].ch, '├');
    assert_eq!(out[11 * 80].style.fg, FOCUS);
    assert_eq!(out[5 * 80].style.fg, SK);
}

#[test]
fn pane_rows_clip_cut_wide_glyphs_and_invert_the_selection() {
    let wide = Cell { ch: '你', width: 2, ..Cell::default() };
    let cont = Cell { ch: ' ', width: 0, ..Cell::default() };
    let a = Cell { ch: 'a', ..Cell::default() };
    // A continuation at the left edge and a head at the right edge are blanked.
    let row = vec![cont, a, a, wide];
    let out = pane_row(&row, 4, &vec![]);
    assert_eq!(out.iter().map(|c| c.ch).collect::<String>(), " aa ");
    assert_eq!(out[0].width, 1);
    assert_eq!(out[3].width, 1);
    // Past the window the row is blank; a selected cell is inverted.
    let out = pane_row(&vec![a], 3, &vec![false, true]);
    assert_eq!(out[0], a);
    assert!(out[1].style.inverse);
    assert_eq!(out[2], Cell::default());
}

#[test]
fn cursor_shows_only_when_live_and_inside_the_window() {
    let rect = Rect { x: 10, y: 2, w: 20, h: 5 };
    assert_eq!(cursor_spot(1, 7, true, 5, 25, rect), Some((12, 3)));
    assert_eq!(cursor_spot(1, 7, false, 5, 25, rect), None);
    assert_eq!(cursor_spot(1, 4, true, 5, 25, rect), None);
    assert_eq!(cursor_spot(5, 7, true, 5, 25, rect), None);
}

#[test]
fn the_cursor_block_inverts_its_cell_but_never_a_hairline() {
    let mut out = vec![Cell { ch: 'x', ..Cell::default() }, Cell { ch: '│', ..Cell::default() }];
    paint_cursor(&mut out, 2, 1, 0, 0, false);
    assert!(out[0].style.inverse);
    paint_cursor(&mut out, 2, 1, 1, 0, false);
    assert_eq!(out[1].style, Style::default());
    let before = out.clone();
    paint_cursor(&mut out, 2, 1, 0, 0, true);
    assert_eq!(out, before, "a hidden cursor paints nothing");
}
