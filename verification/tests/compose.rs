use gwae::cell::{Cell, Color};
use gwae::compose::{blank_frame, focused_pane_rect, render_frame, PaneContent};
use gwae::panels::Palette;
use gwae::render::SkeletonInput;
use gwae::grid::Column;
use gwae::view::{focused_pane_views, PaneView, Rect};

fn pal() -> Palette {
    Palette {
        base: Color::Idx(234),
        surface: Color::Idx(236),
        overlay: Color::Idx(240),
        text: Color::Idx(252),
        muted: Color::Idx(245),
        accent: Color::Idx(1),
        label: Color::Idx(238),
        running: Color::Idx(2),
        idle: Color::Idx(3),
        done: Color::Idx(4),
        failed: Color::Idx(9),
        running_muted: Color::Idx(22),
        idle_muted: Color::Idx(58),
        done_muted: Color::Idx(24),
        failed_muted: Color::Idx(52),
    }
}

fn view(pid: u64, x: u16, w: u16) -> PaneView {
    PaneView { pid, col: 0, rect: Rect { x, y: 1, w, h: 8 }, col_x0: 0, h_scroll: 0, grid_cols: w, grid_rows: 8 }
}

fn skeleton(ranges: Vec<(i32, i32)>, live: usize, views: Vec<PaneView>) -> SkeletonInput {
    let p = pal();
    SkeletonInput {
        cols: 40,
        strip_h: 10,
        ranges,
        live,
        focus_column: 0,
        stacks: vec![1; live],
        views,
        chrome_color: p.overlay,
        focus_color: p.accent,
    }
}

fn text_content(line: &str, w: usize) -> PaneContent {
    let mut row: Vec<Cell> = line.chars().map(|ch| Cell { ch, ..Cell::default() }).collect();
    row.resize(w, Cell::default());
    PaneContent {
        rows: vec![row],
        selected: vec![],
        cursor_row: 0,
        cursor_col: 2,
        hide_cursor: false,
        live: true,
    }
}

#[test]
fn blank_frame_is_the_themed_backdrop() {
    let out = blank_frame(3, 2, Color::Idx(7));
    assert_eq!(out.len(), 6);
    assert!(out.iter().all(|c| c.ch == ' ' && c.style.bg == Color::Idx(7)));
}

#[test]
fn a_live_pane_is_painted_framed_and_its_cursor_found() {
    let p = pal();
    let sk = skeleton(vec![(0, 20)], 1, vec![view(7, 1, 18)]);
    let contents = vec![Some(text_content("hey", 18))];
    let (out, cursor) = render_frame(40, 12, &p, &sk, &contents, Some(7), 1, &vec![], false);
    assert_eq!(out.len(), 40 * 12);
    // The pane's text lands at its rect.
    assert_eq!(out[40 + 1].ch, 'h');
    assert_eq!(out[40 + 3].ch, 'y');
    // The focused column's box is drawn in the accent.
    assert_eq!(out[0].ch, '╭');
    assert_eq!(out[0].style.fg, p.accent);
    assert_eq!(out[20].ch, '╮');
    assert_eq!(out[9 * 40].ch, '╰');
    // Outside every box the backdrop shows.
    assert_eq!(out[30].ch, ' ');
    assert_eq!(out[30].style.bg, p.base);
    // The cursor is at grid column 2 of row 0.
    assert_eq!(cursor, Some((3, 1, false)));
}

#[test]
fn an_unfocused_or_scrolled_pane_shows_no_cursor() {
    let p = pal();
    let sk = skeleton(vec![(0, 20)], 1, vec![view(7, 1, 18)]);
    let contents = vec![Some(text_content("hey", 18))];
    let (_, cursor) = render_frame(40, 12, &p, &sk, &contents, Some(8), 1, &vec![], false);
    assert_eq!(cursor, None);
    let mut scrolled = text_content("hey", 18);
    scrolled.live = false;
    let (_, cursor) = render_frame(40, 12, &p, &sk, &vec![Some(scrolled)], Some(7), 1, &vec![], false);
    assert_eq!(cursor, None);
}

#[test]
fn a_pane_without_an_emulator_leaves_the_backdrop() {
    let p = pal();
    let sk = skeleton(vec![(0, 20)], 1, vec![view(7, 1, 18)]);
    let (out, cursor) = render_frame(40, 12, &p, &sk, &vec![None], Some(7), 1, &vec![], false);
    assert_eq!(out[40 + 1].ch, ' ');
    assert_eq!(out[40 + 1].style.bg, p.base);
    assert_eq!(cursor, None);
}

#[test]
fn an_empty_box_shares_the_boundary_and_shows_its_art() {
    let p = pal();
    let sk = skeleton(vec![(0, 20), (20, 40)], 1, vec![view(7, 1, 18)]);
    let contents = vec![Some(text_content("hey", 18))];
    let arts = vec![vec!["moo".to_string()]];
    let (out, _) = render_frame(40, 12, &p, &sk, &contents, Some(7), 1, &arts, false);
    // The shared boundary is one rule with tee junctions.
    assert_eq!(out[20].ch, '┬');
    assert_eq!(out[9 * 40 + 20].ch, '┴');
    // The empty box's frame is plain chrome.
    assert_eq!(out[39].ch, '╮');
    assert_eq!(out[39].style.fg, p.overlay);
    // The art sits inside the box (x 21..39, y 1..9), below the blank row
    // that separates it from the label slot.
    let row: Vec<char> = (0..40).map(|x| out[5 * 40 + x].ch).collect();
    let at = row.windows(3).position(|w| w == ['m', 'o', 'o']).expect("art on row 5");
    assert!(at > 20 && at + 3 < 39);
    assert_eq!(out[5 * 40 + at].style.fg, p.label);
}

#[test]
fn an_empty_box_without_room_for_its_art_shows_its_label() {
    let p = pal();
    let sk = skeleton(vec![(0, 20), (20, 40)], 1, vec![view(7, 1, 18)]);
    let contents = vec![Some(text_content("hey", 18))];
    let (out, _) = render_frame(40, 12, &p, &sk, &contents, None, 3, &vec![], true);
    // The block-font label `3.2` lights pixels (blanks on the label
    // color) inside the empty box.
    let lit = (1..9).any(|y| (21..39).any(|x| out[y * 40 + x].style.bg == p.label));
    assert!(lit);
    // Without focus the live column still gets the accent of the focused
    // column index.
    assert_eq!(out[0].style.fg, p.accent);
}

#[test]
fn the_toast_anchor_is_the_focused_pane_rect() {
    let views = vec![view(3, 1, 10), view(4, 12, 10)];
    assert_eq!(focused_pane_rect(&views, Some(4)), Some(Rect { x: 12, y: 1, w: 10, h: 8 }));
    assert_eq!(focused_pane_rect(&views, Some(5)), None);
    assert_eq!(focused_pane_rect(&views, None), None);
}

#[test]
fn four_quarter_panes_render_to_the_screen_edge() {
    // 342 columns, the width that does not divide by four.
    let cols: u16 = 342;
    let rows: u16 = 8;
    let ranges = vec![(0, 85), (85, 171), (171, 256), (256, 342)];
    let columns: Vec<Column> = (1..=4u64).map(|p| Column { panes: vec![p] }).collect();
    let views = focused_pane_views(&ranges, &columns, &vec![], cols, rows, 0, true);
    let fills = ['A', 'B', 'C', 'D'];
    let contents: Vec<Option<PaneContent>> = views
        .iter()
        .map(|v| {
            let fill = fills[v.col];
            let row: Vec<Cell> = (0..v.grid_cols).map(|_| Cell { ch: fill, ..Cell::default() }).collect();
            Some(PaneContent {
                rows: vec![row; v.grid_rows as usize],
                selected: vec![],
                cursor_row: 0,
                cursor_col: 0,
                hide_cursor: true,
                live: true,
            })
        })
        .collect();
    let p = pal();
    let sk = SkeletonInput {
        cols,
        strip_h: rows,
        ranges: ranges.clone(),
        live: 4,
        focus_column: 0,
        stacks: vec![1; 4],
        views,
        chrome_color: p.overlay,
        focus_color: p.accent,
    };
    let (out, _) = render_frame(cols, rows, &p, &sk, &contents, Some(1), 1, &vec![], true);
    let row1 = cols as usize;
    for (i, (s, e)) in ranges.iter().enumerate() {
        for x in (*s + 1)..(*e - 1) {
            assert_eq!(out[row1 + x as usize].ch, fills[i], "screen x={x} must show pane {}", fills[i]);
        }
    }
    assert_eq!(out[cols as usize - 1].ch, '╮', "the rightmost frame reaches the screen edge");
    assert_eq!(out[row1 + cols as usize - 2].ch, 'D', "pane D's content runs up to its frame");
}

#[test]
fn selection_highlight_inverts_exactly_the_dragged_cells() {
    let (cols, rows) = (80u16, 24u16);
    let ranges = vec![(0, 80)];
    let columns = vec![Column { panes: vec![1] }];
    let views = focused_pane_views(&ranges, &columns, &vec![], cols, rows, 0, true);
    let v = views[0];
    let line = |t: &str| -> Vec<Cell> {
        let mut r: Vec<Cell> = t.chars().map(|ch| Cell { ch, ..Cell::default() }).collect();
        r.resize(v.grid_cols as usize, Cell::default());
        r
    };
    let mut selected = vec![vec![false; v.grid_cols as usize]; 2];
    for x in 0..=4 {
        selected[0][x] = true;
    }
    let content = PaneContent {
        rows: vec![line("hello world"), line("second line")],
        selected,
        cursor_row: 1,
        cursor_col: 11,
        hide_cursor: false,
        live: true,
    };
    let p = pal();
    let sk = SkeletonInput {
        cols,
        strip_h: rows,
        ranges: ranges.clone(),
        live: 1,
        focus_column: 0,
        stacks: vec![1],
        views,
        chrome_color: p.overlay,
        focus_color: p.accent,
    };
    let (out, _) = render_frame(cols, rows, &p, &sk, &vec![Some(content)], Some(1), 1, &vec![], false);
    let at = |x: u16, y: u16| out[(y + 1) as usize * cols as usize + (x + 1) as usize];
    for x in 0..=4u16 {
        assert!(at(x, 0).style.inverse, "cell {x} should be highlighted");
    }
    assert!(!at(5, 0).style.inverse, "past the drag end, not highlighted");
    assert!(!at(0, 1).style.inverse, "other rows untouched");
    assert_eq!(at(0, 0).ch, 'h');
    assert_eq!(at(4, 0).ch, 'o');
}
