use gwae::grid::Column;
use gwae::view::{
    clamped_pane_point, focused_pane_views, focused_pane_views_with_chrome, pane_at, pane_window,
    visible_column_range, PaneScroll,
};

fn cols_of(stacks: &[&[u64]]) -> Vec<Column> {
    stacks.iter().map(|s| Column { panes: s.to_vec() }).collect()
}

#[test]
fn pane_window_shows_leading_content() {
    assert_eq!(pane_window(0, 0, 80, 240), Some((0, 80)));
}

#[test]
fn pane_scroll_reveals_overflow() {
    assert_eq!(pane_window(0, 10, 80, 240), Some((10, 90)));
}

#[test]
fn pane_scroll_clamps_to_content_end() {
    assert_eq!(pane_window(0, 200, 80, 240), Some((200, 240)));
}

#[test]
fn pane_scroll_beyond_content_is_clipped() {
    assert_eq!(pane_window(0, 250, 80, 240), None);
}

#[test]
fn offscreen_column_is_clipped() {
    assert_eq!(pane_window(240, 0, 80, 240), None);
}

#[test]
fn pane_window_rejects_negative_starts_and_empty_windows() {
    assert_eq!(pane_window(5, -6, 10, 100), None);
    assert_eq!(pane_window(5, -5, 10, 100), Some((0, 10)));
    assert_eq!(pane_window(0, 0, 0, 100), None);
    assert_eq!(pane_window(65535, 1, 10, 65535), None);
}

#[test]
fn mouse_hit_test_maps_screen_cell_to_pane_grid() {
    // Two half-width columns on an 80-column screen.
    let ranges = vec![(0, 40), (40, 80)];
    let columns = cols_of(&[&[1], &[2]]);
    let views = focused_pane_views(&ranges, &columns, &vec![], 80, 24, 0, false);
    assert_eq!(views.len(), 2);
    let (pid, gx, gy) = pane_at(&views, 5, 3).expect("hit left pane");
    assert_eq!(pid, views[0].pid);
    assert_eq!((gx, gy), (5, 3));
    let (pid, gx, gy) = pane_at(&views, 45, 7).expect("hit right pane");
    assert_eq!(pid, views[1].pid);
    assert_eq!((gx, gy), (45 - views[1].rect.x, 7));
    assert!(pane_at(&views, 79, 3).is_some());
    assert!(pane_at(&views, 200, 3).is_none());
    assert!(pane_at(&views, 5, 200).is_none());
}

#[test]
fn a_vertical_stack_tiles_the_full_strip_at_any_pane_count() {
    let (cols, rows) = (80u16, 40u16);
    for p in 1..=12usize {
        let ids: Vec<u64> = (1..=p as u64).collect();
        let columns = vec![Column { panes: ids }];
        let ranges = vec![(0, 80)];
        for inset in [false, true] {
            let views = focused_pane_views(&ranges, &columns, &vec![], cols, rows, 0, inset);
            assert_eq!(views.len(), p, "{p} panes, inset={inset}");
            let b = inset as u16;
            let inner_top = b;
            let inner_bottom = rows - b;
            assert_eq!(views[0].rect.y, inner_top, "{p} panes: stack starts at top");
            for w in views.windows(2) {
                assert_eq!(
                    w[1].rect.y,
                    w[0].rect.y + w[0].rect.h + 1,
                    "{p} panes, inset={inset}: one gap row between panes"
                );
            }
            let last = views.last().unwrap();
            assert_eq!(
                last.rect.y + last.rect.h,
                inner_bottom,
                "{p} panes, inset={inset}: stack reaches the bottom"
            );
            let hs: Vec<u16> = views.iter().map(|v| v.rect.h).collect();
            let (lo, hi) = (*hs.iter().min().unwrap(), *hs.iter().max().unwrap());
            assert!(hi - lo <= 1, "{p} panes: heights {hs:?} are balanced");
            for v in &views {
                assert_eq!(v.grid_rows, v.rect.h);
            }
        }
    }
}

#[test]
fn drag_outside_a_pane_clamps_to_its_edges() {
    let ranges = vec![(0, 40), (40, 80)];
    let columns = cols_of(&[&[1], &[2]]);
    let views = focused_pane_views(&ranges, &columns, &vec![], 80, 24, 0, false);
    let left = views[0].pid;
    let r = views[0].rect;
    assert_eq!(clamped_pane_point(&views, left, 5, 3), Some((left, 5, 3)));
    let (pid, gx, gy) = clamped_pane_point(&views, left, 200, 3).unwrap();
    assert_eq!(pid, left);
    assert_eq!(gx, r.w - 1);
    assert_eq!(gy, 3);
    let (_, _, gy) = clamped_pane_point(&views, left, 5, 200).unwrap();
    assert_eq!(gy, r.h - 1);
    assert_eq!(clamped_pane_point(&views, left, 0, 0), Some((left, 0, 0)));
    let gone: u64 = 9999;
    assert_eq!(clamped_pane_point(&views, gone, 5, 3), None);
}

#[test]
fn inset_views_sit_inside_the_frame_and_the_last_pulls_in_its_edge() {
    let ranges = vec![(0, 40), (40, 80)];
    let columns = cols_of(&[&[1], &[2]]);
    let views = focused_pane_views(&ranges, &columns, &vec![], 80, 24, 0, true);
    assert_eq!(views.len(), 2);
    assert_eq!((views[0].rect.x, views[0].rect.w), (1, 39));
    assert_eq!((views[1].rect.x, views[1].rect.w), (41, 38));
    assert_eq!((views[0].rect.y, views[0].rect.h), (1, 22));
    assert_eq!(views[1].grid_cols, 38);
}

#[test]
fn views_carry_content_scroll_width_and_clipping() {
    // A column half scrolled off the left edge, with content scrolled too.
    let ranges = vec![(-30, 50), (50, 130)];
    let columns = cols_of(&[&[7], &[8]]);
    let scrolls = vec![PaneScroll { pid: 7, h_scroll: 4 }];
    let views = focused_pane_views_with_chrome(&ranges, &columns, &scrolls, 80, 24, 200, false, 2);
    assert_eq!(views.len(), 2);
    assert_eq!(views[0].rect.x, 0);
    assert_eq!(views[0].col_x0, 30);
    assert_eq!(views[0].h_scroll, 4);
    assert_eq!(views[0].grid_cols, 200);
    assert_eq!(views[0].rect.h, 22);
    assert_eq!((views[1].rect.x, views[1].rect.w), (50, 30));
    assert_eq!(views[1].h_scroll, 0);
    // A range with no column behind it, or fully off screen, shows nothing.
    let views = focused_pane_views(&vec![(0, 40), (90, 120)], &cols_of(&[&[1], &[2]]), &vec![], 80, 24, 0, false);
    assert_eq!(views.len(), 1);
}

#[test]
fn visible_column_range_names_the_columns_on_screen() {
    let ranges: Vec<(u32, u32)> = vec![(0, 40), (40, 80), (80, 120), (120, 160)];
    assert_eq!(visible_column_range(&ranges, 0, 80), Some((0, 1)));
    assert_eq!(visible_column_range(&ranges, 60, 80), Some((1, 3)));
    // Scrolling past the end is clamped to the last screenful.
    assert_eq!(visible_column_range(&ranges, 500, 80), Some((2, 3)));
    assert_eq!(visible_column_range(&ranges, -10, 80), Some((0, 1)));
    // A strip that fits has nothing to point out.
    assert_eq!(visible_column_range(&ranges, 0, 160), None);
    assert_eq!(visible_column_range(&vec![], 0, 80), None);
}

#[test]
fn four_quarter_columns_keep_their_content_inside_the_frames() {
    // 342 columns do not divide by four: the quarter boxes are uneven, and
    // the last one must still stop at the screen's last column.
    let ranges = vec![(0, 85), (85, 171), (171, 256), (256, 342)];
    let columns = cols_of(&[&[1], &[2], &[3, 4], &[5]]);
    let views = focused_pane_views(&ranges, &columns, &vec![], 342, 8, 0, true);
    assert_eq!(views.len(), 5);
    for v in &views {
        let (s, e) = ranges[v.col];
        assert!(s + 1 <= v.rect.x as i32, "{:?}", v);
        assert!(v.rect.x as i32 + v.rect.w as i32 <= e, "{:?}", v);
        assert!(v.rect.x + v.rect.w < 342, "{:?}", v);
    }
    assert_eq!(views[4].rect.x + views[4].rect.w, 341);
}
