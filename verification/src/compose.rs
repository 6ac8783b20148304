//! Composing the frame of the focused strip: the themed backdrop, every
//! visible pane's grid in its rect, the placeholder boxes of the empty
//! right side, and the skeleton of column frames merged into hairlines.

use vstd::prelude::*;
use crate::cell::{blank_cell, cell_index, lemma_cell_index, Cell, Color};
use crate::frame::{empty_edge, flushed_cell, FrameCanvas, FrameEdge};
use crate::panels::Palette;
use crate::placeholder::{
    art_view, art_width, clear_placeholder, draw_placeholder_contents, placeholder_cell, placeholder_label,
    placeholder_label_spec,
};
use crate::render::{
    column_placeholder, columns_outlines, columns_placeholders, cursor_spot, cursor_spot_spec, focus_ring, focused_split, fold_outlines,
    pane_cell, pane_row, skeleton_input_ok, skeleton_outlines, Outline, Placeholder, SkeletonInput,
};
use crate::screen::{col_of, in_box, lemma_index_coords, row_of, styled};
use crate::view::{pane_window, pane_window_spec, rect_contains, PaneView, Rect};

verus! {

/// What a live pane shows: its grid rows (one vector of cells per row),
/// which grid cells are inside the drag selection, and its cursor: the
/// cursor's row and column, whether the program hid it, and whether the
/// pane is at its live view rather than scrolled back.
pub struct PaneContent {
    pub rows: Vec<Vec<Cell>>,
    pub selected: Vec<Vec<bool>>,
    pub cursor_row: u16,
    pub cursor_col: u16,
    pub hide_cursor: bool,
    pub live: bool,
}

/// Grid cell `(gi, gy)` of a pane; blank past the rows it has.
pub open spec fn grid_cell(c: PaneContent, gi: int, gy: int) -> Cell {
    if 0 <= gy < c.rows@.len() && 0 <= gi < c.rows@[gy]@.len() {
        c.rows@[gy]@[gi]
    } else {
        blank_cell()
    }
}

/// Whether grid cell `(gi, gy)` is inside the drag selection.
pub open spec fn grid_selected(c: PaneContent, gi: int, gy: int) -> bool {
    0 <= gy < c.selected@.len() && 0 <= gi < c.selected@[gy]@.len() && c.selected@[gy]@[gi]
}

/// The grid cells of row `gy` inside the visible window `[gs, ge)`.
pub open spec fn window_row(c: PaneContent, gs: int, ge: int, gy: int) -> Seq<Cell> {
    Seq::new(if ge > gs { (ge - gs) as nat } else { 0 }, |k: int| grid_cell(c, gs + k, gy))
}

/// The buffer after pane view `v` is painted with `content` (none when the
/// pane has no live emulator): every cell of its rect shows the window of
/// the grid that `pane_window` reveals, with wide glyphs cut at the edges
/// blanked and selected cells inverted; a pane whose window is empty is
/// skipped.
pub open spec fn paint_view(s: Seq<Cell>, cols: u16, v: PaneView, content: Option<PaneContent>) -> Seq<Cell> {
    match content {
        None => s,
        Some(c) => match pane_window_spec(v.col_x0, v.h_scroll, v.rect.w, v.grid_cols) {
            None => s,
            Some((gs, ge)) => Seq::new(
                s.len(),
                |i: int|
                    {
                        let gx = col_of(cols as int, i) - v.rect.x;
                        let gy = row_of(cols as int, i) - v.rect.y;
                        if cols > 0 && 0 <= gx < v.rect.w && 0 <= gy < v.rect.h {
                            pane_cell(window_row(c, gs as int, ge as int, gy), gx, v.rect.w as int, grid_selected(c, gs + gx, gy))
                        } else {
                            s[i]
                        }
                    },
            ),
        },
    }
}

/// The content of view `k`, if any.
pub open spec fn content_at(cs: Seq<Option<PaneContent>>, k: int) -> Option<PaneContent> {
    if 0 <= k < cs.len() { cs[k] } else { None }
}

/// The buffer after the first `n` views are painted, in order.
pub open spec fn paint_views(s: Seq<Cell>, cols: u16, views: Seq<PaneView>, cs: Seq<Option<PaneContent>>, n: int) -> Seq<Cell>
    decreases n,
{
    if n <= 0 {
        s
    } else {
        paint_view(paint_views(s, cols, views, cs, n - 1), cols, views[n - 1], content_at(cs, n - 1))
    }
}

/// Write `cells` on row `y` from column `x0` on.
fn write_cells(out: &mut Vec<Cell>, cols: u16, x0: usize, y: usize, cells: &Vec<Cell>)
    requires
        x0 + cells@.len() <= cols,
        y <= 0x2_0000,
    ensures
        final(out)@.len() == old(out)@.len(),
        forall|i: int|
            0 <= i < old(out)@.len() ==> #[trigger] final(out)@[i] == (if row_of(cols as int, i) == y && x0 <= col_of(
                cols as int,
                i,
            ) && col_of(cols as int, i) < x0 + cells@.len() {
                cells@[col_of(cols as int, i) - x0]
            } else {
                old(out)@[i]
            }),
{
    let ghost o = out@;
    let mut k: usize = 0;
    while k < cells.len()
        invariant
            x0 + cells@.len() <= cols,
            y <= 0x2_0000,
            k <= cells@.len(),
            out@.len() == o.len(),
            forall|i: int|
                0 <= i < o.len() ==> #[trigger] out@[i] == (if row_of(cols as int, i) == y && x0 <= col_of(
                    cols as int,
                    i,
                ) && col_of(cols as int, i) < x0 + k {
                    cells@[col_of(cols as int, i) - x0]
                } else {
                    o[i]
                }),
        decreases cells@.len() - k,
    {
        crate::screen::put_cell(out, cols, x0 + k, y, cells[k]);
        k = k + 1;
    }
}

/// The window of grid row `gy` and its selection flags.
fn window_of(c: &PaneContent, gs: u16, ge: u16, gy: usize, w: u16) -> (r: (Vec<Cell>, Vec<bool>))
    ensures
        r.0@ == window_row(*c, gs as int, ge as int, gy as int),
        r.1@.len() == w,
        forall|gx: int| 0 <= gx < w ==> #[trigger] r.1@[gx] == grid_selected(*c, gs + gx, gy as int),
{
    let mut cells: Vec<Cell> = Vec::new();
    let n: usize = if ge > gs { (ge - gs) as usize } else { 0 };
    let mut k: usize = 0;
    while k < n
        invariant
            k <= n,
            n == (if ge > gs { (ge - gs) as int } else { 0int }),
            cells@ == Seq::new(k as nat, |j: int| grid_cell(*c, gs + j, gy as int)),
        decreases n - k,
    {
        let gi = gs as usize + k;
        let cell = if gy < c.rows.len() && gi < c.rows[gy].len() { c.rows[gy][gi] } else { Cell::blank() };
        cells.push(cell);
        k = k + 1;
        proof {
            assert(cells@ =~= Seq::new(k as nat, |j: int| grid_cell(*c, gs + j, gy as int)));
        }
    }
    let mut sel: Vec<bool> = Vec::new();
    let mut x: usize = 0;
    while x < w as usize
        invariant
            x <= w,
            sel@.len() == x,
            forall|j: int| 0 <= j < x ==> #[trigger] sel@[j] == grid_selected(*c, gs + j, gy as int),
        decreases w - x,
    {
        let gi = gs as usize + x;
        let f = gy < c.selected.len() && gi < c.selected[gy].len() && c.selected[gy][gi];
        sel.push(f);
        x = x + 1;
    }
    proof {
        assert(cells@ =~= window_row(*c, gs as int, ge as int, gy as int));
    }
    (cells, sel)
}

/// Paint one pane view.
fn paint_pane(out: &mut Vec<Cell>, cols: u16, v: &PaneView, content: &Option<PaneContent>)
    requires
        v.rect.x + v.rect.w <= cols,
        v.rect.y + v.rect.h <= 0x2_0000,
    ensures
        final(out)@ == paint_view(old(out)@, cols, *v, *content),
{
    let ghost o = out@;
    match content {
        None => {},
        Some(c) => {
            match pane_window(v.col_x0, v.h_scroll, v.rect.w, v.grid_cols) {
                None => {},
                Some((gs, ge)) => {
                    let mut gy: u16 = 0;
                    while gy < v.rect.h
                        invariant
                            gy <= v.rect.h,
                            v.rect.x + v.rect.w <= cols,
                            v.rect.y + v.rect.h <= 0x2_0000,
                            pane_window_spec(v.col_x0, v.h_scroll, v.rect.w, v.grid_cols) == Some((gs, ge)),
                            out@.len() == o.len(),
                            forall|i: int|
                                0 <= i < o.len() ==> #[trigger] out@[i] == ({
                                    let gx = col_of(cols as int, i) - v.rect.x;
                                    let yy = row_of(cols as int, i) - v.rect.y;
                                    if cols > 0 && 0 <= gx < v.rect.w && 0 <= yy < gy {
                                        pane_cell(
                                            window_row(*c, gs as int, ge as int, yy),
                                            gx,
                                            v.rect.w as int,
                                            grid_selected(*c, gs + gx, yy),
                                        )
                                    } else {
                                        o[i]
                                    }
                                }),
                        decreases v.rect.h - gy,
                    {
                        let (win, sel) = window_of(c, gs, ge, gy as usize, v.rect.w);
                        let row = pane_row(&win, v.rect.w, &sel);
                        let ghost before = out@;
                        write_cells(out, cols, v.rect.x as usize, v.rect.y as usize + gy as usize, &row);
                        proof {
                            assert forall|i: int| 0 <= i < o.len() implies #[trigger] out@[i] == ({
                                let gx = col_of(cols as int, i) - v.rect.x;
                                let yy = row_of(cols as int, i) - v.rect.y;
                                if cols > 0 && 0 <= gx < v.rect.w && 0 <= yy < gy + 1 {
                                    pane_cell(
                                        window_row(*c, gs as int, ge as int, yy),
                                        gx,
                                        v.rect.w as int,
                                        grid_selected(*c, gs + gx, yy),
                                    )
                                } else {
                                    o[i]
                                }
                            }) by {
                                assert(before[i] == before[i]);
                                if cols > 0 {
                                    vstd::arithmetic::div_mod::lemma_mod_bound(i, cols as int);
                                }
                            }
                        }
                        gy = gy + 1;
                    }
                    proof {
                        assert(out@ =~= paint_view(o, cols, *v, *content));
                    }
                    return;
                },
            }
        },
    }
    proof {
        assert(out@ =~= paint_view(o, cols, *v, *content));
    }
}

/// The themed backdrop: every cell a blank on the screen background.
pub open spec fn backdrop(cols: u16, rows: u16, bg: Color) -> Seq<Cell> {
    Seq::new((cols * rows) as nat, |i: int| styled(' ', Color::Default, bg, false))
}

/// A fresh frame of `cols` x `rows` blanks on the screen background.
pub fn blank_frame(cols: u16, rows: u16, bg: Color) -> (out: Vec<Cell>)
    ensures
        out@ == backdrop(cols, rows, bg),
{
    proof {
        assert((cols as int) * (rows as int) <= 0xffff * 0xffff) by (nonlinear_arith)
            requires
                cols <= 0xffff,
                rows <= 0xffff,
        ;
    }
    let n: usize = cols as usize * rows as usize;
    let c = crate::screen::styled_cell(' ', Color::Default, bg, false);
    let mut out: Vec<Cell> = Vec::new();
    let mut i: usize = 0;
    while i < n
        invariant
            i <= n,
            n == cols * rows,
            c == styled(' ', Color::Default, bg, false),
            out@ == Seq::new(i as nat, |j: int| styled(' ', Color::Default, bg, false)),
        decreases n - i,
    {
        out.push(c);
        i = i + 1;
        proof {
            assert(out@ =~= Seq::new(i as nat, |j: int| styled(' ', Color::Default, bg, false)));
        }
    }
    out
}

/// The rect of the first view of pane `pid`, from view `k` on.
pub open spec fn view_rect_from(views: Seq<PaneView>, pid: u64, k: int) -> Option<Rect>
    decreases views.len() - k,
{
    if k < 0 || k >= views.len() {
        None
    } else if views[k].pid == pid {
        Some(views[k].rect)
    } else {
        view_rect_from(views, pid, k + 1)
    }
}

/// The rect of the focused pane's view, if it has one on screen.
pub open spec fn focused_rect(views: Seq<PaneView>, focused: Option<u64>) -> Option<Rect> {
    match focused {
        Some(pid) => view_rect_from(views, pid, 0),
        None => None,
    }
}

/// The cursor block the focused pane shows through view `v`, if any: its
/// screen cell and whether the program hid it.
pub open spec fn view_cursor(v: PaneView, content: Option<PaneContent>, focused: Option<u64>) -> Option<(u16, u16, bool)> {
    match content {
        Some(c) if focused == Some(v.pid) => match pane_window_spec(v.col_x0, v.h_scroll, v.rect.w, v.grid_cols) {
            Some((gs, ge)) => match cursor_spot_spec(c.cursor_row, c.cursor_col, c.live, gs, ge, v.rect) {
                Some((sx, sy)) => Some((sx, sy, c.hide_cursor)),
                None => None,
            },
            None => None,
        },
        _ => None,
    }
}

/// The cursor found among the first `n` views: the last one that shows it.
pub open spec fn views_cursor(views: Seq<PaneView>, cs: Seq<Option<PaneContent>>, focused: Option<u64>, n: int) -> Option<(u16, u16, bool)>
    decreases n,
{
    if n <= 0 {
        None
    } else {
        match view_cursor(views[n - 1], content_at(cs, n - 1), focused) {
            Some(x) => Some(x),
            None => views_cursor(views, cs, focused, n - 1),
        }
    }
}

/// The cursor block always lies inside the rect of a view of the focused
/// pane, so it never lands on chrome.
pub proof fn the_cursor_stays_in_the_focused_pane(
    views: Seq<PaneView>,
    cs: Seq<Option<PaneContent>>,
    focused: Option<u64>,
    n: int,
)
    requires
        0 <= n <= views.len(),
        forall|k: int|
            0 <= k < views.len() ==> #[trigger] views[k].rect.x + views[k].rect.w <= 0xffff && views[k].rect.y
                + views[k].rect.h <= 0xffff,
    ensures
        match views_cursor(views, cs, focused, n) {
            Some((sx, sy, _)) => exists|k: int|
                0 <= k < n && focused == Some(#[trigger] views[k].pid) && rect_contains(views[k].rect, sx, sy),
            None => true,
        },
    decreases n,
{
    if n > 0 {
        the_cursor_stays_in_the_focused_pane(views, cs, focused, n - 1);
        let v = views[n - 1];
        assert(v.rect.x + v.rect.w <= 0xffff && v.rect.y + v.rect.h <= 0xffff);
        match view_cursor(v, content_at(cs, n - 1), focused) {
            Some((sx, sy, _)) => {
                assert(focused == Some(views[n - 1].pid) && rect_contains(views[n - 1].rect, sx, sy));
            },
            None => {},
        }
    }
}

/// The art drawn under placeholder `ordinal` (none past the list).
pub open spec fn art_for(arts: Seq<Seq<Seq<char>>>, ordinal: int) -> Seq<Seq<char>> {
    if 0 <= ordinal < arts.len() { arts[ordinal] } else { Seq::empty() }
}

/// The interior of a placeholder box: its rect less the one-cell frame.
pub open spec fn holder_inner(r: Rect) -> Rect {
    Rect {
        x: (r.x + 1) as u16,
        y: (r.y + 1) as u16,
        w: if r.w >= 2 { (r.w - 2) as u16 } else { 0 },
        h: if r.h >= 2 { (r.h - 2) as u16 } else { 0 },
    }
}

/// The buffer after placeholder `h` is painted: its interior reset to
/// blanks on the backdrop, then its identifier `strip.column` and its art.
pub open spec fn paint_holder(
    s: Seq<Cell>,
    cols: u16,
    h: Placeholder,
    strip_no: nat,
    pal: Palette,
    arts: Seq<Seq<Seq<char>>>,
    cell_labels: bool,
) -> Seq<Cell> {
    let r = h.rect;
    Seq::new(
        s.len(),
        |i: int|
            {
                let cleared = if r.w >= 2 && r.h >= 2 && in_box(cols as int, r.x + 1, r.y + 1, r.w - 2, r.h - 2, i) {
                    styled(' ', Color::Default, pal.base, false)
                } else {
                    s[i]
                };
                placeholder_cell(
                    cleared,
                    cols,
                    holder_inner(r),
                    placeholder_label_spec(strip_no, h.column as nat),
                    pal.label,
                    art_for(arts, h.ordinal as int),
                    cell_labels,
                    i,
                )
            },
    )
}

/// The buffer after the first `n` placeholders are painted, in order.
pub open spec fn paint_holders(
    s: Seq<Cell>,
    cols: u16,
    hs: Seq<Placeholder>,
    strip_no: nat,
    pal: Palette,
    arts: Seq<Seq<Seq<char>>>,
    cell_labels: bool,
    n: int,
) -> Seq<Cell>
    decreases n,
{
    if n <= 0 {
        s
    } else {
        paint_holder(paint_holders(s, cols, hs, strip_no, pal, arts, cell_labels, n - 1), cols, hs[n - 1], strip_no, pal, arts, cell_labels)
    }
}

/// The merged outlines of a `cols` x `rows` screen, cell by cell.
pub open spec fn canvas_edges(cols: u16, rows: u16, os: Seq<Outline>) -> Seq<FrameEdge> {
    Seq::new((cols * rows) as nat, |i: int| fold_outlines(empty_edge(), os, col_of(cols as int, i), row_of(cols as int, i)))
}

/// The buffer after the merged outlines are flushed into it (untouched
/// when no outline touched any cell).
pub open spec fn flush_spec(s: Seq<Cell>, edges: Seq<FrameEdge>) -> Seq<Cell> {
    if forall|i: int| 0 <= i < edges.len() ==> #[trigger] edges[i].mask == 0 {
        s
    } else {
        Seq::new(s.len(), |j: int| flushed_cell(s, edges, j))
    }
}


/// The art lines of every placeholder ordinal, as character sequences.
pub open spec fn arts_view(arts: Seq<Vec<String>>) -> Seq<Seq<Seq<char>>> {
    arts.map_values(|a: Vec<String>| art_view(a@))
}

/// Every empty box of the skeleton lies inside the screen width, on the
/// top row, at least two cells wide, as tall as the strip.
proof fn lemma_holders_fit(inp: SkeletonInput, n: int)
    requires
        0 <= n <= inp.ranges@.len(),
    ensures
        forall|k: int|
            0 <= k < columns_placeholders(inp, n).len() ==> {
                let r = #[trigger] columns_placeholders(inp, n)[k].rect;
                r.x + r.w <= inp.cols && r.y == 0 && r.w >= 2 && r.h == inp.strip_h
            },
    decreases n,
{
    if n > 0 {
        lemma_holders_fit(inp, n - 1);
        let prev = columns_placeholders(inp, n - 1);
        let cur = column_placeholder(inp, n - 1);
        assert forall|k: int| 0 <= k < columns_placeholders(inp, n).len() implies {
            let r = #[trigger] columns_placeholders(inp, n)[k].rect;
            r.x + r.w <= inp.cols && r.y == 0 && r.w >= 2 && r.h == inp.strip_h
        } by {
            if k < prev.len() {
                assert(columns_placeholders(inp, n)[k] == prev[k]);
            } else {
                assert(columns_placeholders(inp, n)[k] == cur[k - prev.len()]);
            }
        }
    }
}

/// The merged canvas of outlines `os` on a fresh `cols` x `rows` canvas is
/// `canvas_edges`.
proof fn lemma_canvas_edges(c: FrameCanvas, cols: u16, rows: u16, os: Seq<Outline>)
    requires
        c.wf(),
        c.cols == cols,
        c.rows == rows,
        forall|cx: int, cy: int|
            0 <= cx < cols && 0 <= cy < rows ==> #[trigger] c.edges@[cell_index(cols as int, cx, cy)]
                == fold_outlines(empty_edge(), os, cx, cy),
    ensures
        c.edges@ == canvas_edges(cols, rows, os),
{
    let ce = canvas_edges(cols, rows, os);
    assert forall|i: int| 0 <= i < c.edges@.len() implies c.edges@[i] == ce[i] by {
        let cx = col_of(cols as int, i);
        let cy = row_of(cols as int, i);
        assert(cols > 0) by {
            if cols == 0 {
                assert(c.edges@.len() == 0);
            }
        }
        vstd::arithmetic::div_mod::lemma_fundamental_div_mod(i, cols as int);
        vstd::arithmetic::div_mod::lemma_mod_bound(i, cols as int);
        vstd::arithmetic::div_mod::lemma_div_pos_is_pos(i, cols as int);
        lemma_index_coords(cols as int, i, cx, cy);
        assert(cy < rows) by {
            if cy >= rows {
                assert((cy as int) * (cols as int) >= (rows as int) * (cols as int)) by (nonlinear_arith)
                    requires
                        cy >= rows,
                        cols > 0,
                ;
            }
        }
        assert(c.edges@[cell_index(cols as int, cx, cy)] == fold_outlines(empty_edge(), os, cx, cy));
    }
    assert(c.edges@ =~= ce);
}

/// The anchor rect for a toast about the focused pane: the rect of its
/// first view, or `None` when no pane is focused or it has no view.
pub fn focused_pane_rect(views: &Vec<PaneView>, focused: Option<u64>) -> (r: Option<Rect>)
    ensures
        r == focused_rect(views@, focused),
{
    let pid = match focused {
        Some(p) => p,
        None => {
            return None;
        },
    };
    let mut k: usize = 0;
    while k < views.len()
        invariant
            k <= views@.len(),
            focused == Some(pid),
            view_rect_from(views@, pid, k as int) == view_rect_from(views@, pid, 0),
        decreases views@.len() - k,
    {
        if views[k].pid == pid {
            assert(view_rect_from(views@, pid, k as int) == Some(views@[k as int].rect));
            return Some(views[k].rect);
        }
        k = k + 1;
    }
    None
}

/// The composed frame of the focused strip: the backdrop, every view
/// painted in order, every empty box cleared and filled, and the merged
/// skeleton outlines flushed over it all.
pub open spec fn frame_spec(
    cols: u16,
    rows: u16,
    pal: Palette,
    sk: SkeletonInput,
    contents: Seq<Option<PaneContent>>,
    focused: Option<u64>,
    strip_no: nat,
    arts: Seq<Seq<Seq<char>>>,
    cell_labels: bool,
) -> Seq<Cell> {
    let painted = paint_views(backdrop(cols, rows, pal.base), cols, sk.views@, contents, sk.views@.len() as int);
    let hs = columns_placeholders(sk, sk.ranges@.len() as int);
    let held = paint_holders(painted, cols, hs, strip_no, pal, arts, cell_labels, hs.len() as int);
    let os = columns_outlines(sk, sk.ranges@.len() as int) + focus_ring(
        cols,
        rows,
        focused_split(sk.stacks@, sk.focus_column as int),
        focused_rect(sk.views@, focused),
        sk.focus_color,
    );
    flush_spec(held, canvas_edges(cols, rows, os))
}

/// Build the frame of the focused strip (`cols` x `rows` cells): the
/// themed backdrop, the pane views of `sk` with their `contents` (one per
/// view; a view without one is a pane with no live emulator), the
/// placeholder boxes with their `strip.column` identifiers and the art of
/// their ordinal, and the skeleton. Also returns where the focused pane's
/// cursor block goes (its screen cell and whether the program hid it).
pub fn render_frame(
    cols: u16,
    rows: u16,
    pal: &Palette,
    sk: &SkeletonInput,
    contents: &Vec<Option<PaneContent>>,
    focused: Option<u64>,
    strip_no: usize,
    arts: &Vec<Vec<String>>,
    cell_labels: bool,
) -> (r: (Vec<Cell>, Option<(u16, u16, bool)>))
    requires
        sk.cols == cols,
        skeleton_input_ok(*sk),
        forall|k: int|
            0 <= k < sk.views@.len() ==> #[trigger] sk.views@[k].rect.x + sk.views@[k].rect.w <= cols
                && sk.views@[k].rect.y + sk.views@[k].rect.h <= rows,
        match focused_rect(sk.views@, focused) {
            Some(fr) => fr.w + 2 <= 0xffff && fr.h + 2 <= 0xffff,
            None => true,
        },
        forall|k: int|
            0 <= k < arts@.len() ==> #[trigger] arts@[k]@.len() + 6 <= 0xffff && art_width(art_view(arts@[k]@))
                <= 0xffff,
    ensures
        r.0@ == frame_spec(cols, rows, *pal, *sk, contents@, focused, strip_no as nat, arts_view(arts@), cell_labels),
        r.1 == views_cursor(sk.views@, contents@, focused, sk.views@.len() as int),
{
    let mut out = blank_frame(cols, rows, pal.base);
    let ghost base = out@;
    let none: Option<PaneContent> = None;
    let mut cursor: Option<(u16, u16, bool)> = None;
    let mut k: usize = 0;
    while k < sk.views.len()
        invariant
            k <= sk.views@.len(),
            forall|j: int|
                0 <= j < sk.views@.len() ==> #[trigger] sk.views@[j].rect.x + sk.views@[j].rect.w <= cols
                    && sk.views@[j].rect.y + sk.views@[j].rect.h <= rows,
            none == Option::<PaneContent>::None,
            out@ == paint_views(base, cols, sk.views@, contents@, k as int),
            cursor == views_cursor(sk.views@, contents@, focused, k as int),
        decreases sk.views@.len() - k,
    {
        let v = &sk.views[k];
        let content: &Option<PaneContent> = if k < contents.len() { &contents[k] } else { &none };
        assert(*content == content_at(contents@, k as int));
        paint_pane(&mut out, cols, v, content);
        let is_focus = match focused {
            Some(f) => f == v.pid,
            None => false,
        };
        match content {
            Some(pc) => {
                if is_focus {
                    match pane_window(v.col_x0, v.h_scroll, v.rect.w, v.grid_cols) {
                        Some((gs, ge)) => {
                            match cursor_spot(pc.cursor_row, pc.cursor_col, pc.live, gs, ge, v.rect) {
                                Some((sx, sy)) => {
                                    cursor = Some((sx, sy, pc.hide_cursor));
                                },
                                None => {},
                            }
                        },
                        None => {},
                    }
                }
            },
            None => {},
        }
        k = k + 1;
    }
    let ghost painted = out@;
    let (outlines, holders) = skeleton_outlines(sk, rows, focused_pane_rect(&sk.views, focused));
    proof {
        lemma_holders_fit(*sk, sk.ranges@.len() as int);
    }
    let ghost hs = holders@;
    let ghost av = arts_view(arts@);
    let empty_art: Vec<String> = Vec::new();
    let mut h: usize = 0;
    while h < holders.len()
        invariant
            h <= hs.len(),
            holders@ == hs,
            hs == columns_placeholders(*sk, sk.ranges@.len() as int),
            sk.cols == cols,
            forall|j: int|
                0 <= j < hs.len() ==> {
                    let r = #[trigger] hs[j].rect;
                    r.x + r.w <= cols && r.y == 0 && r.w >= 2 && r.h == sk.strip_h
                },
            forall|j: int|
                0 <= j < arts@.len() ==> #[trigger] arts@[j]@.len() + 6 <= 0xffff && art_width(
                    art_view(arts@[j]@),
                ) <= 0xffff,
            av == arts_view(arts@),
            empty_art@.len() == 0,
            out@ == paint_holders(painted, cols, hs, strip_no as nat, *pal, av, cell_labels, h as int),
        decreases hs.len() - h,
    {
        let ph = holders[h];
        assert(ph.rect.x + ph.rect.w <= cols && ph.rect.y == 0 && ph.rect.w >= 2 && ph.rect.h == sk.strip_h);
        let ghost before = out@;
        clear_placeholder(&mut out, cols, ph.rect, pal.base);
        let ghost cleared = out@;
        let label = placeholder_label(strip_no, ph.column);
        let inner = Rect { x: ph.rect.x + 1, y: 1, w: ph.rect.w - 2, h: if ph.rect.h >= 2 { ph.rect.h - 2 } else { 0 } };
        assert(inner == holder_inner(ph.rect));
        let art: &Vec<String> = if ph.ordinal < arts.len() { &arts[ph.ordinal] } else { &empty_art };
        proof {
            if ph.ordinal < arts@.len() {
                assert(art_view(art@) == art_for(av, ph.ordinal as int));
            } else {
                assert(art_view(art@) =~= art_for(av, ph.ordinal as int));
            }
        }
        draw_placeholder_contents(&mut out, cols, inner, label.as_str(), pal.label, art, cell_labels);
        proof {
            assert(out@ =~= paint_holder(before, cols, ph, strip_no as nat, *pal, av, cell_labels));
        }
        h = h + 1;
    }
    let ghost held = out@;
    let mut canvas = FrameCanvas::new(cols, rows);
    let ghost c0 = canvas.edges@;
    canvas.draw_outlines(&outlines);
    proof {
        assert forall|cx: int, cy: int| 0 <= cx < cols && 0 <= cy < rows implies #[trigger] canvas.edges@[cell_index(
            cols as int,
            cx,
            cy,
        )] == fold_outlines(empty_edge(), outlines@, cx, cy) by {
            lemma_cell_index(cols as int, rows as int, cx, cy, cx, cy);
            assert(c0[cell_index(cols as int, cx, cy)] == empty_edge());
        }
        lemma_canvas_edges(canvas, cols, rows, outlines@);
    }
    if !canvas.is_empty() {
        canvas.flush(&mut out);
        proof {
            assert(out@ =~= flush_spec(held, canvas.edges@));
        }
    }
    (out, cursor)
}

} // verus!
