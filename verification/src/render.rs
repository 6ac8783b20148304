//! Frame composition for the focused strip: which outlines the skeleton
//! draws, how a pane's grid row lands in its screen rect, and where the
//! focused pane's cursor block goes.

use vstd::prelude::*;
use crate::cell::{cell_index, lemma_cell_index, Cell, Color};
use crate::cell::{blank_cell, Style};
use crate::frame::{blank_keeping_style, hline_mask, paint_edge, rect_mask, FrameCanvas, FrameEdge};
use crate::view::{PaneView, Rect};

verus! {

/// Priority of plain column chrome.
pub const P_CHROME: u8 = 1;
/// Priority of the focused column's box.
pub const P_FOCUS_COL: u8 = 2;
/// Priority of the ring around the focused split of a stacked column.
pub const P_FOCUS_PANE: u8 = 3;

/// The shape of one outline: the ring of a rect, or a horizontal rule on
/// row `y` from `x0` to `x1` inclusive.
#[derive(Debug, Clone, Copy, PartialEq, Eq, Structural)]
pub enum OutlineShape {
    Ring(Rect),
    Rule { x0: i32, x1: i32, y: i32 },
}

/// An outline to draw, in a color at a priority.
#[derive(Debug, Clone, Copy, PartialEq, Eq, Structural)]
pub struct Outline {
    pub shape: OutlineShape,
    pub color: Color,
    pub prio: u8,
}

/// The edge bits outline `o` leaves at `(cx, cy)`.
pub open spec fn outline_mask(o: Outline, cx: int, cy: int) -> u8 {
    match o.shape {
        OutlineShape::Ring(r) => rect_mask(r, cx, cy),
        OutlineShape::Rule { x0, x1, y } => hline_mask(x0 as int, x1 as int, y as int, cx, cy),
    }
}

/// Cell `(cx, cy)` of a canvas after drawing outlines `os` in order over
/// what it held, `e`.
pub open spec fn fold_outlines(e: FrameEdge, os: Seq<Outline>, cx: int, cy: int) -> FrameEdge
    decreases os.len(),
{
    if os.len() == 0 {
        e
    } else {
        let o = os.last();
        paint_edge(fold_outlines(e, os.drop_last(), cx, cy), outline_mask(o, cx, cy), o.color, o.prio)
    }
}

impl FrameCanvas {
    /// Draw every outline of `os`, in order.
    pub fn draw_outlines(&mut self, os: &Vec<Outline>)
        requires
            old(self).wf(),
        ensures
            final(self).wf(),
            final(self).cols == old(self).cols,
            final(self).rows == old(self).rows,
            forall|cx: int, cy: int|
                0 <= cx < old(self).cols && 0 <= cy < old(self).rows ==> #[trigger] final(self).edges@[cell_index(
                    old(self).cols as int,
                    cx,
                    cy,
                )] == fold_outlines(
                    old(self).edges@[cell_index(old(self).cols as int, cx, cy)],
                    os@,
                    cx,
                    cy,
                ),
    {
        let ghost e0 = self.edges@;
        let ghost cols = self.cols as int;
        let ghost rows = self.rows as int;
        let mut k: usize = 0;
        while k < os.len()
            invariant
                self.wf(),
                self.cols == cols,
                self.rows == rows,
                e0.len() == cols * rows,
                k <= os@.len(),
                forall|cx: int, cy: int|
                    0 <= cx < cols && 0 <= cy < rows ==> #[trigger] self.edges@[cell_index(cols, cx, cy)]
                        == fold_outlines(e0[cell_index(cols, cx, cy)], os@.take(k as int), cx, cy),
            decreases os@.len() - k,
        {
            let o = os[k];
            let ghost before = self.edges@;
            match o.shape {
                OutlineShape::Ring(r) => {
                    self.rect(r, o.color, o.prio);
                },
                OutlineShape::Rule { x0, x1, y } => {
                    self.hline(x0, x1, y, o.color, o.prio);
                },
            }
            proof {
                assert(os@.take(k as int + 1).drop_last() =~= os@.take(k as int));
                assert(os@.take(k as int + 1).last() == o);
                assert forall|cx: int, cy: int| 0 <= cx < cols && 0 <= cy < rows implies #[trigger] self.edges@[cell_index(
                    cols,
                    cx,
                    cy,
                )] == fold_outlines(e0[cell_index(cols, cx, cy)], os@.take(k as int + 1), cx, cy) by {
                    assert(before[cell_index(cols, cx, cy)] == fold_outlines(
                        e0[cell_index(cols, cx, cy)],
                        os@.take(k as int),
                        cx,
                        cy,
                    ));
                }
            }
            k = k + 1;
        }
        proof {
            assert(os@.take(os@.len() as int) =~= os@);
        }
    }
}

/// An empty box of the skeleton: its outline rect, the 1-based column it
/// stands for, and its place among the strip's empty boxes.
#[derive(Debug, Clone, Copy, PartialEq, Eq, Structural)]
pub struct Placeholder {
    pub rect: Rect,
    pub column: usize,
    pub ordinal: usize,
}

/// The rules between the stacked panes of column `ci`: one on the row above
/// every pane of that column after its first, spanning the column's box.
pub open spec fn gap_rules(
    vs: Seq<PaneView>,
    ci: int,
    seen: bool,
    left: u16,
    right: u16,
    color: Color,
    prio: u8,
) -> Seq<Outline>
    decreases vs.len(),
{
    if vs.len() == 0 {
        Seq::empty()
    } else if vs[0].col == ci {
        (if seen {
            seq![Outline { shape: OutlineShape::Rule { x0: left as i32, x1: right as i32, y: (vs[0].rect.y - 1) as i32 }, color, prio }]
        } else {
            Seq::empty()
        }) + gap_rules(vs.drop_first(), ci, true, left, right, color, prio)
    } else {
        gap_rules(vs.drop_first(), ci, seen, left, right, color, prio)
    }
}

/// The inputs of the skeleton of the focused strip: the screen size, the
/// strip's height, the on-screen x range of every column box (live columns
/// first, then the placeholder boxes that tile the empty right side), how
/// many of them are live, the focused column, the pane count of each live
/// column, the pane views, and the two colors.
pub struct SkeletonInput {
    pub cols: u16,
    pub strip_h: u16,
    pub ranges: Vec<(i32, i32)>,
    pub live: usize,
    pub focus_column: usize,
    pub stacks: Vec<usize>,
    pub views: Vec<PaneView>,
    pub chrome_color: Color,
    pub focus_color: Color,
}

/// Whether the focused column holds more than one pane, so that the focus
/// ring goes around the focused split rather than the whole column.
pub open spec fn focused_split(stacks: Seq<usize>, focus_column: int) -> bool {
    0 <= focus_column < stacks.len() && stacks[focus_column] > 1
}

/// The on-screen box of column `ci`, when any of it is on screen: from its
/// first visible cell to the boundary it shares with the next column,
/// clamped to the last screen column.
pub open spec fn column_box(cols: u16, strip_h: u16, range: (i32, i32)) -> Option<Rect> {
    let (s, e) = range;
    if e <= 0 || s >= cols {
        None
    } else {
        let left: int = if s > 0 { s as int } else { 0 };
        let right: int = if e < cols - 1 { e as int } else { cols - 1 };
        if right <= left {
            None
        } else {
            Some(Rect { x: left as u16, y: 0, w: (right - left + 1) as u16, h: strip_h })
        }
    }
}

/// The color and priority of column `ci`'s box: the focus accent for the
/// focused column, unless it is a split live column (whose focused pane
/// gets its own ring instead); plain chrome otherwise.
pub open spec fn column_paint(inp: SkeletonInput, ci: int) -> (Color, u8) {
    let placeholder = ci >= inp.live;
    if ci == inp.focus_column && (!focused_split(inp.stacks@, inp.focus_column as int) || placeholder) {
        (inp.focus_color, P_FOCUS_COL)
    } else {
        (inp.chrome_color, P_CHROME)
    }
}

/// The outlines of column `ci`: its box ring, then, for a live stacked
/// column, the rules between its panes.
pub open spec fn column_outlines(inp: SkeletonInput, ci: int) -> Seq<Outline> {
    match column_box(inp.cols, inp.strip_h, inp.ranges@[ci]) {
        None => Seq::empty(),
        Some(b) => {
            let (color, prio) = column_paint(inp, ci);
            let ring = seq![Outline { shape: OutlineShape::Ring(b), color, prio }];
            if ci < inp.live && ci < inp.stacks@.len() && inp.stacks@[ci] > 1 {
                ring + gap_rules(inp.views@, ci, false, b.x, (b.x + b.w - 1) as u16, color, prio)
            } else {
                ring
            }
        },
    }
}

/// The outlines of the first `n` columns, in column order.
pub open spec fn columns_outlines(inp: SkeletonInput, n: int) -> Seq<Outline>
    decreases n,
{
    if n <= 0 {
        Seq::empty()
    } else {
        columns_outlines(inp, n - 1) + column_outlines(inp, n - 1)
    }
}

/// The placeholder box of column `ci`, if it is an empty column on screen.
pub open spec fn column_placeholder(inp: SkeletonInput, ci: int) -> Seq<Placeholder> {
    match column_box(inp.cols, inp.strip_h, inp.ranges@[ci]) {
        Some(b) if ci >= inp.live => seq![Placeholder { rect: b, column: (ci + 1) as usize, ordinal: (ci - inp.live) as usize }],
        _ => Seq::empty(),
    }
}

/// The placeholder boxes of the first `n` columns, in column order.
pub open spec fn columns_placeholders(inp: SkeletonInput, n: int) -> Seq<Placeholder>
    decreases n,
{
    if n <= 0 {
        Seq::empty()
    } else {
        columns_placeholders(inp, n - 1) + column_placeholder(inp, n - 1)
    }
}

/// The inputs the skeleton can be drawn from without a panic: a screen at
/// least one column wide, or no box straddling its left edge.
pub open spec fn skeleton_input_ok(inp: SkeletonInput) -> bool {
    inp.cols > 0 || (forall|i: int| 0 <= i < inp.ranges@.len() ==> inp.ranges@[i].0 >= 0 || inp.ranges@[i].1 <= 0)
}

/// The rules between the panes of stacked column `ci`, spanning
/// `left..=right`.
fn push_gap_rules(
    out: &mut Vec<Outline>,
    views: &Vec<PaneView>,
    ci: usize,
    left: u16,
    right: u16,
    color: Color,
    prio: u8,
)
    ensures
        final(out)@ == old(out)@ + gap_rules(views@, ci as int, false, left, right, color, prio),
{
    let mut k: usize = 0;
    let mut seen = false;
    proof {
        assert(views@.skip(0) =~= views@);
    }
    while k < views.len()
        invariant
            k <= views@.len(),
            out@ + gap_rules(views@.skip(k as int), ci as int, seen, left, right, color, prio) == old(out)@
                + gap_rules(views@, ci as int, false, left, right, color, prio),
        decreases views@.len() - k,
    {
        let v = views[k];
        proof {
            assert(views@.skip(k as int).drop_first() =~= views@.skip(k as int + 1));
            assert(views@.skip(k as int)[0] == v);
        }
        if v.col == ci {
            if seen {
                out.push(Outline {
                    shape: OutlineShape::Rule { x0: left as i32, x1: right as i32, y: v.rect.y as i32 - 1 },
                    color,
                    prio,
                });
            }
            seen = true;
        }
        k = k + 1;
    }
    proof {
        assert(views@.skip(k as int).len() == 0);
    }
}

/// The outlines of the focused strip's skeleton: a box around every column
/// on screen (the focused one in the accent unless it is split), the rules
/// between stacked panes, and, for a split focused column, an accent ring
/// around the focused pane grown by one cell onto its frame. Also returns
/// the empty boxes whose interiors get the placeholder contents.
pub fn skeleton_outlines(inp: &SkeletonInput, rows: u16, focus_rect: Option<Rect>) -> (r: (
    Vec<Outline>,
    Vec<Placeholder>,
))
    requires
        skeleton_input_ok(*inp),
        match focus_rect {
            Some(fr) => fr.w + 2 <= 0xffff && fr.h + 2 <= 0xffff,
            None => true,
        },
    ensures
        r.0@ == columns_outlines(*inp, inp.ranges@.len() as int) + focus_ring(
            inp.cols,
            rows,
            focused_split(inp.stacks@, inp.focus_column as int),
            focus_rect,
            inp.focus_color,
        ),
        r.1@ == columns_placeholders(*inp, inp.ranges@.len() as int),
{
    let split = inp.focus_column < inp.stacks.len() && inp.stacks[inp.focus_column] > 1;
    let mut outlines: Vec<Outline> = Vec::new();
    let mut holders: Vec<Placeholder> = Vec::new();
    let mut ci: usize = 0;
    while ci < inp.ranges.len()
        invariant
            skeleton_input_ok(*inp),
            split == focused_split(inp.stacks@, inp.focus_column as int),
            ci <= inp.ranges@.len(),
            outlines@ == columns_outlines(*inp, ci as int),
            holders@ == columns_placeholders(*inp, ci as int),
        decreases inp.ranges@.len() - ci,
    {
        let (s, e) = inp.ranges[ci];
        let ghost before = outlines@;
        let ghost hbefore = holders@;
        if e <= 0 || s >= inp.cols as i32 {
        } else {
            let left: u16 = if s > 0 { s as u16 } else { 0 };
            let right: u16 = if e < inp.cols as i32 - 1 { e as u16 } else { inp.cols - 1 };
            if right <= left {
            } else {
                let placeholder = ci >= inp.live;
                let (color, prio) = if ci == inp.focus_column && (!split || placeholder) {
                    (inp.focus_color, P_FOCUS_COL)
                } else {
                    (inp.chrome_color, P_CHROME)
                };
                let boxr = Rect { x: left, y: 0, w: right - left + 1, h: inp.strip_h };
                outlines.push(Outline { shape: OutlineShape::Ring(boxr), color, prio });
                if placeholder {
                    holders.push(Placeholder { rect: boxr, column: ci + 1, ordinal: ci - inp.live });
                } else if ci < inp.stacks.len() && inp.stacks[ci] > 1 {
                    push_gap_rules(&mut outlines, &inp.views, ci, left, right, color, prio);
                }
            }
        }
        proof {
            assert(outlines@ =~= before + column_outlines(*inp, ci as int));
            assert(holders@ =~= hbefore + column_placeholder(*inp, ci as int));
        }
        ci = ci + 1;
    }
    let ring = focus_ring_outline(inp.cols, rows, split, focus_rect, inp.focus_color);
    match ring {
        Some(o) => {
            outlines.push(o);
        },
        None => {},
    }
    (outlines, holders)
}

/// The accent ring around the focused split of a stacked column: the pane
/// rect grown by one cell each way onto the frame and gap cells around it,
/// clipped to the screen.
pub open spec fn focus_ring(cols: u16, rows: u16, split: bool, focus_rect: Option<Rect>, focus: Color) -> Seq<Outline> {
    match focus_rect {
        Some(r) if split => {
            let x: int = if r.x >= 1 { r.x - 1 } else { 0 };
            let y: int = if r.y >= 1 { r.y - 1 } else { 0 };
            let room_w: int = if cols >= x { cols - x } else { 0 };
            let room_h: int = if rows >= y { rows - y } else { 0 };
            let w: int = if r.w + 2 < room_w { r.w + 2 } else { room_w };
            let h: int = if r.h + 2 < room_h { r.h + 2 } else { room_h };
            seq![Outline { shape: OutlineShape::Ring(Rect { x: x as u16, y: y as u16, w: w as u16, h: h as u16 }), color: focus, prio: P_FOCUS_PANE }]
        },
        _ => Seq::empty(),
    }
}

fn focus_ring_outline(cols: u16, rows: u16, split: bool, focus_rect: Option<Rect>, focus: Color) -> (o: Option<Outline>)
    requires
        match focus_rect {
            Some(fr) => fr.w + 2 <= 0xffff && fr.h + 2 <= 0xffff,
            None => true,
        },
    ensures
        focus_ring(cols, rows, split, focus_rect, focus) == (match o {
            Some(x) => seq![x],
            None => Seq::<Outline>::empty(),
        }),
{
    match focus_rect {
        Some(r) => {
            if split {
                let x: u16 = if r.x >= 1 { r.x - 1 } else { 0 };
                let y: u16 = if r.y >= 1 { r.y - 1 } else { 0 };
                let room_w: u16 = if cols >= x { cols - x } else { 0 };
                let room_h: u16 = if rows >= y { rows - y } else { 0 };
                let w: u16 = if r.w + 2 < room_w { r.w + 2 } else { room_w };
                let h: u16 = if r.h + 2 < room_h { r.h + 2 } else { room_h };
                Some(Outline { shape: OutlineShape::Ring(Rect { x, y, w, h }), color: focus, prio: P_FOCUS_PANE })
            } else {
                None
            }
        },
        None => None,
    }
}

/// `c` with its inverse-video attribute flipped.
pub open spec fn flip_inverse(c: Cell) -> Cell {
    Cell { style: Style { inverse: !c.style.inverse, ..c.style }, ..c }
}

/// Screen cell `gx` of a pane rect `w` cells wide showing `row`, the grid
/// cells of its visible window: the grid cell while the window lasts and a
/// blank after it; a wide glyph cut by an edge (a continuation at the left
/// edge, or a head whose second column falls past the rect or the window)
/// is blanked, keeping its style; a selected cell is shown in inverse video.
pub open spec fn pane_cell(row: Seq<Cell>, gx: int, w: int, selected: bool) -> Cell {
    let c = if gx < row.len() { row[gx] } else { blank_cell() };
    let cut = (gx == 0 && c.width == 0) || (c.width == 2 && (gx + 1 >= w || gx + 1 >= row.len()));
    let c2 = if cut { blank_keeping_style(c) } else { c };
    if selected { flip_inverse(c2) } else { c2 }
}

/// Selecting a cell only restyles it: a selected cell shows the same
/// character, combining marks, width and colors as when unselected, with
/// inverse video flipped and nothing else; and an ordinary grid cell
/// inside the window shows as itself.
pub proof fn selection_only_flips_inverse(row: Seq<Cell>, gx: int, w: int)
    ensures
        ({
            let on = pane_cell(row, gx, w, true);
            let off = pane_cell(row, gx, w, false);
            &&& on.ch == off.ch && on.combining == off.combining && on.width == off.width
            &&& on.style.fg == off.style.fg && on.style.bg == off.style.bg && on.style.bold == off.style.bold
                && on.style.underline == off.style.underline
            &&& on.style.inverse == !off.style.inverse
        }),
        0 <= gx < row.len() && row[gx].width == 1 ==> pane_cell(row, gx, w, false) == row[gx],
{
}

/// The cursor shows at its own cell: `cur_col - g_start` cells right of the
/// rect's left edge and `cur_row` rows down, inside the rect, and only on a
/// live pane whose window shows the cursor's column.
pub proof fn the_cursor_shows_at_its_cell(cur_row: u16, cur_col: u16, live: bool, g_start: u16, g_end: u16, rect: Rect)
    requires
        rect.x + rect.w <= 0xffff,
        rect.y + rect.h <= 0xffff,
        g_end - g_start <= rect.w,
    ensures
        cursor_spot_spec(cur_row, cur_col, live, g_start, g_end, rect) matches Some((x, y)) ==> {
            &&& live
            &&& x - rect.x == cur_col - g_start && y - rect.y == cur_row
            &&& rect.x <= x < rect.x + rect.w && rect.y <= y < rect.y + rect.h
        },
        !live ==> cursor_spot_spec(cur_row, cur_col, live, g_start, g_end, rect) is None,
{
}

/// One screen row of a pane rect `w` cells wide, from the grid cells of its
/// visible window; `selected[gx]` marks cells inside the drag selection
/// (missing entries are unselected).
pub fn pane_row(row: &Vec<Cell>, w: u16, selected: &Vec<bool>) -> (out: Vec<Cell>)
    ensures
        out@.len() == w,
        forall|gx: int|
            0 <= gx < w ==> #[trigger] out@[gx] == pane_cell(
                row@,
                gx,
                w as int,
                gx < selected@.len() && selected@[gx],
            ),
{
    let mut out: Vec<Cell> = Vec::new();
    let mut gx: u16 = 0;
    while gx < w
        invariant
            gx <= w,
            out@.len() == gx,
            forall|j: int|
                0 <= j < gx ==> #[trigger] out@[j] == pane_cell(
                    row@,
                    j,
                    w as int,
                    j < selected@.len() && selected@[j],
                ),
        decreases w - gx,
    {
        let g = gx as usize;
        let mut c = if g < row.len() { row[g] } else { Cell::blank() };
        let last_in_window = g + 1 >= row.len();
        if (gx == 0 && c.width == 0) || (c.width == 2 && (gx as u32 + 1 >= w as u32 || last_in_window)) {
            c = Cell { ch: ' ', combining: ['\0', '\0'], width: 1, style: c.style };
        }
        if g < selected.len() && selected[g] {
            c = Cell { style: Style { inverse: !c.style.inverse, ..c.style }, ..c };
        }
        out.push(c);
        gx = gx + 1;
    }
    out
}

/// Where the focused pane's cursor shows on screen: only when the pane is
/// at its live view (not scrolled back), the cursor column lies in the
/// visible window `[g_start, g_end)` and its row inside the rect.
pub open spec fn cursor_spot_spec(
    cur_row: u16,
    cur_col: u16,
    live: bool,
    g_start: u16,
    g_end: u16,
    rect: Rect,
) -> Option<(u16, u16)> {
    if live && g_start <= cur_col && cur_col < g_end && cur_row < rect.h {
        Some(((rect.x + (cur_col - g_start)) as u16, (rect.y + cur_row) as u16))
    } else {
        None
    }
}

/// The screen cell of the focused pane's cursor, if it is shown.
pub fn cursor_spot(cur_row: u16, cur_col: u16, live: bool, g_start: u16, g_end: u16, rect: Rect) -> (r: Option<(u16, u16)>)
    requires
        (live && g_start <= cur_col && cur_col < g_end && cur_row < rect.h) ==> rect.x + (cur_col - g_start)
            <= 0xffff && rect.y + cur_row <= 0xffff,
    ensures
        r == cursor_spot_spec(cur_row, cur_col, live, g_start, g_end, rect),
{
    if live && cur_col >= g_start && cur_col < g_end && cur_row < rect.h {
        Some((rect.x + (cur_col - g_start), rect.y + cur_row))
    } else {
        None
    }
}

/// The hairline glyphs a cursor block never inverts.
pub open spec fn is_ring_glyph(ch: char) -> bool {
    ch == '╭' || ch == '╮' || ch == '╰' || ch == '╯' || ch == '─' || ch == '│'
}

/// The cell the cursor block lands on, for a `cols`-wide buffer: `None`
/// when the cursor is hidden or below the screen.
pub open spec fn cursor_index(cols: u16, rows: u16, sx: u16, sy: u16, hide: bool) -> Option<int> {
    if !hide && sy < rows { Some(cell_index(cols as int, sx as int, sy as int)) } else { None }
}

/// Paint the focused pane's cursor as a block: inverse video on top of the
/// cell under it, unless the cursor is hidden, off the screen, or on a
/// frame hairline.
pub fn paint_cursor(out: &mut Vec<Cell>, cols: u16, rows: u16, sx: u16, sy: u16, hide: bool)
    ensures
        final(out)@ == (match cursor_index(cols, rows, sx, sy, hide) {
            Some(i) => if 0 <= i < old(out)@.len() && !is_ring_glyph(old(out)@[i].ch) {
                old(out)@.update(i, flip_inverse(old(out)@[i]))
            } else {
                old(out)@
            },
            None => old(out)@,
        }),
{
    if hide || sy >= rows {
        return;
    }
    assert((sy as int) * (cols as int) <= 0xffff * 0xffff) by (nonlinear_arith)
        requires
            sy <= 0xffff,
            cols <= 0xffff,
            0 <= sy,
            0 <= cols,
    ;
    let idx: u64 = sy as u64 * cols as u64 + sx as u64;
    if idx >= out.len() as u64 {
        return;
    }
    let i = idx as usize;
    let c = out[i];
    let ring = c.ch == '╭' || c.ch == '╮' || c.ch == '╰' || c.ch == '╯' || c.ch == '─' || c.ch == '│';
    if !ring {
        out[i] = Cell { style: Style { inverse: !c.style.inverse, ..c.style }, ..c };
    }
}

} // verus!
