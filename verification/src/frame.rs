//! The frame accumulator that turns box outlines into box-drawing glyphs.
//!
//! Column boxes tile edge to edge, so neighbours share their boundary
//! column. Every outline therefore contributes *edge bits* (north, east,
//! south, west) to the cells it touches, together with a color at a
//! priority; a flush pass then picks the one glyph that matches the merged
//! bits (corners, tees and crosses included) and the color of the highest
//! priority that touched the cell.

use vstd::prelude::*;
use crate::cell::{cell_index, lemma_cell_index, Cell, Color, Style};
use crate::view::Rect;

verus! {

/// Edge bit: the cell's line continues upwards.
pub const EDGE_N: u8 = 1;
/// Edge bit: the cell's line continues to the right.
pub const EDGE_E: u8 = 2;
/// Edge bit: the cell's line continues downwards.
pub const EDGE_S: u8 = 4;
/// Edge bit: the cell's line continues to the left.
pub const EDGE_W: u8 = 8;

/// What the outlines painted so far left in one cell: the union of their
/// edge bits, the highest priority among them and that priority's color.
#[derive(Debug, Clone, Copy, PartialEq, Eq, Structural)]
pub struct FrameEdge {
    pub mask: u8,
    pub prio: u8,
    pub color: Color,
}

/// The untouched cell.
pub open spec fn empty_edge() -> FrameEdge {
    FrameEdge { mask: 0, prio: 0, color: Color::Default }
}

/// One contribution of edge bits `m` in `color` at priority `prio`: the
/// bits are merged, and the color changes only on a strictly higher
/// priority, so the first writer keeps a tie.
pub open spec fn add_edge(e: FrameEdge, m: u8, color: Color, prio: u8) -> FrameEdge {
    FrameEdge {
        mask: e.mask | m,
        prio: if prio > e.prio { prio } else { e.prio },
        color: if prio > e.prio { color } else { e.color },
    }
}

/// The effect on one cell of an outline whose bits there are `m`: nothing
/// when the outline does not touch the cell (`m == 0`), one contribution
/// otherwise.
pub open spec fn paint_edge(e: FrameEdge, m: u8, color: Color, prio: u8) -> FrameEdge {
    if m == 0 {
        e
    } else {
        add_edge(e, m, color, prio)
    }
}

/// The bits a vertical rule at column `x` from row `y0` to row `y1`
/// (inclusive) leaves at `(cx, cy)`: north and south inside the rule, only
/// inward at its two ends, and both for a rule one cell long.
pub open spec fn vline_mask(x: int, y0: int, y1: int, cx: int, cy: int) -> u8 {
    if cx == x && y0 <= cy && cy <= y1 {
        if cy == y0 && cy == y1 {
            5u8
        } else if cy == y0 {
            4u8
        } else if cy == y1 {
            1u8
        } else {
            5u8
        }
    } else {
        0u8
    }
}

/// The bits a horizontal rule on row `y` from column `x0` to column `x1`
/// (inclusive) leaves at `(cx, cy)`.
pub open spec fn hline_mask(x0: int, x1: int, y: int, cx: int, cy: int) -> u8 {
    if cy == y && x0 <= cx && cx <= x1 {
        if cx == x0 && cx == x1 {
            10u8
        } else if cx == x0 {
            2u8
        } else if cx == x1 {
            8u8
        } else {
            10u8
        }
    } else {
        0u8
    }
}

/// The bits the ring of `r` leaves at `(cx, cy)`: its left and right rules
/// when it is more than one row tall, its top and bottom rules when it is
/// more than one column wide, and a short horizontal stroke for a single
/// cell. An empty rect leaves nothing.
pub open spec fn rect_mask(r: Rect, cx: int, cy: int) -> u8 {
    let x0 = r.x as int;
    let y0 = r.y as int;
    let x1 = x0 + r.w - 1;
    let y1 = y0 + r.h - 1;
    if r.w == 0 || r.h == 0 {
        0u8
    } else {
        let left: u8 = if y1 > y0 { vline_mask(x0, y0, y1, cx, cy) } else { 0u8 };
        let right: u8 = if y1 > y0 && x1 > x0 { vline_mask(x1, y0, y1, cx, cy) } else { 0u8 };
        let top: u8 = if x1 > x0 { hline_mask(x0, x1, y0, cx, cy) } else { 0u8 };
        let bottom: u8 = if x1 > x0 && y1 > y0 { hline_mask(x0, x1, y1, cx, cy) } else { 0u8 };
        let dot: u8 = if x1 == x0 && y1 == y0 && cx == x0 && cy == y0 { 10u8 } else { 0u8 };
        left | right | top | bottom | dot
    }
}

/// Painting twice with one color and priority is painting once with the
/// union of the two masks.
pub proof fn lemma_paint_edge_merge(e: FrameEdge, a: u8, b: u8, color: Color, prio: u8)
    ensures
        paint_edge(paint_edge(e, a, color, prio), b, color, prio) == paint_edge(e, a | b, color, prio),
{
    let m = e.mask;
    assert((m | a) | b == m | (a | b)) by (bit_vector);
    assert(a | b == 0 <==> (a == 0 && b == 0)) by (bit_vector);
    assert(a == 0 ==> a | b == b) by (bit_vector);
    assert(b == 0 ==> a | b == a) by (bit_vector);
}

/// The box-drawing glyph for merged edge bits. Pure corners are rounded;
/// junctions use tees and a cross; a lone end keeps its rule's direction.
pub open spec fn edge_glyph(mask: u8) -> Option<char> {
    if mask == 0 {
        None
    } else if mask == 15 {
        Some('┼')
    } else if mask == 7 {
        Some('├')
    } else if mask == 13 {
        Some('┤')
    } else if mask == 14 {
        Some('┬')
    } else if mask == 11 {
        Some('┴')
    } else if mask == 6 {
        Some('╭')
    } else if mask == 12 {
        Some('╮')
    } else if mask == 3 {
        Some('╰')
    } else if mask == 9 {
        Some('╯')
    } else if mask == 5 {
        Some('│')
    } else if mask == 10 {
        Some('─')
    } else if mask & 5u8 != 0 {
        Some('│')
    } else {
        Some('─')
    }
}

/// `c` emptied to a blank of width one, keeping its style.
pub open spec fn blank_keeping_style(c: Cell) -> Cell {
    Cell { ch: ' ', combining: ['\0', '\0'], width: 1, style: c.style }
}

/// `c` turned into frame glyph `ch` in `color` on the default background,
/// with every attribute off.
pub open spec fn frame_glyph_cell(c: Cell, ch: char, color: Color) -> Cell {
    Cell {
        ch,
        combining: c.combining,
        width: 1,
        style: Style { fg: color, bg: Color::Default, bold: false, underline: false, inverse: false },
    }
}

/// The buffer after writing frame glyph `ch` at `idx`: the cell becomes the
/// glyph, and the other half of a wide character it overwrites (the
/// continuation after a wide head, or the head before a continuation) is
/// blanked so no half glyph is left behind. An index past the buffer
/// changes nothing.
pub open spec fn put_frame_spec(out: Seq<Cell>, idx: int, ch: char, color: Color) -> Seq<Cell> {
    if idx < 0 || idx >= out.len() {
        out
    } else {
        let c = out[idx];
        let partner = if c.width == 2 && idx + 1 < out.len() && out[idx + 1].width == 0 {
            out.update(idx + 1, blank_keeping_style(out[idx + 1]))
        } else if c.width == 0 && idx > 0 && out[idx - 1].width == 2 {
            out.update(idx - 1, blank_keeping_style(out[idx - 1]))
        } else {
            out
        };
        partner.update(idx, frame_glyph_cell(c, ch, color))
    }
}

/// Whether the flush writes a glyph at `j`: the canvas has bits there and
/// the buffer (of length `n`) has the cell.
pub open spec fn glyph_at(edges: Seq<FrameEdge>, n: int, j: int) -> bool {
    0 <= j < edges.len() && j < n && edge_glyph(edges[j].mask) is Some
}

/// Cell `j` is a wide continuation whose head at `j - 1` gets a glyph.
pub open spec fn blanked_from_left(out: Seq<Cell>, edges: Seq<FrameEdge>, j: int) -> bool {
    j > 0 && glyph_at(edges, out.len() as int, j - 1) && out[j - 1].width == 2 && out[j].width == 0
}

/// Cell `j` is a wide head whose continuation at `j + 1` gets a glyph.
pub open spec fn blanked_from_right(out: Seq<Cell>, edges: Seq<FrameEdge>, j: int) -> bool {
    glyph_at(edges, out.len() as int, j + 1) && out[j].width == 2 && out[j + 1].width == 0
}

/// Cell `j` of `out` after the canvas `edges` is flushed into it: the glyph
/// of its bits in its color where it has any, a blank where it is the other
/// half of a wide character that a glyph overwrote, and unchanged elsewhere.
pub open spec fn flushed_cell(out: Seq<Cell>, edges: Seq<FrameEdge>, j: int) -> Cell {
    if glyph_at(edges, out.len() as int, j) {
        frame_glyph_cell(
            if blanked_from_left(out, edges, j) { blank_keeping_style(out[j]) } else { out[j] },
            edge_glyph(edges[j].mask)->0,
            edges[j].color,
        )
    } else if blanked_from_left(out, edges, j) || blanked_from_right(out, edges, j) {
        blank_keeping_style(out[j])
    } else {
        out[j]
    }
}

/// Write frame glyph `ch` in `color` into `out[idx]`, blanking the other
/// half of a wide character it overwrites; an index past the buffer is
/// ignored.
pub fn put_frame_cell(out: &mut Vec<Cell>, idx: usize, ch: char, color: Color)
    ensures
        final(out)@ == put_frame_spec(old(out)@, idx as int, ch, color),
{
    if idx >= out.len() {
        return;
    }
    let c = out[idx];
    if c.width == 2 {
        if idx + 1 < out.len() {
            let n = out[idx + 1];
            if n.width == 0 {
                out[idx + 1] = Cell { ch: ' ', combining: ['\0', '\0'], width: 1, style: n.style };
            }
        }
    } else if c.width == 0 && idx > 0 {
        let p = out[idx - 1];
        if p.width == 2 {
            out[idx - 1] = Cell { ch: ' ', combining: ['\0', '\0'], width: 1, style: p.style };
        }
    }
    out[idx] = Cell {
        ch,
        combining: c.combining,
        width: 1,
        style: Style { fg: color, bg: Color::Default, bold: false, underline: false, inverse: false },
    };
}

/// The accumulated outlines of a `cols` x `rows` screen, one entry per
/// cell in row-major order.
pub struct FrameCanvas {
    pub cols: u16,
    pub rows: u16,
    pub edges: Vec<FrameEdge>,
}

impl FrameCanvas {
    /// One entry per screen cell.
    pub open spec fn wf(&self) -> bool {
        self.edges@.len() == self.cols as int * self.rows as int
    }

    /// The entry of cell `(x, y)`.
    pub open spec fn at(&self, x: int, y: int) -> FrameEdge {
        self.edges@[cell_index(self.cols as int, x, y)]
    }

    /// An empty canvas for a `cols` x `rows` screen.
    pub fn new(cols: u16, rows: u16) -> (c: FrameCanvas)
        ensures
            c.wf(),
            c.cols == cols,
            c.rows == rows,
            forall|i: int| 0 <= i < c.edges@.len() ==> c.edges@[i] == empty_edge(),
    {
        assert((cols as int) * (rows as int) <= 0xffff * 0xffff) by (nonlinear_arith)
            requires
                cols <= 0xffff,
                rows <= 0xffff,
        ;
        let n: usize = (cols as usize) * (rows as usize);
        let mut edges: Vec<FrameEdge> = Vec::new();
        let mut i: usize = 0;
        while i < n
            invariant
                i <= n,
                edges@.len() == i,
                forall|j: int| 0 <= j < i ==> edges@[j] == empty_edge(),
            decreases n - i,
        {
            edges.push(FrameEdge { mask: 0, prio: 0, color: Color::Default });
            i = i + 1;
        }
        FrameCanvas { cols, rows, edges }
    }

    /// Whether no outline touched any cell.
    pub fn is_empty(&self) -> (b: bool)
        ensures
            b == (forall|i: int| 0 <= i < self.edges@.len() ==> self.edges@[i].mask == 0),
    {
        let mut i: usize = 0;
        while i < self.edges.len()
            invariant
                i <= self.edges@.len(),
                forall|j: int| 0 <= j < i ==> self.edges@[j].mask == 0,
            decreases self.edges@.len() - i,
        {
            if self.edges[i].mask != 0 {
                return false;
            }
            i = i + 1;
        }
        true
    }

    /// Contribute `mask` in `color` at `prio` to cell `(x, y)`; a cell off
    /// the screen is ignored.
    pub fn add(&mut self, x: i32, y: i32, mask: u8, color: Color, prio: u8)
        requires
            old(self).wf(),
        ensures
            final(self).wf(),
            final(self).cols == old(self).cols,
            final(self).rows == old(self).rows,
            (0 <= x < old(self).cols && 0 <= y < old(self).rows) ==> final(self).edges@
                == old(self).edges@.update(
                cell_index(old(self).cols as int, x as int, y as int),
                add_edge(old(self).at(x as int, y as int), mask, color, prio),
            ),
            !(0 <= x < old(self).cols && 0 <= y < old(self).rows) ==> final(self).edges@
                == old(self).edges@,
    {
        if x < 0 || y < 0 || x >= self.cols as i32 || y >= self.rows as i32 {
            return;
        }
        let len = self.edges.len();
        proof {
            lemma_cell_index(self.cols as int, self.rows as int, x as int, y as int, x as int, y as int);
            assert(0 <= (y as int) * (self.cols as int)) by (nonlinear_arith)
                requires
                    0 <= y,
                    0 <= self.cols,
            ;
            assert((y as int) * (self.cols as int) + (x as int) < len);
        }
        let idx: usize = (y as usize) * (self.cols as usize) + (x as usize);
        let e = self.edges[idx];
        let m: u8 = e.mask | mask;
        if prio > e.prio {
            self.edges[idx] = FrameEdge { mask: m, prio, color };
        } else {
            self.edges[idx] = FrameEdge { mask: m, prio: e.prio, color: e.color };
        }
    }

    /// A vertical rule at column `x` from row `y0` to row `y1`, inclusive.
    pub fn vline(&mut self, x: i32, y0: i32, y1: i32, color: Color, prio: u8)
        requires
            old(self).wf(),
        ensures
            final(self).wf(),
            final(self).cols == old(self).cols,
            final(self).rows == old(self).rows,
            forall|cx: int, cy: int|
                0 <= cx < old(self).cols && 0 <= cy < old(self).rows ==> #[trigger] final(self).edges@[cell_index(
                    old(self).cols as int,
                    cx,
                    cy,
                )] == paint_edge(
                    old(self).edges@[cell_index(old(self).cols as int, cx, cy)],
                    vline_mask(x as int, y0 as int, y1 as int, cx, cy),
                    color,
                    prio,
                ),
    {
        let ghost old_edges = self.edges@;
        let ghost cols = self.cols as int;
        let ghost rows = self.rows as int;
        let mut y: i64 = y0 as i64;
        while y <= y1 as i64
            invariant
                self.wf(),
                self.cols == cols,
                self.rows == rows,
                old_edges.len() == cols * rows,
                y0 <= y,
                y <= (if y0 <= y1 { y1 + 1 } else { y0 as int }),
                forall|cx: int, cy: int|
                    0 <= cx < cols && 0 <= cy < rows ==> #[trigger] self.edges@[cell_index(cols, cx, cy)]
                        == paint_edge(
                        old_edges[cell_index(cols, cx, cy)],
                        if cy < y { vline_mask(x as int, y0 as int, y1 as int, cx, cy) } else { 0u8 },
                        color,
                        prio,
                    ),
            decreases y1 as i64 + 1 - y,
        {
            let m: u8 = if y == y0 as i64 && y == y1 as i64 {
                5
            } else if y == y0 as i64 {
                4
            } else if y == y1 as i64 {
                1
            } else {
                5
            };
            let ghost before = self.edges@;
            let ghost yv = y as int;
            self.add(x, y as i32, m, color, prio);
            proof {
                lemma_add_step(
                    old_edges,
                    before,
                    self.edges@,
                    cols,
                    rows,
                    x as int,
                    yv,
                    m,
                    color,
                    prio,
                    |cx: int, cy: int|
                        if cy < yv { vline_mask(x as int, y0 as int, y1 as int, cx, cy) } else { 0u8 },
                    |cx: int, cy: int|
                        if cy < yv + 1 { vline_mask(x as int, y0 as int, y1 as int, cx, cy) } else { 0u8 },
                );
            }
            y = y + 1;
        }
        assert forall|cx: int, cy: int| 0 <= cx < cols && 0 <= cy < rows implies #[trigger] self.edges@[cell_index(
            cols,
            cx,
            cy,
        )] == paint_edge(
            old_edges[cell_index(cols, cx, cy)],
            vline_mask(x as int, y0 as int, y1 as int, cx, cy),
            color,
            prio,
        ) by {
            assert(self.edges@[cell_index(cols, cx, cy)] == paint_edge(
                old_edges[cell_index(cols, cx, cy)],
                if cy < y { vline_mask(x as int, y0 as int, y1 as int, cx, cy) } else { 0u8 },
                color,
                prio,
            ));
        }
    }

    /// The ring of `rect`, as four rules that join at the corners; a
    /// single-cell rect gets a short horizontal stroke.
    pub fn rect(&mut self, rect: Rect, color: Color, prio: u8)
        requires
            old(self).wf(),
        ensures
            final(self).wf(),
            final(self).cols == old(self).cols,
            final(self).rows == old(self).rows,
            forall|cx: int, cy: int|
                0 <= cx < old(self).cols && 0 <= cy < old(self).rows ==> #[trigger] final(self).edges@[cell_index(
                    old(self).cols as int,
                    cx,
                    cy,
                )] == paint_edge(
                    old(self).edges@[cell_index(old(self).cols as int, cx, cy)],
                    rect_mask(rect, cx, cy),
                    color,
                    prio,
                ),
    {
        if rect.w == 0 || rect.h == 0 {
            return;
        }
        let ghost cols = self.cols as int;
        let ghost rows = self.rows as int;
        let ghost e0 = self.edges@;
        let x0: i32 = rect.x as i32;
        let y0: i32 = rect.y as i32;
        let x1: i32 = x0 + rect.w as i32 - 1;
        let y1: i32 = y0 + rect.h as i32 - 1;
        if y1 > y0 {
            self.vline(x0, y0, y1, color, prio);
        }
        let ghost e1 = self.edges@;
        if y1 > y0 && x1 > x0 {
            self.vline(x1, y0, y1, color, prio);
        }
        let ghost e2 = self.edges@;
        if x1 > x0 {
            self.hline(x0, x1, y0, color, prio);
        }
        let ghost e3 = self.edges@;
        if x1 > x0 && y1 > y0 {
            self.hline(x0, x1, y1, color, prio);
        }
        let ghost e4 = self.edges@;
        if x1 == x0 && y1 == y0 {
            self.add(x0, y0, 10, color, prio);
        }
        proof {
            assert forall|cx: int, cy: int| 0 <= cx < cols && 0 <= cy < rows implies #[trigger] self.edges@[cell_index(
                cols,
                cx,
                cy,
            )] == paint_edge(e0[cell_index(cols, cx, cy)], rect_mask(rect, cx, cy), color, prio) by {
                let i = cell_index(cols, cx, cy);
                lemma_cell_index(cols, rows, cx, cy, cx, cy);
                let l: u8 = if y1 > y0 { vline_mask(x0 as int, y0 as int, y1 as int, cx, cy) } else { 0u8 };
                let r: u8 = if y1 > y0 && x1 > x0 { vline_mask(x1 as int, y0 as int, y1 as int, cx, cy) } else { 0u8 };
                let t: u8 = if x1 > x0 { hline_mask(x0 as int, x1 as int, y0 as int, cx, cy) } else { 0u8 };
                let b: u8 = if x1 > x0 && y1 > y0 { hline_mask(x0 as int, x1 as int, y1 as int, cx, cy) } else { 0u8 };
                let d: u8 = if x1 == x0 && y1 == y0 && cx == x0 && cy == y0 { 10u8 } else { 0u8 };
                assert(e1[i] == paint_edge(e0[i], l, color, prio));
                assert(e2[i] == paint_edge(e1[i], r, color, prio));
                assert(e3[i] == paint_edge(e2[i], t, color, prio));
                assert(e4[i] == paint_edge(e3[i], b, color, prio));
                if x1 == x0 && y1 == y0 && 0 <= x0 < cols && 0 <= y0 < rows {
                    lemma_cell_index(cols, rows, cx, cy, x0 as int, y0 as int);
                    lemma_cell_index(cols, rows, x0 as int, y0 as int, x0 as int, y0 as int);
                } else {
                    assert(self.edges@ == e4);
                }
                assert(self.edges@[i] == paint_edge(e4[i], d, color, prio));
                lemma_paint_edge_chain(e0[i], l, r, t, b, d, color, prio);
            }
        }
    }

    /// The glyph for an accumulated edge mask (`N = 1`, `E = 2`, `S = 4`,
    /// `W = 8`, so `15` is all four and `5` is north and south).
    pub fn glyph(mask: u8) -> (g: Option<char>)
        ensures
            g == edge_glyph(mask),
    {
        if mask == 0 {
            None
        } else if mask == 15 {
            Some('┼')
        } else if mask == 7 {
            Some('├')
        } else if mask == 13 {
            Some('┤')
        } else if mask == 14 {
            Some('┬')
        } else if mask == 11 {
            Some('┴')
        } else if mask == 6 {
            Some('╭')
        } else if mask == 12 {
            Some('╮')
        } else if mask == 3 {
            Some('╰')
        } else if mask == 9 {
            Some('╯')
        } else if mask == 5 {
            Some('│')
        } else if mask == 10 {
            Some('─')
        } else if mask & 5 != 0 {
            Some('│')
        } else {
            Some('─')
        }
    }

    /// Write the merged frame into the cell buffer, cell by cell in
    /// row-major order.
    pub fn flush(&self, out: &mut Vec<Cell>)
        requires
            self.wf(),
        ensures
            final(out)@.len() == old(out)@.len(),
            forall|j: int|
                0 <= j < old(out)@.len() ==> #[trigger] final(out)@[j] == flushed_cell(
                    old(out)@,
                    self.edges@,
                    j,
                ),
    {
        let ghost o = out@;
        let ghost edges = self.edges@;
        let ghost n = out@.len() as int;
        let mut k: usize = 0;
        while k < self.edges.len()
            invariant
                edges == self.edges@,
                o.len() == n,
                out@.len() == n,
                k <= edges.len(),
                forall|j: int|
                    0 <= j < n ==> #[trigger] out@[j] == (if j + 1 < k {
                        flushed_cell(o, edges, j)
                    } else if j + 1 == k {
                        if glyph_at(edges, n, j) {
                            frame_glyph_cell(
                                if blanked_from_left(o, edges, j) { blank_keeping_style(o[j]) } else { o[j] },
                                edge_glyph(edges[j].mask)->0,
                                edges[j].color,
                            )
                        } else if blanked_from_left(o, edges, j) {
                            blank_keeping_style(o[j])
                        } else {
                            o[j]
                        }
                    } else if j == k {
                        if blanked_from_left(o, edges, j) { blank_keeping_style(o[j]) } else { o[j] }
                    } else {
                        o[j]
                    }),
            decreases edges.len() - k,
        {
            let g = Self::glyph(self.edges[k].mask);
            let ghost cur = out@;
            match g {
                Some(ch) => {
                    put_frame_cell(out, k, ch, self.edges[k].color);
                },
                None => {},
            }
            proof {
                let kk = k as int;
                assert forall|j: int| 0 <= j < n implies #[trigger] out@[j] == (if j + 1 < kk + 1 {
                    flushed_cell(o, edges, j)
                } else if j + 1 == kk + 1 {
                    if glyph_at(edges, n, j) {
                        frame_glyph_cell(
                            if blanked_from_left(o, edges, j) { blank_keeping_style(o[j]) } else { o[j] },
                            edge_glyph(edges[j].mask)->0,
                            edges[j].color,
                        )
                    } else if blanked_from_left(o, edges, j) {
                        blank_keeping_style(o[j])
                    } else {
                        o[j]
                    }
                } else if j == kk + 1 {
                    if blanked_from_left(o, edges, j) { blank_keeping_style(o[j]) } else { o[j] }
                } else {
                    o[j]
                }) by {
                    assert(cur[j] == (if j + 1 < kk {
                        flushed_cell(o, edges, j)
                    } else if j + 1 == kk {
                        if glyph_at(edges, n, j) {
                            frame_glyph_cell(
                                if blanked_from_left(o, edges, j) { blank_keeping_style(o[j]) } else { o[j] },
                                edge_glyph(edges[j].mask)->0,
                                edges[j].color,
                            )
                        } else if blanked_from_left(o, edges, j) {
                            blank_keeping_style(o[j])
                        } else {
                            o[j]
                        }
                    } else if j == kk {
                        if blanked_from_left(o, edges, j) { blank_keeping_style(o[j]) } else { o[j] }
                    } else {
                        o[j]
                    }));
                    if kk < n {
                        assert(cur[kk] == (if blanked_from_left(o, edges, kk) { blank_keeping_style(o[kk]) } else { o[kk] }));
                    }
                    if kk >= 1 && kk - 1 < n {
                        let p = kk - 1;
                        assert(cur[p] == (if glyph_at(edges, n, p) {
                            frame_glyph_cell(
                                if blanked_from_left(o, edges, p) { blank_keeping_style(o[p]) } else { o[p] },
                                edge_glyph(edges[p].mask)->0,
                                edges[p].color,
                            )
                        } else if blanked_from_left(o, edges, p) {
                            blank_keeping_style(o[p])
                        } else {
                            o[p]
                        }));
                    }
                    if kk + 1 < n {
                        assert(cur[kk + 1] == o[kk + 1]);
                    }
                }
            }
            k = k + 1;
        }
        proof {
            assert forall|j: int| 0 <= j < n implies #[trigger] out@[j] == flushed_cell(o, edges, j) by {
                assert(!glyph_at(edges, n, edges.len() as int));
                assert(!glyph_at(edges, n, edges.len() as int + 1));
            }
        }
    }

    /// A horizontal rule on row `y` from column `x0` to column `x1`,
    /// inclusive.
    pub fn hline(&mut self, x0: i32, x1: i32, y: i32, color: Color, prio: u8)
        requires
            old(self).wf(),
        ensures
            final(self).wf(),
            final(self).cols == old(self).cols,
            final(self).rows == old(self).rows,
            forall|cx: int, cy: int|
                0 <= cx < old(self).cols && 0 <= cy < old(self).rows ==> #[trigger] final(self).edges@[cell_index(
                    old(self).cols as int,
                    cx,
                    cy,
                )] == paint_edge(
                    old(self).edges@[cell_index(old(self).cols as int, cx, cy)],
                    hline_mask(x0 as int, x1 as int, y as int, cx, cy),
                    color,
                    prio,
                ),
    {
        let ghost old_edges = self.edges@;
        let ghost cols = self.cols as int;
        let ghost rows = self.rows as int;
        let mut x: i64 = x0 as i64;
        while x <= x1 as i64
            invariant
                self.wf(),
                self.cols == cols,
                self.rows == rows,
                old_edges.len() == cols * rows,
                x0 <= x,
                x <= (if x0 <= x1 { x1 + 1 } else { x0 as int }),
                forall|cx: int, cy: int|
                    0 <= cx < cols && 0 <= cy < rows ==> #[trigger] self.edges@[cell_index(cols, cx, cy)]
                        == paint_edge(
                        old_edges[cell_index(cols, cx, cy)],
                        if cx < x { hline_mask(x0 as int, x1 as int, y as int, cx, cy) } else { 0u8 },
                        color,
                        prio,
                    ),
            decreases x1 as i64 + 1 - x,
        {
            let m: u8 = if x == x0 as i64 && x == x1 as i64 {
                10
            } else if x == x0 as i64 {
                2
            } else if x == x1 as i64 {
                8
            } else {
                10
            };
            let ghost before = self.edges@;
            let ghost xv = x as int;
            self.add(x as i32, y, m, color, prio);
            proof {
                lemma_add_step(
                    old_edges,
                    before,
                    self.edges@,
                    cols,
                    rows,
                    xv,
                    y as int,
                    m,
                    color,
                    prio,
                    |cx: int, cy: int|
                        if cx < xv { hline_mask(x0 as int, x1 as int, y as int, cx, cy) } else { 0u8 },
                    |cx: int, cy: int|
                        if cx < xv + 1 { hline_mask(x0 as int, x1 as int, y as int, cx, cy) } else { 0u8 },
                );
            }
            x = x + 1;
        }
        assert forall|cx: int, cy: int| 0 <= cx < cols && 0 <= cy < rows implies #[trigger] self.edges@[cell_index(
            cols,
            cx,
            cy,
        )] == paint_edge(
            old_edges[cell_index(cols, cx, cy)],
            hline_mask(x0 as int, x1 as int, y as int, cx, cy),
            color,
            prio,
        ) by {
            assert(self.edges@[cell_index(cols, cx, cy)] == paint_edge(
                old_edges[cell_index(cols, cx, cy)],
                if cx < x { hline_mask(x0 as int, x1 as int, y as int, cx, cy) } else { 0u8 },
                color,
                prio,
            ));
        }
    }
}

/// Five paints with one color and priority are one paint with the union of
/// their masks.
proof fn lemma_paint_edge_chain(e: FrameEdge, a: u8, b: u8, c: u8, d: u8, f: u8, color: Color, prio: u8)
    ensures
        paint_edge(
            paint_edge(
                paint_edge(paint_edge(paint_edge(e, a, color, prio), b, color, prio), c, color, prio),
                d,
                color,
                prio,
            ),
            f,
            color,
            prio,
        ) == paint_edge(e, a | b | c | d | f, color, prio),
{
    lemma_paint_edge_merge(e, a, b, color, prio);
    lemma_paint_edge_merge(e, a | b, c, color, prio);
    lemma_paint_edge_merge(e, a | b | c, d, color, prio);
    lemma_paint_edge_merge(e, a | b | c | d, f, color, prio);
}

/// After painting cell `(x, y)` with `m != 0`, every cell of the screen is
/// what painting the old canvas with `mask_after` gives, provided it was what
/// painting with `mask_before` gives and the two masks differ only at
/// `(x, y)`, where `mask_before` is zero and `mask_after` is `m`.
proof fn lemma_add_step(
    old_edges: Seq<FrameEdge>,
    before: Seq<FrameEdge>,
    after: Seq<FrameEdge>,
    cols: int,
    rows: int,
    x: int,
    y: int,
    m: u8,
    color: Color,
    prio: u8,
    mask_before: spec_fn(int, int) -> u8,
    mask_after: spec_fn(int, int) -> u8,
)
    requires
        old_edges.len() == cols * rows,
        before.len() == cols * rows,
        m != 0,
        forall|cx: int, cy: int|
            0 <= cx < cols && 0 <= cy < rows ==> #[trigger] before[cell_index(cols, cx, cy)]
                == paint_edge(old_edges[cell_index(cols, cx, cy)], mask_before(cx, cy), color, prio),
        forall|cx: int, cy: int|
            0 <= cx < cols && 0 <= cy < rows && !(cx == x && cy == y) ==> #[trigger] mask_after(cx, cy)
                == mask_before(cx, cy),
        (0 <= x < cols && 0 <= y < rows) ==> mask_before(x, y) == 0 && mask_after(x, y) == m,
        (0 <= x < cols && 0 <= y < rows) ==> after == before.update(
            cell_index(cols, x, y),
            add_edge(before[cell_index(cols, x, y)], m, color, prio),
        ),
        !(0 <= x < cols && 0 <= y < rows) ==> after == before,
    ensures
        after.len() == cols * rows,
        forall|cx: int, cy: int|
            0 <= cx < cols && 0 <= cy < rows ==> #[trigger] after[cell_index(cols, cx, cy)]
                == paint_edge(old_edges[cell_index(cols, cx, cy)], mask_after(cx, cy), color, prio),
{
    if 0 <= x < cols && 0 <= y < rows {
        lemma_cell_index(cols, rows, x, y, x, y);
        assert(after.len() == before.len());
    }
    assert forall|cx: int, cy: int| 0 <= cx < cols && 0 <= cy < rows implies #[trigger] after[cell_index(
        cols,
        cx,
        cy,
    )] == paint_edge(old_edges[cell_index(cols, cx, cy)], mask_after(cx, cy), color, prio) by {
        lemma_cell_index(cols, rows, cx, cy, cx, cy);
        assert(before[cell_index(cols, cx, cy)] == paint_edge(
            old_edges[cell_index(cols, cx, cy)],
            mask_before(cx, cy),
            color,
            prio,
        ));
        if 0 <= x < cols && 0 <= y < rows {
            lemma_cell_index(cols, rows, cx, cy, x, y);
            if cx == x && cy == y {
            } else {
                assert(mask_after(cx, cy) == mask_before(cx, cy));
            }
        }
    }
}

/// The frame glyph writes that ring `r` on a `stride`-wide buffer, in
/// order: a single row is all `─`, a single column all `│`; otherwise the
/// top and bottom rules (alternating, left to right), the left and right
/// rules (alternating, top to bottom), then the four rounded corners.
pub open spec fn ring_puts(stride: int, r: Rect) -> Seq<(int, char)> {
    let x0 = r.x as int;
    let y0 = r.y as int;
    let w = r.w as int;
    let h = r.h as int;
    let x1 = x0 + w - 1;
    let y1 = y0 + h - 1;
    if h == 1 {
        Seq::new(w as nat, |k: int| (y0 * stride + x0 + k, '─'))
    } else if w == 1 {
        Seq::new(if h > 0 { h as nat } else { 0 }, |k: int| ((y0 + k) * stride + x0, '│'))
    } else {
        let tb = Seq::new(
            if w > 2 { (2 * (w - 2)) as nat } else { 0 },
            |k: int|
                if k % 2 == 0 {
                    (y0 * stride + x0 + 1 + k / 2, '─')
                } else {
                    (y1 * stride + x0 + 1 + k / 2, '─')
                },
        );
        let lr = Seq::new(
            if h > 2 { (2 * (h - 2)) as nat } else { 0 },
            |k: int|
                if k % 2 == 0 {
                    ((y0 + 1 + k / 2) * stride + x0, '│')
                } else {
                    ((y0 + 1 + k / 2) * stride + x1, '│')
                },
        );
        tb + lr + seq![
            (y0 * stride + x0, '╭'),
            (y0 * stride + x1, '╮'),
            (y1 * stride + x0, '╰'),
            (y1 * stride + x1, '╯'),
        ]
    }
}

/// The buffer after the frame glyph writes `puts`, in order, in `color`.
pub open spec fn apply_frame_puts(out: Seq<Cell>, puts: Seq<(int, char)>, color: Color) -> Seq<Cell>
    decreases puts.len(),
{
    if puts.len() == 0 {
        out
    } else {
        let p = puts.last();
        put_frame_spec(apply_frame_puts(out, puts.drop_last(), color), p.0, p.1, color)
    }
}

proof fn lemma_row_offset(a: int, s: int)
    requires
        0 <= a <= 0x20000,
        0 <= s <= 0xffff,
    ensures
        a * s <= 0x20000 * 0xffff,
{
    assert(a * s <= 0x20000 * 0xffff) by (nonlinear_arith)
        requires
            0 <= a <= 0x20000,
            0 <= s <= 0xffff,
    ;
}

/// One frame glyph write at a buffer index that may lie past the buffer.
fn put_frame_at(out: &mut Vec<Cell>, idx: u64, ch: char, color: Color)
    ensures
        final(out)@ == put_frame_spec(old(out)@, idx as int, ch, color),
{
    if idx < out.len() as u64 {
        put_frame_cell(out, idx as usize, ch, color);
    }
}

proof fn lemma_apply_step(out: Seq<Cell>, puts: Seq<(int, char)>, k: int, color: Color)
    requires
        0 <= k < puts.len(),
    ensures
        apply_frame_puts(out, puts.take(k + 1), color) == put_frame_spec(
            apply_frame_puts(out, puts.take(k), color),
            puts[k].0,
            puts[k].1,
            color,
        ),
{
    assert(puts.take(k + 1).drop_last() =~= puts.take(k));
}

/// Overlay a thin frame on the edge ring of `rect` in a `cols`-wide
/// buffer: rounded corners and `─`/`│` rules in `color` on the default
/// background, each written as a frame glyph (the other half of a wide
/// character it overwrites is blanked).
#[verifier::rlimit(40)]
pub fn draw_focus_frame(out: &mut Vec<Cell>, cols: u16, rect: Rect, color: Color)
    requires
        rect.x + rect.w >= 1,
        rect.y + rect.h >= 1,
    ensures
        final(out)@ == apply_frame_puts(old(out)@, ring_puts(cols as int, rect), color),
{
    let ghost puts = ring_puts(cols as int, rect);
    let s: u64 = cols as u64;
    let x0: u64 = rect.x as u64;
    let y0: u64 = rect.y as u64;
    let w: u64 = rect.w as u64;
    let h: u64 = rect.h as u64;
    let x1: u64 = x0 + w - 1;
    let y1: u64 = y0 + h - 1;
    let ghost o = out@;
    if h == 1 {
        let mut k: u64 = 0;
        while k < w
            invariant
                k <= w,
                h == 1,
                puts == ring_puts(cols as int, rect),
                puts.len() == w,
                s == cols,
                x0 == rect.x,
                y0 == rect.y,
                w == rect.w,
                out@ == apply_frame_puts(o, puts.take(k as int), color),
            decreases w - k,
        {
            proof {
                lemma_apply_step(o, puts, k as int, color);
                lemma_row_offset((y0) as int, s as int);
            }
            put_frame_at(out, y0 * s + x0 + k, '─', color);
            k = k + 1;
        }
        proof {
            assert(puts.take(k as int) =~= puts);
        }
        return;
    }
    if w == 1 {
        let mut k: u64 = 0;
        while k < h
            invariant
                k <= h,
                h != 1,
                w == 1,
                puts == ring_puts(cols as int, rect),
                puts.len() == h,
                s == cols,
                x0 == rect.x,
                y0 == rect.y,
                h == rect.h,
                out@ == apply_frame_puts(o, puts.take(k as int), color),
            decreases h - k,
        {
            proof {
                lemma_apply_step(o, puts, k as int, color);
                lemma_row_offset((y0 + k) as int, s as int);
            }
            put_frame_at(out, (y0 + k) * s + x0, '│', color);
            k = k + 1;
        }
        proof {
            assert(puts.take(k as int) =~= puts);
        }
        return;
    }
    let ghost ntb: int = if w > 2 { 2 * (w - 2) } else { 0 };
    let ghost nlr: int = if h > 2 { 2 * (h - 2) } else { 0 };
    proof {
        assert(puts.len() == ntb + nlr + 4);
    }
    let mut x: u64 = 1;
    while x + 1 < w
        invariant
            1 <= x,
            x <= (if w >= 2 { w - 1 } else { 1 }),
            h != 1,
            w != 1,
            puts == ring_puts(cols as int, rect),
            ntb == (if w > 2 { 2 * (w - 2) } else { 0 }),
            puts.len() == ntb + nlr + 4,
            s == cols,
            x0 == rect.x,
            y0 == rect.y,
            w == rect.w,
            h == rect.h,
            y1 == y0 + h - 1,
            out@ == apply_frame_puts(o, puts.take(2 * (x - 1)), color),
        decreases w - x,
    {
        let ghost k = 2 * (x as int - 1);
        proof {
            lemma_apply_step(o, puts, k, color);
            lemma_row_offset((y0) as int, s as int);
            lemma_row_offset((y1) as int, s as int);
            assert(puts[k] == ((y0 * s + x0 + x) as int, '─'));
        }
        put_frame_at(out, y0 * s + x0 + x, '─', color);
        proof {
            lemma_apply_step(o, puts, k + 1, color);
            assert(puts[k + 1] == ((y1 * s + x0 + x) as int, '─'));
        }
        put_frame_at(out, y1 * s + x0 + x, '─', color);
        x = x + 1;
    }
    proof {
        assert(2 * (x - 1) == ntb);
    }
    let mut y: u64 = 1;
    while y + 1 < h
        invariant
            1 <= y,
            y <= (if h >= 2 { h - 1 } else { 1 }),
            h != 1,
            w != 1,
            puts == ring_puts(cols as int, rect),
            ntb == (if w > 2 { 2 * (w - 2) } else { 0 }),
            nlr == (if h > 2 { 2 * (h - 2) } else { 0 }),
            puts.len() == ntb + nlr + 4,
            s == cols,
            x0 == rect.x,
            y0 == rect.y,
            w == rect.w,
            h == rect.h,
            x1 == x0 + w - 1,
            out@ == apply_frame_puts(o, puts.take(ntb + 2 * (y - 1)), color),
        decreases h - y,
    {
        let ghost k = ntb + 2 * (y as int - 1);
        proof {
            lemma_apply_step(o, puts, k, color);
            lemma_row_offset((y0 + y) as int, s as int);
            assert(puts[k] == (((y0 + y) * s + x0) as int, '│'));
        }
        put_frame_at(out, (y0 + y) * s + x0, '│', color);
        proof {
            lemma_apply_step(o, puts, k + 1, color);
            assert(puts[k + 1] == (((y0 + y) * s + x1) as int, '│'));
        }
        put_frame_at(out, (y0 + y) * s + x1, '│', color);
        y = y + 1;
    }
    let ghost base = ntb + nlr;
    proof {
        assert(ntb + 2 * (y - 1) == base);
        lemma_apply_step(o, puts, base, color);
        lemma_row_offset((y0) as int, s as int);
        lemma_row_offset((y1) as int, s as int);
    }
    put_frame_at(out, y0 * s + x0, '╭', color);
    proof {
        lemma_apply_step(o, puts, base + 1, color);
    }
    put_frame_at(out, y0 * s + x1, '╮', color);
    proof {
        lemma_apply_step(o, puts, base + 2, color);
    }
    put_frame_at(out, y1 * s + x0, '╰', color);
    proof {
        lemma_apply_step(o, puts, base + 3, color);
    }
    put_frame_at(out, y1 * s + x1, '╯', color);
    proof {
        assert(puts.take(base + 4) =~= puts);
    }
}

/// Two outlines of different priority leave the same cell whichever is
/// painted first: the bits merge and the higher priority's color wins.
pub proof fn paint_order_is_irrelevant_across_priorities(
    e: FrameEdge,
    m1: u8,
    c1: Color,
    p1: u8,
    m2: u8,
    c2: Color,
    p2: u8,
)
    requires
        p1 != p2,
    ensures
        paint_edge(paint_edge(e, m1, c1, p1), m2, c2, p2) == paint_edge(paint_edge(e, m2, c2, p2), m1, c1, p1),
{
    let m = e.mask;
    assert((m | m1) | m2 == (m | m2) | m1) by (bit_vector);
}

/// Whatever the order, the color of a cell that two outlines touch is that
/// of the higher priority when it beats what the cell already had; equal
/// priorities keep the first writer's color. The merged bits never depend
/// on the order.
pub proof fn highest_priority_owns_a_shared_edge(
    e: FrameEdge,
    m1: u8,
    c1: Color,
    p1: u8,
    m2: u8,
    c2: Color,
    p2: u8,
)
    requires
        m1 != 0,
        m2 != 0,
        p1 < p2,
        e.prio < p2,
    ensures
        paint_edge(paint_edge(e, m1, c1, p1), m2, c2, p2).color == c2,
        paint_edge(paint_edge(e, m2, c2, p2), m1, c1, p1).color == c2,
        paint_edge(paint_edge(e, m1, c1, p1), m2, c2, p2).mask == e.mask | m1 | m2,
        paint_edge(paint_edge(e, m2, c2, p2), m1, c1, p1).mask == e.mask | m1 | m2,
{
    let m = e.mask;
    assert((m | m2) | m1 == (m | m1) | m2) by (bit_vector);
    assert(m | m1 != 0) by (bit_vector)
        requires
            m1 != 0,
    ;
}

/// Painting the same outline twice leaves what painting it once does.
pub proof fn repainting_an_outline_is_idempotent(e: FrameEdge, m: u8, color: Color, prio: u8)
    ensures
        paint_edge(paint_edge(e, m, color, prio), m, color, prio) == paint_edge(e, m, color, prio),
{
    let k = e.mask;
    assert((k | m) | m == k | m) by (bit_vector);
}

/// The ring of a rect at least two cells each way: rounded corners, rules
/// along its sides, and nothing inside or outside it.
pub proof fn rect_ring_glyphs(r: Rect, cx: int, cy: int)
    requires
        r.w >= 2,
        r.h >= 2,
    ensures
        ({
            let x0 = r.x as int;
            let y0 = r.y as int;
            let x1 = x0 + r.w - 1;
            let y1 = y0 + r.h - 1;
            let g = edge_glyph(rect_mask(r, cx, cy));
            &&& (cx == x0 && cy == y0) ==> g == Some('╭')
            &&& (cx == x1 && cy == y0) ==> g == Some('╮')
            &&& (cx == x0 && cy == y1) ==> g == Some('╰')
            &&& (cx == x1 && cy == y1) ==> g == Some('╯')
            &&& ((cy == y0 || cy == y1) && x0 < cx < x1) ==> g == Some('─')
            &&& ((cx == x0 || cx == x1) && y0 < cy < y1) ==> g == Some('│')
            &&& (!(x0 <= cx <= x1 && y0 <= cy <= y1) || (x0 < cx < x1 && y0 < cy < y1)) ==> g
                == None::<char>
        }),
{
    assert(4u8 | 0u8 | 2u8 | 0u8 | 0u8 == 6u8) by (bit_vector);
    assert(0u8 | 4u8 | 8u8 | 0u8 | 0u8 == 12u8) by (bit_vector);
    assert(1u8 | 0u8 | 0u8 | 2u8 | 0u8 == 3u8) by (bit_vector);
    assert(0u8 | 1u8 | 0u8 | 8u8 | 0u8 == 9u8) by (bit_vector);
    assert(0u8 | 0u8 | 10u8 | 0u8 | 0u8 == 10u8) by (bit_vector);
    assert(0u8 | 0u8 | 0u8 | 10u8 | 0u8 == 10u8) by (bit_vector);
    assert(5u8 | 0u8 | 0u8 | 0u8 | 0u8 == 5u8) by (bit_vector);
    assert(0u8 | 5u8 | 0u8 | 0u8 | 0u8 == 5u8) by (bit_vector);
    assert(0u8 | 0u8 | 0u8 | 0u8 | 0u8 == 0u8) by (bit_vector);
}

/// Two boxes of one height that share their boundary column draw it as a
/// single rule: tees where the top and bottom rules meet it, a plain
/// vertical between them.
pub proof fn adjacent_boxes_share_one_rule(a: Rect, b: Rect, cy: int)
    requires
        a.w >= 2,
        b.w >= 2,
        a.h >= 2,
        a.y == b.y,
        a.h == b.h,
        b.x == a.x + a.w - 1,
        a.y <= cy <= a.y + a.h - 1,
    ensures
        ({
            let sx = b.x as int;
            let g = edge_glyph(rect_mask(a, sx, cy) | rect_mask(b, sx, cy));
            &&& cy == a.y ==> g == Some('┬')
            &&& cy == a.y + a.h - 1 ==> g == Some('┴')
            &&& (a.y < cy < a.y + a.h - 1) ==> g == Some('│')
        }),
{
    assert((0u8 | 4u8 | 8u8 | 0u8 | 0u8) | (4u8 | 0u8 | 2u8 | 0u8 | 0u8) == 14u8) by (bit_vector);
    assert((0u8 | 1u8 | 0u8 | 8u8 | 0u8) | (1u8 | 0u8 | 0u8 | 2u8 | 0u8) == 11u8) by (bit_vector);
    assert((0u8 | 5u8 | 0u8 | 0u8 | 0u8) | (5u8 | 0u8 | 0u8 | 0u8 | 0u8) == 5u8) by (bit_vector);
}

} // verus!
