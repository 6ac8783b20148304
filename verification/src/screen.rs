//! Writing into a frame buffer: a `cols`-wide screen of cells in row-major
//! order. Cell `i` sits at column `i % cols` of row `i / cols`; a write
//! past the end of the buffer is dropped.

use vstd::prelude::*;
use crate::cell::{Cell, Color, Style};

verus! {

/// The column of buffer index `i` on a `cols`-wide screen.
pub open spec fn col_of(cols: int, i: int) -> int {
    i % cols
}

/// The row of buffer index `i` on a `cols`-wide screen.
pub open spec fn row_of(cols: int, i: int) -> int {
    i / cols
}

/// Index `i` is cell `(x, y)` of a `cols`-wide screen exactly when it is
/// `y * cols + x`.
pub proof fn lemma_index_coords(cols: int, i: int, x: int, y: int)
    requires
        cols > 0,
        0 <= x < cols,
        0 <= i,
    ensures
        (i == y * cols + x) <==> (col_of(cols, i) == x && row_of(cols, i) == y),
{
    vstd::arithmetic::div_mod::lemma_fundamental_div_mod(i, cols);
    assert(cols * (i / cols) == (i / cols) * cols) by (nonlinear_arith);
    if i == y * cols + x {
        vstd::arithmetic::div_mod::lemma_fundamental_div_mod_converse(i, cols, y, x);
    }
}

/// Cell `i` lies in the `w` x `h` box at `(x0, y0)`.
pub open spec fn in_box(cols: int, x0: int, y0: int, w: int, h: int, i: int) -> bool {
    cols > 0 && x0 <= col_of(cols, i) < x0 + w && y0 <= row_of(cols, i) < y0 + h
}

/// A fresh cell showing `ch` in `fg` on `bg`, bold or not, with no other
/// attribute.
pub open spec fn styled(ch: char, fg: Color, bg: Color, bold: bool) -> Cell {
    Cell {
        ch,
        combining: ['\0', '\0'],
        width: 1,
        style: Style { fg, bg, bold, underline: false, inverse: false },
    }
}

/// A fresh cell showing `ch` in `fg` on `bg`.
pub fn styled_cell(ch: char, fg: Color, bg: Color, bold: bool) -> (c: Cell)
    ensures
        c == styled(ch, fg, bg, bold),
{
    Cell {
        ch,
        combining: ['\0', '\0'],
        width: 1,
        style: Style { fg, bg, bold, underline: false, inverse: false },
    }
}

/// Set cell `(x, y)` (which must be on a row of the screen's width) to
/// `c`, when the buffer holds it.
pub fn put_cell(out: &mut Vec<Cell>, cols: u16, x: usize, y: usize, c: Cell)
    requires
        x < cols,
        y <= 0x2_0000,
    ensures
        final(out)@.len() == old(out)@.len(),
        forall|i: int|
            0 <= i < old(out)@.len() ==> #[trigger] final(out)@[i] == (if col_of(cols as int, i) == x
                && row_of(cols as int, i) == y {
                c
            } else {
                old(out)@[i]
            }),
{
    proof {
        assert((y as int) * (cols as int) <= 0x2_0000 * 0xffff) by (nonlinear_arith)
            requires
                y <= 0x2_0000,
                cols <= 0xffff,
                0 <= y,
        ;
    }
    let idx: u64 = y as u64 * cols as u64 + x as u64;
    let ghost o = out@;
    if idx < out.len() as u64 {
        out[idx as usize] = c;
    }
    proof {
        assert forall|i: int| 0 <= i < o.len() implies #[trigger] out@[i] == (if col_of(cols as int, i) == x
            && row_of(cols as int, i) == y {
            c
        } else {
            o[i]
        }) by {
            lemma_index_coords(cols as int, i, x as int, y as int);
        }
    }
}

/// Fill the `w` x `h` box at `(x0, y0)` (which must lie within the
/// screen's width) with `c`.
pub fn fill_box(out: &mut Vec<Cell>, cols: u16, x0: usize, y0: usize, w: usize, h: usize, c: Cell)
    requires
        x0 + w <= cols,
        y0 + h <= 0x2_0000,
    ensures
        final(out)@.len() == old(out)@.len(),
        forall|i: int|
            0 <= i < old(out)@.len() ==> #[trigger] final(out)@[i] == (if in_box(
                cols as int,
                x0 as int,
                y0 as int,
                w as int,
                h as int,
                i,
            ) {
                c
            } else {
                old(out)@[i]
            }),
{
    let ghost o = out@;
    let mut dy: usize = 0;
    while dy < h
        invariant
            x0 + w <= cols,
            y0 + h <= 0x2_0000,
            dy <= h,
            out@.len() == o.len(),
            forall|i: int|
                0 <= i < o.len() ==> #[trigger] out@[i] == (if in_box(
                    cols as int,
                    x0 as int,
                    y0 as int,
                    w as int,
                    dy as int,
                    i,
                ) {
                    c
                } else {
                    o[i]
                }),
        decreases h - dy,
    {
        let mut dx: usize = 0;
        while dx < w
            invariant
                x0 + w <= cols,
                y0 + h <= 0x2_0000,
                dy < h,
                dx <= w,
                out@.len() == o.len(),
                forall|i: int|
                    0 <= i < o.len() ==> #[trigger] out@[i] == (if in_box(
                        cols as int,
                        x0 as int,
                        y0 as int,
                        w as int,
                        dy as int,
                        i,
                    ) || in_box(cols as int, x0 as int, (y0 + dy) as int, dx as int, 1, i) {
                        c
                    } else {
                        o[i]
                    }),
            decreases w - dx,
        {
            put_cell(out, cols, x0 + dx, y0 + dy, c);
            dx = dx + 1;
        }
        dy = dy + 1;
    }
}

/// Write `text` on row `y` from column `x0` on, one character per cell in
/// `fg` on `bg`, stopping before column `limit` (at most the screen width).
pub fn write_row(
    out: &mut Vec<Cell>,
    cols: u16,
    x0: usize,
    y: usize,
    text: &Vec<char>,
    limit: usize,
    fg: Color,
    bg: Color,
    bold: bool,
)
    requires
        limit <= cols,
        y <= 0x2_0000,
    ensures
        final(out)@.len() == old(out)@.len(),
        forall|i: int|
            0 <= i < old(out)@.len() ==> #[trigger] final(out)@[i] == (if row_of(cols as int, i) == y && x0
                <= col_of(cols as int, i) && col_of(cols as int, i) < x0 + text@.len() && col_of(cols as int, i)
                < limit {
                styled(text@[col_of(cols as int, i) - x0], fg, bg, bold)
            } else {
                old(out)@[i]
            }),
{
    let ghost o = out@;
    let mut k: usize = 0;
    while k < text.len()
        invariant
            limit <= cols,
            y <= 0x2_0000,
            k <= text@.len(),
            o == old(out)@,
            out@.len() == o.len(),
            forall|i: int|
                0 <= i < o.len() ==> #[trigger] out@[i] == (if row_of(cols as int, i) == y && x0 <= col_of(
                    cols as int,
                    i,
                ) && col_of(cols as int, i) < x0 + k && col_of(cols as int, i) < limit {
                    styled(text@[col_of(cols as int, i) - x0], fg, bg, bold)
                } else {
                    o[i]
                }),
        decreases text@.len() - k,
    {
        if x0 >= limit || k >= limit - x0 {
            proof {
                assert forall|i: int| 0 <= i < o.len() implies #[trigger] out@[i] == (if row_of(cols as int, i) == y
                    && x0 <= col_of(cols as int, i) && col_of(cols as int, i) < x0 + text@.len() && col_of(
                    cols as int,
                    i,
                ) < limit {
                    styled(text@[col_of(cols as int, i) - x0], fg, bg, bold)
                } else {
                    o[i]
                }) by {}
            }
            return;
        }
        let c = styled_cell(text[k], fg, bg, bold);
        put_cell(out, cols, x0 + k, y, c);
        k = k + 1;
    }
}

/// The glyph of position `(px, py)` of the ring of a `w` x `h` box (at
/// least two cells each way): rounded corners, rules along the sides, and
/// `None` inside.
pub open spec fn ring_char(px: int, py: int, w: int, h: int) -> Option<char> {
    if px == 0 && py == 0 {
        Some('╭')
    } else if px == w - 1 && py == 0 {
        Some('╮')
    } else if px == 0 && py == h - 1 {
        Some('╰')
    } else if px == w - 1 && py == h - 1 {
        Some('╯')
    } else if (py == 0 || py == h - 1) && 0 <= px < w {
        Some('─')
    } else if (px == 0 || px == w - 1) && 0 <= py < h {
        Some('│')
    } else {
        None
    }
}

/// Draw the ring of the `w` x `h` box at `(x0, y0)`: its rules and
/// rounded corners, each a fresh cell in `fg` on `bg`.
pub fn draw_ring(out: &mut Vec<Cell>, cols: u16, x0: usize, y0: usize, w: usize, h: usize, fg: Color, bg: Color)
    requires
        w >= 2,
        h >= 2,
        x0 + w <= cols,
        y0 + h <= 0x2_0000,
    ensures
        final(out)@.len() == old(out)@.len(),
        forall|i: int|
            0 <= i < old(out)@.len() ==> #[trigger] final(out)@[i] == (if in_box(
                cols as int,
                x0 as int,
                y0 as int,
                w as int,
                h as int,
                i,
            ) && ring_char(col_of(cols as int, i) - x0, row_of(cols as int, i) - y0, w as int, h as int) is Some {
                styled(
                    ring_char(col_of(cols as int, i) - x0, row_of(cols as int, i) - y0, w as int, h as int)->0,
                    fg,
                    bg,
                    false,
                )
            } else {
                old(out)@[i]
            }),
{
    let ghost o = out@;
    let mut dx: usize = 0;
    while dx < w
        invariant
            w >= 2,
            h >= 2,
            x0 + w <= cols,
            y0 + h <= 0x2_0000,
            dx <= w,
            out@.len() == o.len(),
            forall|i: int|
                0 <= i < o.len() ==> #[trigger] out@[i] == (if cols > 0 && x0 <= col_of(cols as int, i) < x0 + dx
                    && (row_of(cols as int, i) == y0 || row_of(cols as int, i) == y0 + h - 1) {
                    styled('─', fg, bg, false)
                } else {
                    o[i]
                }),
        decreases w - dx,
    {
        put_cell(out, cols, x0 + dx, y0, styled_cell('─', fg, bg, false));
        put_cell(out, cols, x0 + dx, y0 + h - 1, styled_cell('─', fg, bg, false));
        dx = dx + 1;
    }
    let ghost o2 = out@;
    let mut dy: usize = 0;
    while dy < h
        invariant
            w >= 2,
            h >= 2,
            x0 + w <= cols,
            y0 + h <= 0x2_0000,
            dy <= h,
            out@.len() == o.len(),
            forall|i: int|
                0 <= i < o.len() ==> #[trigger] out@[i] == (if cols > 0 && y0 <= row_of(cols as int, i) < y0 + dy
                    && (col_of(cols as int, i) == x0 || col_of(cols as int, i) == x0 + w - 1) {
                    styled('│', fg, bg, false)
                } else {
                    o2[i]
                }),
        decreases h - dy,
    {
        put_cell(out, cols, x0, y0 + dy, styled_cell('│', fg, bg, false));
        put_cell(out, cols, x0 + w - 1, y0 + dy, styled_cell('│', fg, bg, false));
        dy = dy + 1;
    }
    put_cell(out, cols, x0, y0, styled_cell('╭', fg, bg, false));
    put_cell(out, cols, x0 + w - 1, y0, styled_cell('╮', fg, bg, false));
    put_cell(out, cols, x0, y0 + h - 1, styled_cell('╰', fg, bg, false));
    put_cell(out, cols, x0 + w - 1, y0 + h - 1, styled_cell('╯', fg, bg, false));
}

/// One cell to write: its screen position and its new contents.
#[derive(Debug, Clone, Copy)]
pub struct CellWrite {
    pub x: u16,
    pub y: u16,
    pub cell: Cell,
}

/// The buffer after one write: the cell is replaced when its position is
/// on the `cols` x `rows` screen and in the buffer.
pub open spec fn put_spec(s: Seq<Cell>, cols: u16, rows: u16, w: CellWrite) -> Seq<Cell> {
    if w.x < cols && w.y < rows {
        let i = w.y * cols + w.x;
        if i < s.len() { s.update(i, w.cell) } else { s }
    } else {
        s
    }
}

/// The buffer after the writes `ws`, in order.
pub open spec fn apply_spec(s: Seq<Cell>, cols: u16, rows: u16, ws: Seq<CellWrite>) -> Seq<Cell>
    decreases ws.len(),
{
    if ws.len() == 0 {
        s
    } else {
        put_spec(apply_spec(s, cols, rows, ws.drop_last()), cols, rows, ws.last())
    }
}

/// Perform the writes `ws` in order; a later write to a cell wins.
pub fn apply_writes(out: &mut Vec<Cell>, cols: u16, rows: u16, ws: &Vec<CellWrite>)
    ensures
        final(out)@ == apply_spec(old(out)@, cols, rows, ws@),
{
    let ghost o = out@;
    let mut k: usize = 0;
    while k < ws.len()
        invariant
            k <= ws@.len(),
            o == old(out)@,
            out@ == apply_spec(o, cols, rows, ws@.take(k as int)),
        decreases ws@.len() - k,
    {
        let w = ws[k];
        proof {
            assert(ws@.take(k as int + 1).drop_last() =~= ws@.take(k as int));
        }
        if w.x < cols && w.y < rows {
            proof {
                assert((w.y as int) * (cols as int) <= 0xffff * 0xffff) by (nonlinear_arith)
                    requires
                        w.y <= 0xffff,
                        cols <= 0xffff,
                        0 <= w.y,
                ;
            }
            let i: u64 = w.y as u64 * cols as u64 + w.x as u64;
            if i < out.len() as u64 {
                out[i as usize] = w.cell;
            }
        }
        k = k + 1;
    }
    proof {
        assert(ws@.take(k as int) =~= ws@);
    }
}

} // verus!
