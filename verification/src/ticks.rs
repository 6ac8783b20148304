//! Edge-ticks chrome: single-cell marks on the bottom row at each column's
//! left edge (with a status glyph beside a column that wants attention),
//! and one mark per strip on the right edge.

use vstd::prelude::*;
use crate::cell::{Cell, Color, Style};
use crate::panels::Palette;
use crate::status::{status_glyph, status_glyph_for, PaneStatus};

verus! {

/// The foreground of every tick: bright white.
pub open spec fn tick_fg() -> Color {
    Color::Idx(231)
}

/// `c` recolored as a tick: `ch` in the tick foreground on `bg`, its other
/// attributes and its width kept.
pub open spec fn ticked(c: Cell, ch: char, bg: Color) -> Cell {
    Cell { ch, style: Style { fg: tick_fg(), bg, ..c.style }, ..c }
}

/// Whether a status asks for the user (waiting for input, or failed).
pub open spec fn wants_user(s: PaneStatus) -> bool {
    s == PaneStatus::Idle || s == PaneStatus::Failed
}

/// The tick column of a column box starting at `start`: clamped to the
/// last screen column.
pub open spec fn tick_x(start: u32, cols: u16) -> int {
    if start < cols { start as int } else { cols - 1 }
}

/// The buffer after the tick of column `ci` (starting at `start`, its first
/// pane in `status`): a blank at its left edge on the bottom row, in the
/// accent when it is the focused column and in the status's muted tint
/// otherwise; and, for a column wanting the user, its status glyph in the
/// next cell when that cell is uncolored or already in that tint.
pub open spec fn apply_tick(
    b: Seq<Cell>,
    cols: u16,
    rows: u16,
    start: u32,
    status: PaneStatus,
    focused: bool,
    pal: Palette,
) -> Seq<Cell> {
    let x = tick_x(start, cols);
    let i = (rows - 1) * cols + x;
    let tint = pal.status_muted_spec(status);
    let bg = if focused { pal.accent } else { tint };
    let b1 = if i < b.len() { b.update(i, ticked(b[i], ' ', bg)) } else { b };
    if wants_user(status) && x + 1 < cols && i + 1 < b1.len() && (b1[i + 1].style.bg == Color::Default
        || b1[i + 1].style.bg == tint) {
        b1.update(i + 1, ticked(b1[i + 1], status_glyph(status), bg))
    } else {
        b1
    }
}

/// The buffer after the ticks of the first `n` columns, in order.
pub open spec fn apply_ticks(
    b: Seq<Cell>,
    cols: u16,
    rows: u16,
    ticks: Seq<(u32, PaneStatus)>,
    focus_column: int,
    pal: Palette,
    n: int,
) -> Seq<Cell>
    decreases n,
{
    if n <= 0 {
        b
    } else {
        let t = ticks[n - 1];
        apply_tick(apply_ticks(b, cols, rows, ticks, focus_column, pal, n - 1), cols, rows, t.0, t.1, n - 1 == focus_column, pal)
    }
}

/// The buffer after strip `ri`'s mark on the right edge: the last cell of
/// row `ri` takes the accent for the focused strip, the attention tint for
/// a strip with a pane wanting the user, the chrome color otherwise; only
/// a blank or single-width cell is recolored, and strips past the last
/// screen row get none.
pub open spec fn apply_strip_tick(b: Seq<Cell>, cols: u16, rows: u16, ri: int, focused: bool, needs: bool, pal: Palette) -> Seq<Cell> {
    let i = ri * cols + (cols - 1);
    let bg = if focused {
        pal.accent
    } else if needs {
        pal.idle_muted
    } else {
        pal.overlay
    };
    if ri < rows && 0 <= i < b.len() && (b[i].ch == ' ' || b[i].width == 1) {
        b.update(i, Cell { style: Style { bg, ..b[i].style }, ..b[i] })
    } else {
        b
    }
}

/// The buffer after the marks of the first `n` strips.
pub open spec fn apply_strip_ticks(b: Seq<Cell>, cols: u16, rows: u16, strips: Seq<(bool, bool)>, pal: Palette, n: int) -> Seq<Cell>
    decreases n,
{
    if n <= 0 {
        b
    } else {
        let s = strips[n - 1];
        apply_strip_tick(apply_strip_ticks(b, cols, rows, strips, pal, n - 1), cols, rows, n - 1, s.0, s.1, pal)
    }
}

fn tick_one(out: &mut Vec<Cell>, cols: u16, rows: u16, start: u32, status: PaneStatus, focused: bool, pal: &Palette)
    requires
        cols > 0,
        rows > 0,
    ensures
        final(out)@ == apply_tick(old(out)@, cols, rows, start, status, focused, *pal),
{
    let x: u16 = if start < cols as u32 { start as u16 } else { cols - 1 };
    proof {
        assert((rows as int - 1) * (cols as int) <= 0xffff * 0xffff) by (nonlinear_arith)
            requires
                1 <= rows <= 0xffff,
                cols <= 0xffff,
        ;
    }
    let i: usize = (rows as usize - 1) * cols as usize + x as usize;
    let tint = pal.status_muted(status);
    let bg = if focused { pal.accent } else { tint };
    if i < out.len() {
        let c = out[i];
        out.set(i, Cell { ch: ' ', style: Style { fg: Color::Idx(231), bg, ..c.style }, ..c });
    }
    let wants = match status {
        PaneStatus::Idle => true,
        PaneStatus::Failed => true,
        _ => false,
    };
    if wants && (x as u32) + 1 < cols as u32 && i + 1 < out.len() {
        let n = out[i + 1];
        if n.style.bg == Color::Default || n.style.bg == tint {
            let g = status_glyph_for(status);
            out.set(i + 1, Cell { ch: g, style: Style { fg: Color::Idx(231), bg, ..n.style }, ..n });
        }
    }
}

/// Draw the edge ticks: one per column of the focused strip on the bottom
/// row (`ticks` gives each column's box start and the status of its first
/// pane), and one per strip on the right edge (`strips` gives, for each,
/// whether it is the focused strip and whether any of its panes wants the
/// user). Nothing is drawn on an empty screen.
pub fn draw_edge_ticks(
    out: &mut Vec<Cell>,
    cols: u16,
    rows: u16,
    ticks: &Vec<(u32, PaneStatus)>,
    focus_column: usize,
    strips: &Vec<(bool, bool)>,
    pal: &Palette,
)
    ensures
        final(out)@ == (if cols == 0 || rows == 0 {
            old(out)@
        } else {
            apply_strip_ticks(
                apply_ticks(old(out)@, cols, rows, ticks@, focus_column as int, *pal, ticks@.len() as int),
                cols,
                rows,
                strips@,
                *pal,
                strips@.len() as int,
            )
        }),
{
    if cols == 0 || rows == 0 {
        return;
    }
    let ghost o = out@;
    let mut k: usize = 0;
    while k < ticks.len()
        invariant
            cols > 0,
            rows > 0,
            k <= ticks@.len(),
            out@ == apply_ticks(o, cols, rows, ticks@, focus_column as int, *pal, k as int),
        decreases ticks@.len() - k,
    {
        let (start, status) = ticks[k];
        tick_one(out, cols, rows, start, status, k == focus_column, pal);
        k = k + 1;
    }
    let ghost mid = out@;
    let mut ri: usize = 0;
    while ri < strips.len()
        invariant
            cols > 0,
            rows > 0,
            ri <= strips@.len(),
            o == old(out)@,
            mid == apply_ticks(o, cols, rows, ticks@, focus_column as int, *pal, ticks@.len() as int),
            out@ == apply_strip_ticks(mid, cols, rows, strips@, *pal, ri as int),
        decreases strips@.len() - ri,
    {
        if ri >= rows as usize {
            proof {
                lemma_strips_past_screen(mid, cols, rows, strips@, *pal, ri as int, strips@.len() as int);
            }
            return;
        }
        let (focused, needs) = strips[ri];
        proof {
            assert((ri as int) * (cols as int) <= 0xffff * 0xffff) by (nonlinear_arith)
                requires
                    ri < rows,
                    rows <= 0xffff,
                    cols <= 0xffff,
            ;
        }
        let i: usize = ri * cols as usize + (cols as usize - 1);
        let bg = if focused {
            pal.accent
        } else if needs {
            pal.idle_muted
        } else {
            pal.overlay
        };
        if i < out.len() {
            let c = out[i];
            if c.ch == ' ' || c.width == 1 {
                out.set(i, Cell { style: Style { bg, ..c.style }, ..c });
            }
        }
        ri = ri + 1;
    }
}

/// Strips past the last screen row leave the buffer alone.
proof fn lemma_strips_past_screen(b: Seq<Cell>, cols: u16, rows: u16, strips: Seq<(bool, bool)>, pal: Palette, k: int, n: int)
    requires
        rows <= k <= n,
    ensures
        apply_strip_ticks(b, cols, rows, strips, pal, n) == apply_strip_ticks(b, cols, rows, strips, pal, k),
    decreases n - k,
{
    if n > k {
        lemma_strips_past_screen(b, cols, rows, strips, pal, k, n - 1);
    }
}

} // verus!
