//! Planning the host-terminal update for a frame: which rows changed and
//! which runs of cells are printed, each from an explicit cursor position
//! with a full attribute reset.

use vstd::prelude::*;
use crate::cell::{Cell, Style};

verus! {

/// The displayed width `unicode-width` gives a character: `None` for a
/// control character.
pub uninterp spec fn display_width(c: char) -> Option<usize>;

/// `unicode_width::UnicodeWidthChar::width`. Its result comes from the
/// crate's tables, so it is named rather than stated; the contract adds
/// what its source shows for the first code points: printable ASCII is one
/// column, the C0 and C1 control codes have no width, and every code point
/// from U+00A0 on has one.
#[verifier::external_body]
fn char_width(c: char) -> (w: Option<usize>)
    ensures
        w == display_width(c),
        (0x20 <= c as u32 && (c as u32) < 0x7f) ==> w == Some(1usize),
        ((c as u32) < 0x20 || (0x7f <= c as u32 && (c as u32) < 0xa0)) ==> w is None,
        (c as u32) >= 0xa0 ==> w is Some,
{
    unicode_width::UnicodeWidthChar::width(c)
}

/// Whether the host terminal advances the cursor by exactly the width the
/// emulator recorded for the cell.
pub open spec fn width_agrees(c: Cell) -> bool {
    match display_width(c.ch) {
        Some(w) => (w as u8) == c.width,
        None => false,
    }
}

/// Whether the host terminal is expected to advance the cursor by exactly
/// the column count the emulator recorded for this cell.
pub fn host_width_agrees(cell: Cell) -> (b: bool)
    ensures
        b == width_agrees(cell),
{
    match char_width(cell.ch) {
        Some(w) => (w as u8) == cell.width,
        None => false,
    }
}

/// The code points a cell prints: its character, then its combining marks
/// (an unused slot holds `'\0'`).
pub open spec fn codepoints(c: Cell) -> Seq<char> {
    seq![c.ch] + (if c.combining[0] != '\0' { seq![c.combining[0]] } else { Seq::empty() }) + (if c.combining[1]
        != '\0' {
        seq![c.combining[1]]
    } else {
        Seq::empty()
    })
}

/// Append the code points of `c` to `run`.
pub fn push_codepoints(c: &Cell, run: &mut Vec<char>)
    ensures
        final(run)@ == old(run)@ + codepoints(*c),
{
    run.push(c.ch);
    if c.combining[0] != '\0' {
        run.push(c.combining[0]);
    }
    if c.combining[1] != '\0' {
        run.push(c.combining[1]);
    }
    proof {
        assert(final(run)@ =~= old(run)@ + codepoints(*c));
    }
}

/// A cell that may join a run in `style`: same style, one column, and a
/// width the host agrees with.
pub open spec fn joins_run(c: Cell, style: Style) -> bool {
    c.style == style && c.width == 1 && width_agrees(c)
}

/// The first index from `x` on whose cell cannot join a run in `style`.
pub open spec fn run_end(row: Seq<Cell>, x: int, style: Style) -> int
    decreases row.len() - x,
{
    if x >= row.len() {
        row.len() as int
    } else if joins_run(row[x], style) {
        run_end(row, x + 1, style)
    } else {
        x
    }
}

/// Where the run starting at `x` stops: a single-width cell the host agrees
/// with extends over the following cells that can join it; any other cell
/// is printed alone.
pub open spec fn run_stop(row: Seq<Cell>, x: int) -> int {
    if row[x].width == 1 && width_agrees(row[x]) {
        run_end(row, x + 1, row[x].style)
    } else {
        x + 1
    }
}

/// The code points of cells `x..e` of `row`, in order.
pub open spec fn run_text(row: Seq<Cell>, x: int, e: int) -> Seq<char>
    decreases e - x,
{
    if x >= e {
        Seq::empty()
    } else {
        codepoints(row[x]) + run_text(row, x + 1, e)
    }
}

/// One printed run: the position it starts at, its style, and its text.
pub struct PaintRun {
    pub x: u16,
    pub y: u16,
    pub style: Style,
    pub text: Vec<char>,
}

/// A run as plain values.
pub open spec fn run_view(r: PaintRun) -> (int, int, Style, Seq<char>) {
    (r.x as int, r.y as int, r.style, r.text@)
}

/// The runs of row `y` from column `x` on: width-0 continuation cells are
/// skipped (the wide glyph before them covers their column), and every
/// other cell starts a run that ends where [`run_stop`] says.
pub open spec fn row_runs(row: Seq<Cell>, y: int, x: int) -> Seq<(int, int, Style, Seq<char>)>
    decreases row.len() - x,
{
    if x < 0 || x >= row.len() {
        Seq::empty()
    } else if row[x].width == 0 {
        row_runs(row, y, x + 1)
    } else {
        let e = run_stop(row, x);
        proof {
            lemma_run_end_bounds(row, x + 1, row[x].style);
        }
        seq![(x, y, row[x].style, run_text(row, x, e))] + row_runs(row, y, e)
    }
}

/// A run ends no earlier than where it starts and no later than the row.
pub proof fn lemma_run_end_bounds(row: Seq<Cell>, x: int, style: Style)
    ensures
        x <= row.len() ==> x <= run_end(row, x, style) <= row.len(),
        x > row.len() ==> run_end(row, x, style) == row.len(),
    decreases row.len() - x,
{
    if x < row.len() && joins_run(row[x], style) {
        lemma_run_end_bounds(row, x + 1, style);
    }
}

/// Extending a run's text by one cell appends that cell's code points.
pub proof fn lemma_run_text_push(row: Seq<Cell>, x: int, e: int)
    requires
        x <= e,
    ensures
        run_text(row, x, e + 1) == run_text(row, x, e) + codepoints(row[e]),
    decreases e - x,
{
    if x < e {
        lemma_run_text_push(row, x + 1, e);
        assert(run_text(row, x, e + 1) =~= codepoints(row[x]) + run_text(row, x + 1, e + 1));
        assert(run_text(row, x, e) + codepoints(row[e]) =~= codepoints(row[x]) + (run_text(row, x + 1, e)
            + codepoints(row[e])));
    } else {
        assert(run_text(row, x + 1, e + 1) =~= Seq::<char>::empty());
        assert(run_text(row, x, e + 1) =~= codepoints(row[e]));
    }
}

/// The runs as plain values.
pub open spec fn runs_view(v: Seq<PaintRun>) -> Seq<(int, int, Style, Seq<char>)> {
    v.map_values(|r: PaintRun| run_view(r))
}

/// Whether two cells are the same.
pub fn same_cell(a: &Cell, b: &Cell) -> (r: bool)
    ensures
        r == (*a == *b),
{
    let r = a.ch == b.ch && a.combining[0] == b.combining[0] && a.combining[1] == b.combining[1] && a.width
        == b.width && a.style == b.style;
    proof {
        if r {
            assert(a.combining =~= b.combining);
        }
    }
    r
}

/// Append the runs of the `cc` cells of `out` from `start`, printed on row
/// `y`.
fn push_row_runs(out: &Vec<Cell>, start: usize, cc: usize, y: u16, runs: &mut Vec<PaintRun>)
    requires
        start + cc <= out@.len(),
        cc <= 0xffff,
    ensures
        runs_view(final(runs)@) == runs_view(old(runs)@) + row_runs(
            out@.subrange(start as int, start + cc),
            y as int,
            0,
        ),
{
    let ghost row = out@.subrange(start as int, start + cc);
    let n = out.len();
    let mut x: usize = 0;
    while x < cc
        invariant
            out@.len() == n,
            start + cc <= n,
            cc <= 0xffff,
            row == out@.subrange(start as int, start + cc),
            x <= cc,
            runs_view(runs@) + row_runs(row, y as int, x as int) == runs_view(old(runs)@) + row_runs(
                row,
                y as int,
                0,
            ),
        decreases cc - x,
    {
        let cell = out[start + x];
        if cell.width == 0 {
            x = x + 1;
        } else {
            let style = cell.style;
            let mut text: Vec<char> = Vec::new();
            push_codepoints(&cell, &mut text);
            let mut end: usize = x + 1;
            proof {
                assert(run_text(row, x as int + 1, x as int + 1) =~= Seq::<char>::empty());
                assert(text@ =~= run_text(row, x as int, x as int + 1));
            }
            if cell.width == 1 && host_width_agrees(cell) {
                let mut go = true;
                while go && end < cc
                    invariant
                        out@.len() == n,
                        start + cc <= n,
                        row == out@.subrange(start as int, start + cc),
                        x < end <= cc,
                        row[x as int] == cell,
                        text@ == run_text(row, x as int, end as int),
                        run_end(row, x as int + 1, style) == run_end(row, end as int, style),
                        !go ==> end < cc && !joins_run(row[end as int], style),
                    decreases cc - end + (if go { 1int } else { 0int }),
                {
                    let next = out[start + end];
                    if next.style == style && next.width == 1 && host_width_agrees(next) {
                        proof {
                            lemma_run_text_push(row, x as int, end as int);
                        }
                        push_codepoints(&next, &mut text);
                        end = end + 1;
                    } else {
                        go = false;
                    }
                }
            }
            let ghost xi = x as int;
            runs.push(PaintRun { x: x as u16, y, style, text });
            proof {
                assert(run_stop(row, xi) == end as int);
            }
            x = end;
        }
    }
}

/// Whether row `y` of `out` differs from what `last` shows there (a `last`
/// too short to hold the row counts as different).
pub open spec fn row_dirty(out: Seq<Cell>, last: Seq<Cell>, cols: int, y: int) -> bool {
    !((y + 1) * cols <= last.len() && last.subrange(y * cols, (y + 1) * cols) == out.subrange(
        y * cols,
        (y + 1) * cols,
    ))
}

/// The runs printed for the first `n` rows: those of every changed row, in
/// row order.
pub open spec fn frame_runs(out: Seq<Cell>, last: Seq<Cell>, cols: int, n: int) -> Seq<(int, int, Style, Seq<char>)>
    decreases n,
{
    if n <= 0 {
        Seq::empty()
    } else {
        frame_runs(out, last, cols, n - 1) + (if row_dirty(out, last, cols, n - 1) {
            row_runs(out.subrange((n - 1) * cols, n * cols), n - 1, 0)
        } else {
            Seq::empty()
        })
    }
}

/// Painting a frame over an identical one prints nothing: no row is dirty
/// and there is no run.
pub proof fn an_unchanged_frame_paints_nothing(out: Seq<Cell>, cols: int, rows: int)
    requires
        0 <= cols,
        0 <= rows,
        cols * rows <= out.len(),
    ensures
        forall|y: int| 0 <= y < rows ==> !#[trigger] row_dirty(out, out, cols, y),
        frame_runs(out, out, cols, rows) == Seq::<(int, int, Style, Seq<char>)>::empty(),
    decreases rows,
{
    assert forall|y: int| 0 <= y < rows implies !#[trigger] row_dirty(out, out, cols, y) by {
        assert((y + 1) * cols <= rows * cols) by (nonlinear_arith)
            requires
                0 <= y < rows,
                0 <= cols,
        ;
        assert(rows * cols == cols * rows) by (nonlinear_arith);
    }
    if rows > 0 {
        assert(cols * (rows - 1) <= cols * rows) by (nonlinear_arith)
            requires
                0 <= cols,
                rows > 0,
        ;
        an_unchanged_frame_paints_nothing(out, cols, rows - 1);
        assert(frame_runs(out, out, cols, rows) =~= frame_runs(out, out, cols, rows - 1));
    }
}

/// Whether row `y` of `out` (at `start`) is the same in `last`.
fn row_unchanged(out: &Vec<Cell>, last: &Vec<Cell>, start: usize, cc: usize) -> (b: bool)
    requires
        start + cc <= out@.len(),
    ensures
        b == (start + cc <= last@.len() && last@.subrange(start as int, start + cc) == out@.subrange(
            start as int,
            start + cc,
        )),
{
    let n = last.len();
    if start > n || cc > n - start {
        return false;
    }
    let mut i: usize = 0;
    while i < cc
        invariant
            last@.len() == n,
            start + cc <= out@.len(),
            start + cc <= last@.len(),
            i <= cc,
            forall|j: int| 0 <= j < i ==> #[trigger] last@[start + j] == out@[start + j],
        decreases cc - i,
    {
        if !same_cell(&last[start + i], &out[start + i]) {
            proof {
                assert(last@.subrange(start as int, start + cc)[i as int] != out@.subrange(start as int, start + cc)[i as int]);
            }
            return false;
        }
        i = i + 1;
    }
    proof {
        assert forall|j: int| 0 <= j < cc implies #[trigger] last@.subrange(start as int, start + cc)[j]
            == out@.subrange(start as int, start + cc)[j] by {
            assert(last@[start + j] == out@[start + j]);
        }
        assert(last@.subrange(start as int, start + cc) =~= out@.subrange(start as int, start + cc));
    }
    true
}

/// Diff frame `out` against the frame `last` on screen, both `cols` x
/// `rows` cells in row-major order. Returns whether any row changed and the
/// runs to print: for every changed row, each run starting at its first
/// cell, wide continuation cells skipped, and a run extended only over
/// single-width cells of its style whose width the host agrees with.
pub fn paint_plan(out: &Vec<Cell>, last: &Vec<Cell>, cols: u16, rows: u16) -> (r: (bool, Vec<PaintRun>))
    requires
        cols as int * rows as int <= out@.len(),
    ensures
        r.0 == (exists|y: int| 0 <= y < rows && row_dirty(out@, last@, cols as int, y)),
        runs_view(r.1@) == frame_runs(out@, last@, cols as int, rows as int),
{
    let cc: usize = cols as usize;
    let olen = out.len();
    let mut dirty = false;
    let mut runs: Vec<PaintRun> = Vec::new();
    let mut y: u16 = 0;
    while y < rows
        invariant
            out@.len() == olen,
            cols as int * rows as int <= out@.len(),
            cc == cols,
            y <= rows,
            dirty == (exists|yy: int| 0 <= yy < y && row_dirty(out@, last@, cols as int, yy)),
            runs_view(runs@) == frame_runs(out@, last@, cols as int, y as int),
        decreases rows - y,
    {
        proof {
            assert((y as int + 1) * (cols as int) <= (rows as int) * (cols as int)) by (nonlinear_arith)
                requires
                    y < rows,
                    0 <= cols,
            ;
            assert((y as int + 1) * (cols as int) == (y as int) * (cols as int) + cols) by (nonlinear_arith);
            assert((rows as int) * (cols as int) == (cols as int) * (rows as int)) by (nonlinear_arith);
        }
        let start: usize = (y as usize) * cc;
        let same = row_unchanged(out, last, start, cc);
        if !same {
            dirty = true;
            push_row_runs(out, start, cc, y, &mut runs);
        }
        proof {
            assert(start + cc == (y as int + 1) * (cols as int));
            if !same {
                assert(row_dirty(out@, last@, cols as int, y as int));
            } else {
                assert(!row_dirty(out@, last@, cols as int, y as int));
            }
        }
        y = y + 1;
    }
    (dirty, runs)
}

} // verus!
