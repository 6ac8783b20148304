//! A screen cell as the renderer composes frames: a character with up to
//! two combining marks, its column width, and its style.

use vstd::prelude::*;

verus! {

/// A terminal color: the terminal's default, an indexed palette entry, or
/// a 24-bit color.
#[derive(Debug, Clone, Copy, PartialEq, Eq, Structural)]
pub enum Color {
    Default,
    Idx(u8),
    Rgb(u8, u8, u8),
}

/// How a cell is drawn.
#[derive(Debug, Clone, Copy, PartialEq, Eq, Structural)]
pub struct Style {
    pub fg: Color,
    pub bg: Color,
    pub bold: bool,
    pub underline: bool,
    pub inverse: bool,
}

/// A screen cell. `width` is 1 for an ordinary glyph, 2 for the head of a
/// wide glyph and 0 for the column a wide glyph covers; `'\0'` in
/// `combining` is an unused slot.
#[derive(Debug, Clone, Copy, PartialEq, Eq)]
pub struct Cell {
    pub ch: char,
    pub combining: [char; 2],
    pub width: u8,
    pub style: Style,
}

/// The plain style: default colors, no attributes.
pub open spec fn plain_style() -> Style {
    Style { fg: Color::Default, bg: Color::Default, bold: false, underline: false, inverse: false }
}

/// A blank cell: a space of width one in the plain style.
pub open spec fn blank_cell() -> Cell {
    Cell { ch: ' ', combining: ['\0', '\0'], width: 1, style: plain_style() }
}

impl Default for Style {
    /// The plain style.
    fn default() -> (s: Style)
        ensures
            s == plain_style(),
    {
        Style { fg: Color::Default, bg: Color::Default, bold: false, underline: false, inverse: false }
    }
}

impl Default for Cell {
    /// A blank cell.
    fn default() -> (c: Cell)
        ensures
            c == blank_cell(),
    {
        Cell { ch: ' ', combining: ['\0', '\0'], width: 1, style: Style::default() }
    }
}

impl Cell {
    /// A blank cell.
    pub fn blank() -> (c: Cell)
        ensures
            c == blank_cell(),
    {
        Cell { ch: ' ', combining: ['\0', '\0'], width: 1, style: Style::default() }
    }
}

/// The index of cell `(x, y)` in a row-major buffer `cols` wide.
pub open spec fn cell_index(cols: int, x: int, y: int) -> int {
    y * cols + x
}

/// Distinct cells of a row-major buffer have distinct indices, and every
/// cell of a `cols` x `rows` buffer lies inside it.
pub proof fn lemma_cell_index(cols: int, rows: int, x1: int, y1: int, x2: int, y2: int)
    requires
        0 <= x1 < cols,
        0 <= x2 < cols,
        0 <= y1 < rows,
        0 <= y2 < rows,
    ensures
        0 <= cell_index(cols, x1, y1) < cols * rows,
        cell_index(cols, x1, y1) == cell_index(cols, x2, y2) <==> (x1 == x2 && y1 == y2),
{
    assert(0 <= y1 * cols) by (nonlinear_arith)
        requires
            0 <= y1,
            0 < cols,
    ;
    assert(y1 * cols + x1 < cols * rows) by (nonlinear_arith)
        requires
            0 <= x1 < cols,
            0 <= y1 < rows,
    ;
    if y1 < y2 {
        assert(y1 * cols + x1 < y2 * cols + x2) by (nonlinear_arith)
            requires
                y1 < y2,
                0 <= x1 < cols,
                0 <= x2,
        ;
    } else if y2 < y1 {
        assert(y2 * cols + x2 < y1 * cols + x1) by (nonlinear_arith)
            requires
                y2 < y1,
                0 <= x2 < cols,
                0 <= x1,
        ;
    }
}

} // verus!
