//! The contents of an empty box of the skeleton: its cell identifier in a
//! 3x5 block font, and room permitting a block of art under it.

use vstd::prelude::*;
use crate::cell::{Cell, Color};
use crate::screen::{col_of, fill_box, in_box, lemma_index_coords, put_cell, row_of, styled, styled_cell};
use crate::cell::Style;
use crate::text::{chars_of, decimal, push_decimal, string_of};
use crate::view::Rect;

verus! {

/// The 3x5 block-font glyph of a character a cell identifier can hold (a
/// digit, `,` or `.`): five rows of three bits, the leftmost bit first.
pub open spec fn big_glyph_spec(ch: char) -> Option<[u8; 5]> {
    if ch == '0' {
        Some([7u8, 5u8, 5u8, 5u8, 7u8])
    } else if ch == '1' {
        Some([2u8, 6u8, 2u8, 2u8, 7u8])
    } else if ch == '2' {
        Some([7u8, 1u8, 7u8, 4u8, 7u8])
    } else if ch == '3' {
        Some([7u8, 1u8, 3u8, 1u8, 7u8])
    } else if ch == '4' {
        Some([5u8, 5u8, 7u8, 1u8, 1u8])
    } else if ch == '5' {
        Some([7u8, 4u8, 7u8, 1u8, 7u8])
    } else if ch == '6' {
        Some([7u8, 4u8, 7u8, 5u8, 7u8])
    } else if ch == '7' {
        Some([7u8, 1u8, 2u8, 2u8, 2u8])
    } else if ch == '8' {
        Some([7u8, 5u8, 7u8, 5u8, 7u8])
    } else if ch == '9' {
        Some([7u8, 5u8, 7u8, 1u8, 7u8])
    } else if ch == ',' {
        Some([0u8, 0u8, 0u8, 2u8, 4u8])
    } else if ch == '.' {
        Some([0u8, 0u8, 0u8, 0u8, 2u8])
    } else {
        None
    }
}

/// The block-font glyph of `ch`, if it has one.
pub fn big_glyph(ch: char) -> (g: Option<[u8; 5]>)
    ensures
        g == big_glyph_spec(ch),
{
    if ch == '0' {
        Some([0b111, 0b101, 0b101, 0b101, 0b111])
    } else if ch == '1' {
        Some([0b010, 0b110, 0b010, 0b010, 0b111])
    } else if ch == '2' {
        Some([0b111, 0b001, 0b111, 0b100, 0b111])
    } else if ch == '3' {
        Some([0b111, 0b001, 0b011, 0b001, 0b111])
    } else if ch == '4' {
        Some([0b101, 0b101, 0b111, 0b001, 0b001])
    } else if ch == '5' {
        Some([0b111, 0b100, 0b111, 0b001, 0b111])
    } else if ch == '6' {
        Some([0b111, 0b100, 0b111, 0b101, 0b111])
    } else if ch == '7' {
        Some([0b111, 0b001, 0b010, 0b010, 0b010])
    } else if ch == '8' {
        Some([0b111, 0b101, 0b111, 0b101, 0b111])
    } else if ch == '9' {
        Some([0b111, 0b101, 0b111, 0b001, 0b111])
    } else if ch == ',' {
        Some([0b000, 0b000, 0b000, 0b010, 0b100])
    } else if ch == '.' {
        Some([0b000, 0b000, 0b000, 0b000, 0b010])
    } else {
        None
    }
}

/// The glyphs of the characters of `s` that have one, in order.
pub open spec fn label_glyphs(s: Seq<char>) -> Seq<[u8; 5]>
    decreases s.len(),
{
    if s.len() == 0 {
        Seq::empty()
    } else {
        label_glyphs(s.drop_last()) + match big_glyph_spec(s.last()) {
            Some(g) => seq![g],
            None => Seq::empty(),
        }
    }
}

/// Whether pixel `rx` (0 is leftmost) of a glyph row is set.
pub open spec fn pixel(bits: u8, rx: int) -> bool {
    bits & (4u8 >> (rx as u8)) != 0
}

/// Cell `i` after `label` is painted in the block font, centered in `rect`:
/// one cell per font pixel, glyphs a cell apart, each set pixel a blank on
/// a `color` background. Nothing is painted when no character has a glyph
/// or the rect is too small for the label; pixels past the screen's right
/// edge are not painted (they would wrap onto the next row).
pub open spec fn big_label_cell(o: Cell, cols: u16, rect: Rect, label: Seq<char>, color: Color, i: int) -> Cell {
    let gs = label_glyphs(label);
    let n = gs.len() as int;
    let gw = 4 * n - 1;
    if cols == 0 || n == 0 || rect.w < gw || rect.h < 5 {
        o
    } else {
        let x0 = rect.x + (rect.w - gw) / 2;
        let y0 = rect.y + (rect.h - 5) / 2;
        let x = col_of(cols as int, i);
        let y = row_of(cols as int, i);
        let dx = x - x0;
        if y0 <= y < y0 + 5 && 0 <= dx < gw && dx % 4 < 3 && pixel(gs[dx / 4][y - y0], dx % 4) {
            styled(' ', Color::Default, color, false)
        } else {
            o
        }
    }
}

/// The glyphs of `label`, in order.
fn glyphs_of(label: &Vec<char>) -> (gs: Vec<[u8; 5]>)
    ensures
        gs@ == label_glyphs(label@),
        gs@.len() <= label@.len(),
{
    let mut gs: Vec<[u8; 5]> = Vec::new();
    let mut k: usize = 0;
    while k < label.len()
        invariant
            k <= label@.len(),
            gs@ == label_glyphs(label@.take(k as int)),
            gs@.len() <= k,
        decreases label@.len() - k,
    {
        proof {
            assert(label@.take(k as int + 1).drop_last() =~= label@.take(k as int));
        }
        match big_glyph(label[k]) {
            Some(g) => {
                gs.push(g);
            },
            None => {},
        }
        proof {
            assert(gs@ =~= label_glyphs(label@.take(k as int + 1)));
        }
        k = k + 1;
    }
    proof {
        assert(label@.take(k as int) =~= label@);
    }
    gs
}

/// Paint one block-font glyph with its top-left pixel at `(gx, y0)`,
/// leaving out pixels past the screen's right edge.
fn draw_glyph(out: &mut Vec<Cell>, cols: u16, gx: usize, y0: usize, g: [u8; 5], color: Color)
    requires
        cols > 0,
        gx + 3 <= 0x3_0000,
        y0 + 5 <= 0x2_0000,
    ensures
        final(out)@.len() == old(out)@.len(),
        forall|i: int|
            0 <= i < old(out)@.len() ==> #[trigger] final(out)@[i] == (if y0 <= row_of(cols as int, i) < y0 + 5 && gx
                <= col_of(cols as int, i) < gx + 3 && pixel(g[row_of(cols as int, i) - y0], col_of(cols as int, i) - gx) {
                styled(' ', Color::Default, color, false)
            } else {
                old(out)@[i]
            }),
{
    let ghost o = out@;
    let mut ry: usize = 0;
    while ry < 5
        invariant
            cols > 0,
            gx + 3 <= 0x3_0000,
            y0 + 5 <= 0x2_0000,
            ry <= 5,
            out@.len() == o.len(),
            forall|i: int|
                0 <= i < o.len() ==> #[trigger] out@[i] == (if y0 <= row_of(cols as int, i) < y0 + ry && gx <= col_of(
                    cols as int,
                    i,
                ) < gx + 3 && pixel(g[row_of(cols as int, i) - y0], col_of(cols as int, i) - gx) {
                    styled(' ', Color::Default, color, false)
                } else {
                    o[i]
                }),
        decreases 5 - ry,
    {
        let bits = g[ry];
        let mut rx: usize = 0;
        while rx < 3
            invariant
                cols > 0,
                gx + 3 <= 0x3_0000,
                y0 + 5 <= 0x2_0000,
                ry < 5,
                rx <= 3,
                bits == g[ry as int],
                out@.len() == o.len(),
                forall|i: int|
                    0 <= i < o.len() ==> #[trigger] out@[i] == (if ((y0 <= row_of(cols as int, i) < y0 + ry) || (row_of(
                        cols as int,
                        i,
                    ) == y0 + ry && col_of(cols as int, i) < gx + rx)) && gx <= col_of(cols as int, i) < gx + 3 && pixel(
                        g[row_of(cols as int, i) - y0],
                        col_of(cols as int, i) - gx,
                    ) {
                        styled(' ', Color::Default, color, false)
                    } else {
                        o[i]
                    }),
            decreases 3 - rx,
        {
            if bits & (4u8 >> (rx as u8)) != 0 && gx + rx < cols as usize {
                put_cell(out, cols, gx + rx, y0 + ry, styled_cell(' ', Color::Default, color, false));
            }
            rx = rx + 1;
        }
        ry = ry + 1;
    }
}

/// Paint `label` in the 3x5 block font centered in `rect`, one cell per
/// font pixel with a one-cell gap between glyphs; set pixels become
/// blanks on a `color` background. Skipped when no character has a glyph
/// or the rect is too small to hold the label, so tiny boxes stay clean.
pub fn draw_big_label(out: &mut Vec<Cell>, cols: u16, rect: Rect, label: &str, color: Color)
    ensures
        final(out)@.len() == old(out)@.len(),
        forall|i: int|
            0 <= i < old(out)@.len() ==> #[trigger] final(out)@[i] == big_label_cell(
                old(out)@[i],
                cols,
                rect,
                label@,
                color,
                i,
            ),
{
    let chars = crate::text::chars_of(label);
    let gs = glyphs_of(&chars);
    let n = gs.len();
    if cols == 0 || n == 0 || n > 0x4000 || (rect.w as usize) + 1 < 4 * n || rect.h < 5 {
        return;
    }
    let gw: usize = 4 * n - 1;
    let x0: usize = rect.x as usize + (rect.w as usize - gw) / 2;
    let y0: usize = rect.y as usize + (rect.h as usize - 5) / 2;
    let ghost o = out@;
    let mut gi: usize = 0;
    while gi < n
        invariant
            gi <= n,
            n == gs@.len(),
            gs@ == label_glyphs(label@),
            gw == 4 * n - 1,
            cols > 0,
            x0 + gw <= 0x2_0000,
            y0 + 5 <= 0x2_0000,
            out@.len() == o.len(),
            forall|i: int|
                0 <= i < o.len() ==> #[trigger] out@[i] == ({
                    let x = col_of(cols as int, i);
                    let y = row_of(cols as int, i);
                    let dx = x - x0;
                    if y0 <= y < y0 + 5 && 0 <= dx < 4 * gi && dx % 4 < 3 && pixel(gs@[dx / 4][y - y0], dx % 4) {
                        styled(' ', Color::Default, color, false)
                    } else {
                        o[i]
                    }
                }),
        decreases n - gi,
    {
        let ghost before = out@;
        draw_glyph(out, cols, x0 + 4 * gi, y0, gs[gi], color);
        proof {
            assert forall|i: int| 0 <= i < o.len() implies #[trigger] out@[i] == ({
                let x = col_of(cols as int, i);
                let y = row_of(cols as int, i);
                let dx = x - x0;
                if y0 <= y < y0 + 5 && 0 <= dx < 4 * (gi + 1) && dx % 4 < 3 && pixel(gs@[dx / 4][y - y0], dx % 4) {
                    styled(' ', Color::Default, color, false)
                } else {
                    o[i]
                }
            }) by {
                let x = col_of(cols as int, i);
                let dx = x - x0;
                assert(before[i] == before[i]);
                if 4 * gi <= dx < 4 * gi + 3 {
                    assert(dx / 4 == gi && dx % 4 == dx - 4 * gi);
                } else if dx == 4 * gi + 3 {
                    assert(dx % 4 == 3);
                }
            }
        }
        gi = gi + 1;
    }
    proof {
        assert forall|i: int| 0 <= i < o.len() implies #[trigger] out@[i] == big_label_cell(o[i], cols, rect, label@, color, i) by {
            let x = col_of(cols as int, i);
            let dx = x - x0;
            if 4 * n - 1 <= dx < 4 * n {
                assert(dx % 4 == 3);
            }
        }
    }
}

/// The lines as plain values.
pub open spec fn art_view(v: Seq<String>) -> Seq<Seq<char>> {
    v.map_values(|l: String| l@)
}

/// The longest line.
pub open spec fn art_width(lines: Seq<Seq<char>>) -> nat
    decreases lines.len(),
{
    if lines.len() == 0 {
        0
    } else {
        let rest = art_width(lines.drop_last());
        if lines.last().len() > rest { lines.last().len() } else { rest }
    }
}

/// Cell `i` after a block of art is painted centered in `rect`: the block
/// is centered as a unit (each line keeps its indentation), lines past the
/// rect's height and characters past its right edge or the screen are
/// clipped, spaces are transparent, and each glyph is drawn in `color` on
/// the background the cell already had. Nothing is drawn when the block is
/// empty or wider than the rect.
pub open spec fn art_cell(o: Cell, cols: u16, rect: Rect, lines: Seq<Seq<char>>, color: Color, i: int) -> Cell {
    let bw = art_width(lines) as int;
    if bw == 0 || bw > rect.w {
        o
    } else {
        let x0 = rect.x + (rect.w - bw) / 2;
        let x = col_of(cols as int, i);
        let y = row_of(cols as int, i);
        let ly = y - rect.y;
        let lx = x - x0;
        if 0 <= ly < lines.len() && ly < rect.h && 0 <= lx < lines[ly].len() && x < rect.x + rect.w && x < cols
            && lines[ly][lx] != ' ' {
            styled(lines[ly][lx], color, o.style.bg, false)
        } else {
            o
        }
    }
}

/// Draw glyph `ch` in `color` at `(x, y)`, keeping the cell's background.
fn put_glyph_keep_bg(out: &mut Vec<Cell>, cols: u16, x: usize, y: usize, ch: char, color: Color)
    requires
        x < cols,
        y <= 0x2_0000,
    ensures
        final(out)@.len() == old(out)@.len(),
        forall|i: int|
            0 <= i < old(out)@.len() ==> #[trigger] final(out)@[i] == (if col_of(cols as int, i) == x && row_of(
                cols as int,
                i,
            ) == y {
                styled(ch, color, old(out)@[i].style.bg, false)
            } else {
                old(out)@[i]
            }),
{
    proof {
        assert((y as int) * (cols as int) <= 0x2_0000 * 0xffff) by (nonlinear_arith)
            requires
                y <= 0x2_0000,
                cols <= 0xffff,
                0 <= y,
        ;
    }
    let idx: u64 = y as u64 * cols as u64 + x as u64;
    let ghost o = out@;
    if idx < out.len() as u64 {
        let bg = out[idx as usize].style.bg;
        out[idx as usize] = styled_cell(ch, color, bg, false);
    }
    proof {
        assert forall|i: int| 0 <= i < o.len() implies #[trigger] out@[i] == (if col_of(cols as int, i) == x
            && row_of(cols as int, i) == y {
            styled(ch, color, o[i].style.bg, false)
        } else {
            o[i]
        }) by {
            lemma_index_coords(cols as int, i, x as int, y as int);
        }
    }
}

/// The longest of `lines`, with their characters.
fn art_lines(lines: &Vec<String>) -> (r: (Vec<Vec<char>>, usize))
    ensures
        r.0@.len() == lines@.len(),
        forall|k: int| 0 <= k < lines@.len() ==> #[trigger] r.0@[k]@ == lines@[k]@,
        r.1 == art_width(art_view(lines@)),
{
    let mut out: Vec<Vec<char>> = Vec::new();
    let mut m: usize = 0;
    let mut k: usize = 0;
    while k < lines.len()
        invariant
            k <= lines@.len(),
            out@.len() == k,
            forall|j: int| 0 <= j < k ==> #[trigger] out@[j]@ == lines@[j]@,
            m == art_width(art_view(lines@.take(k as int))),
        decreases lines@.len() - k,
    {
        proof {
            assert(art_view(lines@.take(k as int + 1)).drop_last() =~= art_view(lines@.take(k as int)));
        }
        let cs = chars_of(lines[k].as_str());
        if cs.len() > m {
            m = cs.len();
        }
        out.push(cs);
        k = k + 1;
    }
    proof {
        assert(lines@.take(k as int) =~= lines@);
    }
    (out, m)
}

/// Paint a block of pre-wrapped art centered in `rect`: glyphs in `color`
/// on the backdrop the cells already have, spaces left transparent, and
/// anything past the rect clipped rather than wrapped.
pub fn draw_art(out: &mut Vec<Cell>, cols: u16, rect: Rect, lines: &Vec<String>, color: Color)
    requires
        art_width(art_view(lines@)) <= 0xffff,
        rect.x + rect.w <= 0xffff,
        rect.y + rect.h <= 0xffff,
    ensures
        final(out)@.len() == old(out)@.len(),
        forall|i: int|
            0 <= i < old(out)@.len() ==> #[trigger] final(out)@[i] == art_cell(
                old(out)@[i],
                cols,
                rect,
                art_view(lines@),
                color,
                i,
            ),
{
    let ghost lv = art_view(lines@);
    let (ls, bw) = art_lines(lines);
    if bw == 0 || bw > rect.w as usize {
        return;
    }
    let x0: usize = rect.x as usize + (rect.w as usize - bw) / 2;
    let right: usize = rect.x as usize + rect.w as usize;
    let ghost o = out@;
    let mut ly: usize = 0;
    while ly < ls.len() && ly < rect.h as usize
        invariant
            ly <= ls@.len(),
            ls@.len() == lines@.len(),
            forall|k: int| 0 <= k < lines@.len() ==> #[trigger] ls@[k]@ == lines@[k]@,
            lv == art_view(lines@),
            bw == art_width(lv),
            0 < bw <= rect.w,
            x0 == rect.x + (rect.w - bw) / 2,
            right == rect.x + rect.w,
            rect.y + rect.h <= 0xffff,
            rect.x + rect.w <= 0xffff,
            out@.len() == o.len(),
            forall|i: int|
                0 <= i < o.len() ==> #[trigger] out@[i] == ({
                    let x = col_of(cols as int, i);
                    let y = row_of(cols as int, i);
                    let l = y - rect.y;
                    let lx = x - x0;
                    if 0 <= l < ly && l < rect.h && 0 <= lx < lv[l].len() && x < right && x < cols && lv[l][lx] != ' ' {
                        styled(lv[l][lx], color, o[i].style.bg, false)
                    } else {
                        o[i]
                    }
                }),
        decreases ls@.len() - ly,
    {
        let y: usize = rect.y as usize + ly;
        let line = &ls[ly];
        proof {
            assert(lv[ly as int] == lines@[ly as int]@);
        }
        let ghost mid = out@;
        let mut lx: usize = 0;
        while lx < line.len() && x0 + lx < right && x0 + lx < cols as usize
            invariant
                lx <= line@.len(),
                line@ == lv[ly as int],
                ly < lv.len(),
                ly < rect.h,
                y == rect.y + ly,
                y <= 0xffff,
                x0 == rect.x + (rect.w - bw) / 2,
                right == rect.x + rect.w,
                right <= 0xffff,
                x0 + lx <= right,
                out@.len() == o.len(),
                mid.len() == o.len(),
                forall|i: int|
                    0 <= i < o.len() ==> #[trigger] out@[i] == ({
                        let x = col_of(cols as int, i);
                        let r = row_of(cols as int, i);
                        let cx = x - x0;
                        if r == y && 0 <= cx < lx && x < right && x < cols && line@[cx] != ' ' {
                            styled(line@[cx], color, mid[i].style.bg, false)
                        } else {
                            mid[i]
                        }
                    }),
            decreases line@.len() - lx,
        {
            let ch = line[lx];
            if ch != ' ' {
                put_glyph_keep_bg(out, cols, x0 + lx, y, ch, color);
            }
            lx = lx + 1;
        }
        proof {
            assert forall|i: int| 0 <= i < o.len() implies #[trigger] out@[i] == ({
                let x = col_of(cols as int, i);
                let yy = row_of(cols as int, i);
                let l = yy - rect.y;
                let cx = x - x0;
                if 0 <= l < ly + 1 && l < rect.h && 0 <= cx < lv[l].len() && x < right && x < cols && lv[l][cx] != ' ' {
                    styled(lv[l][cx], color, o[i].style.bg, false)
                } else {
                    o[i]
                }
            }) by {
                assert(mid[i] == mid[i]);
            }
        }
        ly = ly + 1;
    }
    proof {
        assert forall|i: int| 0 <= i < o.len() implies #[trigger] out@[i] == art_cell(o[i], cols, rect, lv, color, i) by {
            assert(out@[i] == out@[i]);
        }
    }
}

/// Cell `i` after an empty box's interior `rect` gets its contents: the
/// block-font identifier with, when there is art and it fits under the
/// label with a blank row between, the art below it, the pair centered
/// vertically as a unit; without room for the art, the identifier alone
/// (when identifiers are shown).
pub open spec fn placeholder_cell(
    o: Cell,
    cols: u16,
    rect: Rect,
    label: Seq<char>,
    color: Color,
    art: Seq<Seq<char>>,
    cell_labels: bool,
    i: int,
) -> Cell {
    let label_h: int = if cell_labels { 5 } else { 0 };
    let art_h = art.len() as int;
    let fits = art.len() > 0 && rect.h >= label_h + 1 + art_h;
    if !fits {
        if cell_labels { big_label_cell(o, cols, rect, label, color, i) } else { o }
    } else {
        let top = rect.y + (rect.h - (label_h + 1 + art_h)) / 2;
        let label_rect = Rect { x: rect.x, y: top as u16, w: rect.w, h: label_h as u16 };
        let art_rect = Rect { x: rect.x, y: (top + label_h + 1) as u16, w: rect.w, h: art_h as u16 };
        let mid = if cell_labels { big_label_cell(o, cols, label_rect, label, color, i) } else { o };
        art_cell(mid, cols, art_rect, art, color, i)
    }
}

/// Fill the interior of an empty box: its cell identifier `label` in the
/// block font, and, room permitting, the art lines under it.
pub fn draw_placeholder_contents(
    out: &mut Vec<Cell>,
    cols: u16,
    rect: Rect,
    label: &str,
    color: Color,
    art: &Vec<String>,
    cell_labels: bool,
)
    requires
        rect.x + rect.w <= 0xffff,
        rect.y + rect.h <= 0xffff,
        art@.len() + 6 <= 0xffff,
        art_width(art_view(art@)) <= 0xffff,
    ensures
        final(out)@.len() == old(out)@.len(),
        forall|i: int|
            0 <= i < old(out)@.len() ==> #[trigger] final(out)@[i] == placeholder_cell(
                old(out)@[i],
                cols,
                rect,
                label@,
                color,
                art_view(art@),
                cell_labels,
                i,
            ),
{
    let label_h: u16 = if cell_labels { 5 } else { 0 };
    let art_h: u16 = art.len() as u16;
    let fits = art.len() > 0 && rect.h >= label_h + 1 + art_h;
    if !fits {
        if cell_labels {
            draw_big_label(out, cols, rect, label, color);
        }
        return;
    }
    let total: u16 = label_h + 1 + art_h;
    let top: u16 = rect.y + (rect.h - total) / 2;
    let ghost o = out@;
    if cell_labels {
        draw_big_label(out, cols, Rect { x: rect.x, y: top, w: rect.w, h: label_h }, label, color);
    }
    let ghost mid = out@;
    draw_art(out, cols, Rect { x: rect.x, y: top + label_h + 1, w: rect.w, h: art_h }, art, color);
    proof {
        assert forall|i: int| 0 <= i < o.len() implies #[trigger] out@[i] == placeholder_cell(
            o[i],
            cols,
            rect,
            label@,
            color,
            art_view(art@),
            cell_labels,
            i,
        ) by {
            assert(mid[i] == mid[i]);
        }
    }
}

/// The identifier of an empty box: `strip.column`.
pub open spec fn placeholder_label_spec(strip: nat, column: nat) -> Seq<char> {
    decimal(strip) + seq!['.'] + decimal(column)
}

/// The identifier of an empty box: the strip number, a dot, and the
/// 1-based column.
pub fn placeholder_label(strip: usize, column: usize) -> (s: String)
    ensures
        s@ == placeholder_label_spec(strip as nat, column as nat),
{
    let mut v: Vec<char> = Vec::new();
    push_decimal(&mut v, strip as u64);
    v.push('.');
    push_decimal(&mut v, column as u64);
    proof {
        assert(v@ =~= placeholder_label_spec(strip as nat, column as nat));
    }
    string_of(&v)
}

/// Reset the interior of an empty box (its rect less the one-cell frame)
/// to blank cells on the screen background, so it reads like a live pane;
/// cells past the screen's right edge are left alone.
pub fn clear_placeholder(out: &mut Vec<Cell>, cols: u16, boxr: Rect, background: Color)
    ensures
        final(out)@.len() == old(out)@.len(),
        forall|i: int|
            0 <= i < old(out)@.len() ==> #[trigger] final(out)@[i] == (if boxr.w >= 2 && boxr.h >= 2 && in_box(
                cols as int,
                boxr.x + 1,
                boxr.y + 1,
                boxr.w - 2,
                boxr.h - 2,
                i,
            ) {
                styled(' ', Color::Default, background, false)
            } else {
                old(out)@[i]
            }),
{
    if boxr.w < 2 || boxr.h < 2 || boxr.x as usize + 1 >= cols as usize {
        return;
    }
    let x0: usize = boxr.x as usize + 1;
    let w: usize = boxr.w as usize - 2;
    let shown: usize = if x0 + w <= cols as usize { w } else { cols as usize - x0 };
    let ghost o = out@;
    fill_box(out, cols, x0, boxr.y as usize + 1, shown, boxr.h as usize - 2, styled_cell(' ', Color::Default, background, false));
    proof {
        assert forall|i: int| 0 <= i < o.len() implies #[trigger] in_box(cols as int, x0 as int, boxr.y + 1, shown as int, boxr.h - 2, i)
            == in_box(cols as int, boxr.x + 1, boxr.y + 1, boxr.w - 2, boxr.h - 2, i) by {
            if cols > 0 {
                vstd::arithmetic::div_mod::lemma_mod_bound(i, cols as int);
            }
        }
    }
}

/// The characters a cell identifier is written with.
pub open spec fn label_char(c: char) -> bool {
    ('0' <= c && c <= '9') || c == ',' || c == '.'
}

/// Every character of a cell identifier has a glyph, no two of them share
/// one (so the identifier reads unambiguously), and nothing else has one.
pub proof fn each_label_character_has_its_own_glyph(a: char, b: char)
    ensures
        label_char(a) <==> big_glyph_spec(a) is Some,
        label_char(a) && label_char(b) && big_glyph_spec(a) == big_glyph_spec(b) ==> a == b,
{
    if label_char(a) && label_char(b) && big_glyph_spec(a) == big_glyph_spec(b) {
        let ga = big_glyph_spec(a)->0;
        let gb = big_glyph_spec(b)->0;
        assert(ga[0] == gb[0] && ga[1] == gb[1] && ga[2] == gb[2] && ga[3] == gb[3] && ga[4] == gb[4]);
    }
}

} // verus!
