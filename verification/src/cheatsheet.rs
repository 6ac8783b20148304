//! The keybind cheat-sheet shown at startup and on `⌥+/`: two (key,
//! action) column pairs with a header row and ruled grid lines, centered
//! in a framed panel.

use vstd::prelude::*;
use crate::cell::{Cell, Color};
use crate::hud::{push_spaces, spaces};
use crate::panels::{badge_text, badged, stamp_dev_badge, stamp_keep_awake_badge, Palette};
use crate::view::Rect;
use crate::screen::{col_of, draw_ring, fill_box, in_box, put_cell, ring_char, row_of, styled, styled_cell};
use crate::text::{chars_of, push_seq, push_str};

verus! {

/// A bind as plain values: its key label and what it does.
pub open spec fn bind_view(b: (String, String)) -> (Seq<char>, Seq<char>) {
    (b.0@, b.1@)
}

/// The binds as plain values.
pub open spec fn binds_view(v: Seq<(String, String)>) -> Seq<(Seq<char>, Seq<char>)> {
    v.map_values(|b: (String, String)| bind_view(b))
}

/// The width of a table column: its widest cell, header included. `keys`
/// picks the key labels, otherwise the actions.
pub open spec fn column_width(hdr: Seq<char>, items: Seq<(Seq<char>, Seq<char>)>, keys: bool) -> nat
    decreases items.len(),
{
    if items.len() == 0 {
        hdr.len()
    } else {
        let rest = column_width(hdr, items.drop_last(), keys);
        let here = if keys { items.last().0.len() } else { items.last().1.len() };
        if here > rest { here } else { rest }
    }
}

/// `text` padded on the right with spaces to `w` characters, with a space
/// on either side.
pub open spec fn pad_cell(text: Seq<char>, w: nat) -> Seq<char> {
    seq![' '] + text + spaces(if w > text.len() { (w - text.len()) as nat } else { 0 }) + seq![' ']
}

/// The four column widths of the table.
pub open spec fn table_widths(nav: Seq<(Seq<char>, Seq<char>)>, panes: Seq<(Seq<char>, Seq<char>)>) -> Seq<nat> {
    seq![
        column_width("key"@, nav, true),
        column_width("navigate"@, nav, false),
        column_width("key"@, panes, true),
        column_width("panes"@, panes, false),
    ]
}

/// One table row: four padded cells joined by vertical rules.
pub open spec fn table_row(a: Seq<char>, b: Seq<char>, c: Seq<char>, d: Seq<char>, w: Seq<nat>) -> Seq<char> {
    pad_cell(a, w[0]) + seq!['│'] + pad_cell(b, w[1]) + seq!['│'] + pad_cell(c, w[2]) + seq!['│'] + pad_cell(d, w[3])
}

/// `n` horizontal rule characters.
pub open spec fn dashes(n: nat) -> Seq<char> {
    Seq::new(n, |i: int| '─')
}

/// A ruled line under the four columns, with `m` where a vertical rule
/// meets it.
pub open spec fn rule_line(m: char, w: Seq<nat>) -> Seq<char> {
    dashes(w[0] + 2) + seq![m] + dashes(w[1] + 2) + seq![m] + dashes(w[2] + 2) + seq![m] + dashes(w[3] + 2)
}

/// The table's full width: four padded cells and three rules.
pub open spec fn table_width(w: Seq<nat>) -> nat {
    w[0] + 2 + w[1] + 2 + w[2] + 2 + w[3] + 2 + 3
}

/// `text` centered in `width` characters (the odd space goes right); text
/// at least that wide is left as it is.
pub open spec fn centered(text: Seq<char>, width: nat) -> Seq<char> {
    if text.len() >= width {
        text
    } else {
        let pad = (width - text.len()) as nat;
        spaces(pad / 2) + text + spaces((pad - pad / 2) as nat)
    }
}

/// Entry `i` of a bind list, or two empty cells past its end.
pub open spec fn entry_at(items: Seq<(Seq<char>, Seq<char>)>, i: int) -> (Seq<char>, Seq<char>) {
    if 0 <= i < items.len() { items[i] } else { (Seq::empty(), Seq::empty()) }
}

/// The cheat-sheet lines: the header, a rule, one row per bind (the
/// longer list sets the count), a closing rule, and the prefix line.
pub open spec fn sheet_lines(
    nav: Seq<(Seq<char>, Seq<char>)>,
    panes: Seq<(Seq<char>, Seq<char>)>,
    mod_key: Seq<char>,
) -> Seq<Seq<char>> {
    let w = table_widths(nav, panes);
    let n = if nav.len() > panes.len() { nav.len() } else { panes.len() };
    seq![table_row("key"@, "navigate"@, "key"@, "panes"@, w), rule_line('┼', w)] + Seq::new(
        n,
        |i: int| table_row(entry_at(nav, i).0, entry_at(nav, i).1, entry_at(panes, i).0, entry_at(panes, i).1, w),
    ) + seq![rule_line('┴', w), centered("prefix: "@ + mod_key + "+key"@, table_width(w))]
}

/// The lines as plain values.
pub open spec fn lines_view(v: Seq<Vec<char>>) -> Seq<Seq<char>> {
    v.map_values(|l: Vec<char>| l@)
}

/// The table fits a screen row: every width below is then small.
pub open spec fn sheet_fits(nav: Seq<(Seq<char>, Seq<char>)>, panes: Seq<(Seq<char>, Seq<char>)>) -> bool {
    table_width(table_widths(nav, panes)) <= 0xffff
}

proof fn lemma_column_width_ge(hdr: Seq<char>, items: Seq<(Seq<char>, Seq<char>)>, keys: bool, i: int)
    requires
        0 <= i < items.len(),
    ensures
        column_width(hdr, items, keys) >= (if keys { items[i].0.len() } else { items[i].1.len() }),
        column_width(hdr, items, keys) >= hdr.len(),
    decreases items.len(),
{
    if i < items.len() - 1 {
        lemma_column_width_ge(hdr, items.drop_last(), keys, i);
    } else {
        if items.len() > 1 {
            lemma_column_width_ge(hdr, items.drop_last(), keys, 0);
        }
    }
}

/// The width of a table column over `items`, header `hdr` included.
fn column_width_of(hdr: &str, items: &Vec<(String, String)>, keys: bool) -> (w: usize)
    ensures
        w == column_width(hdr@, binds_view(items@), keys),
{
    let mut w: usize = chars_of(hdr).len();
    let mut i: usize = 0;
    while i < items.len()
        invariant
            i <= items@.len(),
            w == column_width(hdr@, binds_view(items@.take(i as int)), keys),
        decreases items@.len() - i,
    {
        proof {
            assert(binds_view(items@.take(i as int + 1)).drop_last() =~= binds_view(items@.take(i as int)));
        }
        let here = if keys { chars_of(items[i].0.as_str()).len() } else { chars_of(items[i].1.as_str()).len() };
        if here > w {
            w = here;
        }
        i = i + 1;
    }
    proof {
        assert(items@.take(i as int) =~= items@);
    }
    w
}

/// Append `n` rule characters.
fn push_dashes(out: &mut Vec<char>, n: usize)
    ensures
        final(out)@ == old(out)@ + dashes(n as nat),
{
    let mut i: usize = 0;
    while i < n
        invariant
            i <= n,
            out@ == old(out)@ + dashes(i as nat),
        decreases n - i,
    {
        out.push('─');
        i = i + 1;
        proof {
            assert(dashes(i as nat) =~= dashes((i - 1) as nat).push('─'));
        }
    }
}

/// Append ` text ` padded to `w`.
fn push_pad_cell(out: &mut Vec<char>, text: &Vec<char>, w: usize)
    ensures
        final(out)@ == old(out)@ + pad_cell(text@, w as nat),
{
    out.push(' ');
    push_seq(out, text);
    let pad: usize = if w > text.len() { w - text.len() } else { 0 };
    push_spaces(out, pad);
    out.push(' ');
    proof {
        assert(final(out)@ =~= old(out)@ + pad_cell(text@, w as nat));
    }
}

/// One table row from four cells.
fn row_of_cells(a: &Vec<char>, b: &Vec<char>, c: &Vec<char>, d: &Vec<char>, w: &Vec<usize>) -> (r: Vec<char>)
    requires
        w@.len() == 4,
    ensures
        r@ == table_row(a@, b@, c@, d@, seq![w@[0] as nat, w@[1] as nat, w@[2] as nat, w@[3] as nat]),
{
    let mut r: Vec<char> = Vec::new();
    push_pad_cell(&mut r, a, w[0]);
    r.push('│');
    push_pad_cell(&mut r, b, w[1]);
    r.push('│');
    push_pad_cell(&mut r, c, w[2]);
    r.push('│');
    push_pad_cell(&mut r, d, w[3]);
    proof {
        assert(r@ =~= table_row(a@, b@, c@, d@, seq![w@[0] as nat, w@[1] as nat, w@[2] as nat, w@[3] as nat]));
    }
    r
}

/// A rule under the columns.
fn rule_of(m: char, w: &Vec<usize>) -> (r: Vec<char>)
    requires
        w@.len() == 4,
        w@[0] + w@[1] + w@[2] + w@[3] <= 0xffff,
    ensures
        r@ == rule_line(m, seq![w@[0] as nat, w@[1] as nat, w@[2] as nat, w@[3] as nat]),
{
    let mut r: Vec<char> = Vec::new();
    push_dashes(&mut r, w[0] + 2);
    r.push(m);
    push_dashes(&mut r, w[1] + 2);
    r.push(m);
    push_dashes(&mut r, w[2] + 2);
    r.push(m);
    push_dashes(&mut r, w[3] + 2);
    proof {
        assert(r@ =~= rule_line(m, seq![w@[0] as nat, w@[1] as nat, w@[2] as nat, w@[3] as nat]));
    }
    r
}

/// The key label and action of entry `i`, or two empty cells past the end.
fn entry_chars(items: &Vec<(String, String)>, i: usize) -> (r: (Vec<char>, Vec<char>))
    ensures
        (r.0@, r.1@) == entry_at(binds_view(items@), i as int),
{
    if i < items.len() {
        (chars_of(items[i].0.as_str()), chars_of(items[i].1.as_str()))
    } else {
        (Vec::new(), Vec::new())
    }
}

/// The cheat-sheet lines for the `nav` and `panes` bind groups, with the
/// prefix line naming `mod_key`; and the table's width.
pub fn cheat_sheet_lines(nav: &Vec<(String, String)>, panes: &Vec<(String, String)>, mod_key: &str) -> (r: (
    Vec<Vec<char>>,
    usize,
))
    requires
        sheet_fits(binds_view(nav@), binds_view(panes@)),
    ensures
        lines_view(r.0@) == sheet_lines(binds_view(nav@), binds_view(panes@), mod_key@),
        r.1 == table_width(table_widths(binds_view(nav@), binds_view(panes@))),
{
    let ghost nv = binds_view(nav@);
    let ghost pv = binds_view(panes@);
    let mut w: Vec<usize> = Vec::new();
    w.push(column_width_of("key", nav, true));
    w.push(column_width_of("navigate", nav, false));
    w.push(column_width_of("key", panes, true));
    w.push(column_width_of("panes", panes, false));
    let ghost ws = seq![w@[0] as nat, w@[1] as nat, w@[2] as nat, w@[3] as nat];
    proof {
        assert(ws =~= table_widths(nv, pv));
    }
    let table_w: usize = w[0] + 2 + w[1] + 2 + w[2] + 2 + w[3] + 2 + 3;
    let mut lines: Vec<Vec<char>> = Vec::new();
    let mut k1: Vec<char> = Vec::new();
    push_str(&mut k1, "key");
    let mut h1: Vec<char> = Vec::new();
    push_str(&mut h1, "navigate");
    let mut h3: Vec<char> = Vec::new();
    push_str(&mut h3, "panes");
    lines.push(row_of_cells(&k1, &h1, &k1, &h3, &w));
    lines.push(rule_of('┼', &w));
    let n: usize = if nav.len() > panes.len() { nav.len() } else { panes.len() };
    let mut i: usize = 0;
    proof {
        assert(lines_view(lines@) =~= seq![table_row("key"@, "navigate"@, "key"@, "panes"@, ws), rule_line('┼', ws)]);
    }
    while i < n
        invariant
            i <= n,
            n == (if nv.len() > pv.len() { nv.len() } else { pv.len() }),
            nv == binds_view(nav@),
            pv == binds_view(panes@),
            w@.len() == 4,
            ws == seq![w@[0] as nat, w@[1] as nat, w@[2] as nat, w@[3] as nat],
            lines_view(lines@) == seq![table_row("key"@, "navigate"@, "key"@, "panes"@, ws), rule_line('┼', ws)]
                + Seq::new(
                i as nat,
                |j: int| table_row(entry_at(nv, j).0, entry_at(nv, j).1, entry_at(pv, j).0, entry_at(pv, j).1, ws),
            ),
        decreases n - i,
    {
        let (a, b) = entry_chars(nav, i);
        let (c, d) = entry_chars(panes, i);
        let row = row_of_cells(&a, &b, &c, &d, &w);
        let ghost before = lines@;
        lines.push(row);
        proof {
            assert(lines_view(before.push(row)) =~= lines_view(before).push(row@));
            assert(lines_view(lines@) =~= seq![table_row("key"@, "navigate"@, "key"@, "panes"@, ws), rule_line('┼', ws)]
                + Seq::new(
                (i + 1) as nat,
                |j: int| table_row(entry_at(nv, j).0, entry_at(nv, j).1, entry_at(pv, j).0, entry_at(pv, j).1, ws),
            ));
        }
        i = i + 1;
    }
    let ghost before = lines@;
    lines.push(rule_of('┴', &w));
    let mut prefix: Vec<char> = Vec::new();
    push_str(&mut prefix, "prefix: ");
    push_str(&mut prefix, mod_key);
    push_str(&mut prefix, "+key");
    let mut last: Vec<char> = Vec::new();
    if prefix.len() >= table_w {
        push_seq(&mut last, &prefix);
    } else {
        let pad = table_w - prefix.len();
        push_spaces(&mut last, pad / 2);
        push_seq(&mut last, &prefix);
        push_spaces(&mut last, pad - pad / 2);
    }
    proof {
        assert(prefix@ =~= "prefix: "@ + mod_key@ + "+key"@);
        assert(last@ =~= centered("prefix: "@ + mod_key@ + "+key"@, table_width(ws)));
    }
    let ghost mid = lines@;
    lines.push(last);
    proof {
        assert(lines_view(mid) =~= lines_view(before).push(rule_line('┴', ws)));
        assert(lines_view(lines@) =~= lines_view(mid).push(last@));
        assert(lines_view(lines@) =~= sheet_lines(nv, pv, mod_key@));
    }
    (lines, table_w)
}

/// The longest line.
pub open spec fn longest_line(lines: Seq<Seq<char>>) -> nat
    decreases lines.len(),
{
    if lines.len() == 0 {
        0
    } else {
        let rest = longest_line(lines.drop_last());
        if lines.last().len() > rest { lines.last().len() } else { rest }
    }
}

/// The ink of character `ch` of a cheat-sheet line: the accent on the
/// header, muted on rule lines and vertical rules, body text elsewhere.
pub open spec fn sheet_ink(header: bool, line: Seq<char>, ch: char, pal: Palette) -> Color {
    if header {
        pal.accent
    } else if (line.len() > 0 && line[0] == '─') || ch == '│' {
        pal.muted
    } else {
        pal.text
    }
}

/// The column a line of `len` characters starts at, centered in the
/// interior of a box `bw` wide at `ox`.
pub open spec fn line_x(ox: int, bw: int, len: int) -> int {
    ox + 1 + (if bw - 2 > len { bw - 2 - len } else { 0 }) / 2
}

/// Cell `i` of the screen after the cheat-sheet panel with `lines` (and
/// table width `table_w`) is drawn over `o`: a box two cells wider than
/// the widest line (or the table) and two rows taller than the lines,
/// centered, filled with the surface color, ringed in the accent on the
/// default background, each line centered on its own row. Nothing is drawn
/// on a screen under 30 x 9 or one the box would not fit inside.
pub open spec fn sheet_cell(o: Cell, cols: u16, rows: u16, lines: Seq<Seq<char>>, table_w: nat, pal: Palette, i: int) -> Cell {
    let bw: int = (if longest_line(lines) > table_w { longest_line(lines) } else { table_w }) as int + 2;
    let bh: int = lines.len() as int + 2;
    if cols < 30 || rows < 9 || bw >= cols || bh >= rows {
        o
    } else {
        let ox = (cols - bw) / 2;
        let oy = (rows - bh) / 2;
        let x = col_of(cols as int, i);
        let y = row_of(cols as int, i);
        if in_box(cols as int, ox, oy, bw, bh, i) {
            match ring_char(x - ox, y - oy, bw, bh) {
                Some(g) => styled(g, pal.accent, Color::Default, false),
                None => {
                    let r = y - oy - 1;
                    if 0 <= r < lines.len() && line_x(ox, bw, lines[r].len() as int) <= x && x < line_x(
                        ox,
                        bw,
                        lines[r].len() as int,
                    ) + lines[r].len() {
                        let ch = lines[r][x - line_x(ox, bw, lines[r].len() as int)];
                        styled(ch, sheet_ink(r == 0, lines[r], ch, pal), pal.surface, r == 0)
                    } else {
                        styled(' ', pal.text, pal.surface, false)
                    }
                },
            }
        } else {
            o
        }
    }
}

/// Write one cheat-sheet line at `(tx, ty)`.
fn write_sheet_line(out: &mut Vec<Cell>, cols: u16, tx: usize, ty: usize, line: &Vec<char>, header: bool, pal: &Palette)
    requires
        tx + line@.len() <= cols,
        ty <= 0x2_0000,
    ensures
        final(out)@.len() == old(out)@.len(),
        forall|i: int|
            0 <= i < old(out)@.len() ==> #[trigger] final(out)@[i] == (if row_of(cols as int, i) == ty && tx <= col_of(
                cols as int,
                i,
            ) && col_of(cols as int, i) < tx + line@.len() {
                styled(
                    line@[col_of(cols as int, i) - tx],
                    sheet_ink(header, line@, line@[col_of(cols as int, i) - tx], *pal),
                    pal.surface,
                    header,
                )
            } else {
                old(out)@[i]
            }),
{
    let ghost o = out@;
    let rule = line.len() > 0 && line[0] == '─';
    let mut k: usize = 0;
    while k < line.len()
        invariant
            tx + line@.len() <= cols,
            ty <= 0x2_0000,
            k <= line@.len(),
            rule == (line@.len() > 0 && line@[0] == '─'),
            out@.len() == o.len(),
            forall|i: int|
                0 <= i < o.len() ==> #[trigger] out@[i] == (if row_of(cols as int, i) == ty && tx <= col_of(
                    cols as int,
                    i,
                ) && col_of(cols as int, i) < tx + k {
                    styled(
                        line@[col_of(cols as int, i) - tx],
                        sheet_ink(header, line@, line@[col_of(cols as int, i) - tx], *pal),
                        pal.surface,
                        header,
                    )
                } else {
                    o[i]
                }),
        decreases line@.len() - k,
    {
        let ch = line[k];
        let ink = if header {
            pal.accent
        } else if rule || ch == '│' {
            pal.muted
        } else {
            pal.text
        };
        put_cell(out, cols, tx + k, ty, styled_cell(ch, ink, pal.surface, header));
        k = k + 1;
    }
}

/// The input on which the panel's width fits a screen row.
pub open spec fn sheet_panel_ok(lines: Seq<Seq<char>>, table_w: nat) -> bool {
    longest_line(lines) + 2 <= 0xffff && table_w + 2 <= 0xffff && lines.len() + 2 <= 0xffff
}

proof fn lemma_longest_line(lines: Seq<Seq<char>>, r: int)
    requires
        0 <= r < lines.len(),
    ensures
        lines[r].len() <= longest_line(lines),
    decreases lines.len(),
{
    if r < lines.len() - 1 {
        lemma_longest_line(lines.drop_last(), r);
    }
}

/// The longest of `lines`.
fn longest_of(lines: &Vec<Vec<char>>) -> (m: usize)
    ensures
        m == longest_line(lines_view(lines@)),
{
    let mut m: usize = 0;
    let mut k: usize = 0;
    while k < lines.len()
        invariant
            k <= lines@.len(),
            m == longest_line(lines_view(lines@.take(k as int))),
        decreases lines@.len() - k,
    {
        proof {
            assert(lines_view(lines@.take(k as int + 1)).drop_last() =~= lines_view(lines@.take(k as int)));
        }
        if lines[k].len() > m {
            m = lines[k].len();
        }
        k = k + 1;
    }
    proof {
        assert(lines@.take(k as int) =~= lines@);
    }
    m
}

/// Draw the cheat-sheet panel with the given lines (and table width) over
/// the frame.
#[verifier::rlimit(40)]
pub fn draw_sheet_panel(out: &mut Vec<Cell>, cols: u16, rows: u16, lines: &Vec<Vec<char>>, table_w: usize, pal: &Palette)
    requires
        sheet_panel_ok(lines_view(lines@), table_w as nat),
    ensures
        final(out)@.len() == old(out)@.len(),
        forall|i: int|
            0 <= i < old(out)@.len() ==> #[trigger] final(out)@[i] == sheet_cell(
                old(out)@[i],
                cols,
                rows,
                lines_view(lines@),
                table_w as nat,
                *pal,
                i,
            ),
{
    let ghost lv = lines_view(lines@);
    let longest = longest_of(lines);
    let bw: usize = (if longest > table_w { longest } else { table_w }) + 2;
    let bh: usize = lines.len() + 2;
    if cols < 30 || rows < 9 || bw >= cols as usize || bh >= rows as usize {
        return;
    }
    let ox: usize = (cols as usize - bw) / 2;
    let oy: usize = (rows as usize - bh) / 2;
    let ghost o = out@;
    fill_box(out, cols, ox, oy, bw, bh, styled_cell(' ', pal.text, pal.surface, false));
    let ghost o1 = out@;
    draw_ring(out, cols, ox, oy, bw, bh, pal.accent, Color::Default);
    let ghost o2 = out@;
    let mut k: usize = 0;
    while k < lines.len()
        invariant
            k <= lines@.len(),
            lv == lines_view(lines@),
            bw == (if longest_line(lv) > table_w { longest_line(lv) } else { table_w as nat }) + 2,
            bh == lines@.len() + 2,
            bw < cols,
            bh < rows,
            ox == (cols - bw) / 2,
            oy == (rows - bh) / 2,
            out@.len() == o.len(),
            o2.len() == o.len(),
            forall|i: int|
                0 <= i < o.len() ==> #[trigger] out@[i] == ({
                    let x = col_of(cols as int, i);
                    let y = row_of(cols as int, i);
                    let r = y - oy - 1;
                    if 0 <= r < k && line_x(ox as int, bw as int, lv[r].len() as int) <= x && x < line_x(
                        ox as int,
                        bw as int,
                        lv[r].len() as int,
                    ) + lv[r].len() {
                        let ch = lv[r][x - line_x(ox as int, bw as int, lv[r].len() as int)];
                        styled(ch, sheet_ink(r == 0, lv[r], ch, *pal), pal.surface, r == 0)
                    } else {
                        o2[i]
                    }
                }),
        decreases lines@.len() - k,
    {
        let len = lines[k].len();
        proof {
            lemma_longest_line(lv, k as int);
            assert(lv[k as int] == lines@[k as int]@);
        }
        let tx = ox + 1 + (if bw - 2 > len { bw - 2 - len } else { 0 }) / 2;
        let ghost before = out@;
        write_sheet_line(out, cols, tx, oy + 1 + k, &lines[k], k == 0, pal);
        proof {
            assert forall|i: int| 0 <= i < o.len() implies #[trigger] out@[i] == ({
                let x = col_of(cols as int, i);
                let y = row_of(cols as int, i);
                let r = y - oy - 1;
                if 0 <= r < k + 1 && line_x(ox as int, bw as int, lv[r].len() as int) <= x && x < line_x(
                    ox as int,
                    bw as int,
                    lv[r].len() as int,
                ) + lv[r].len() {
                    let ch = lv[r][x - line_x(ox as int, bw as int, lv[r].len() as int)];
                    styled(ch, sheet_ink(r == 0, lv[r], ch, *pal), pal.surface, r == 0)
                } else {
                    o2[i]
                }
            }) by {
                assert(before[i] == before[i]);
            }
        }
        k = k + 1;
    }
    proof {
        assert forall|i: int| 0 <= i < o.len() implies #[trigger] out@[i] == sheet_cell(
            o[i],
            cols,
            rows,
            lv,
            table_w as nat,
            *pal,
            i,
        ) by {
            let x = col_of(cols as int, i);
            let y = row_of(cols as int, i);
            let r = y - oy - 1;
            assert(o1[i] == o1[i] && o2[i] == o2[i]);
            if 0 <= r < lv.len() {
                lemma_longest_line(lv, r);
                if line_x(ox as int, bw as int, lv[r].len() as int) <= x && x < line_x(ox as int, bw as int, lv[r].len() as int) + lv[r].len() {
                    assert(in_box(cols as int, ox as int, oy as int, bw as int, bh as int, i));
                    assert(ring_char(x - ox, y - oy, bw as int, bh as int) is None);
                }
            }
        }
    }
}

/// Where the cheat-sheet panel with `lines` (and table width `table_w`)
/// stands on the screen, or `None` where it is not drawn.
pub open spec fn sheet_box(cols: u16, rows: u16, lines: Seq<Seq<char>>, table_w: nat) -> Option<Rect> {
    let bw: int = (if longest_line(lines) > table_w { longest_line(lines) } else { table_w }) as int + 2;
    let bh: int = lines.len() as int + 2;
    if cols < 30 || rows < 9 || bw >= cols || bh >= rows {
        None
    } else {
        Some(Rect { x: ((cols - bw) / 2) as u16, y: ((rows - bh) / 2) as u16, w: bw as u16, h: bh as u16 })
    }
}

/// The screen `o` after the cheat-sheet panel is drawn over it, with the
/// keep-awake badge on its top frame row and the development-session badge
/// on its bottom one, each where it is given.
pub open spec fn hud_screen(
    o: Seq<Cell>,
    cols: u16,
    rows: u16,
    lines: Seq<Seq<char>>,
    table_w: nat,
    pal: Palette,
    keep_awake: Option<Seq<char>>,
    dev: Option<Seq<char>>,
) -> Seq<Cell> {
    let s = Seq::new(o.len(), |i: int| sheet_cell(o[i], cols, rows, lines, table_w, pal, i));
    let r = sheet_box(cols, rows, lines, table_w);
    badged(badged(s, cols, r, true, keep_awake, pal.accent), cols, r, false, dev, pal.accent)
}

/// Draw the keybind cheat-sheet: the `nav` and `panes` bind groups as a
/// ruled table with a header, and the prefix line naming `mod_key`, in a
/// centered panel; stamp `keep_awake` (while the keep-awake guard holds)
/// on its top frame row and `dev` (in a development session) on its bottom
/// one.
pub fn draw_center_hud(
    out: &mut Vec<Cell>,
    cols: u16,
    rows: u16,
    pal: &Palette,
    nav: &Vec<(String, String)>,
    panes: &Vec<(String, String)>,
    mod_key: &str,
    keep_awake: Option<&str>,
    dev: Option<&str>,
)
    requires
        sheet_fits(binds_view(nav@), binds_view(panes@)),
        longest_line(sheet_lines(binds_view(nav@), binds_view(panes@), mod_key@)) + 2 <= 0xffff,
        nav@.len() + panes@.len() + 6 <= 0xffff,
    ensures
        final(out)@ == hud_screen(
            old(out)@,
            cols,
            rows,
            sheet_lines(binds_view(nav@), binds_view(panes@), mod_key@),
            table_width(table_widths(binds_view(nav@), binds_view(panes@))),
            *pal,
            badge_text(keep_awake),
            badge_text(dev),
        ),
{
    let ghost o = out@;
    let (lines, table_w) = cheat_sheet_lines(nav, panes, mod_key);
    let ghost lv = lines_view(lines@);
    draw_sheet_panel(out, cols, rows, &lines, table_w, pal);
    let ghost s = Seq::new(o.len(), |i: int| sheet_cell(o[i], cols, rows, lv, table_w as nat, *pal, i));
    proof {
        assert(out@ =~= s);
    }
    let longest = longest_of(&lines);
    let bw: usize = (if longest > table_w { longest } else { table_w }) + 2;
    let bh: usize = lines.len() + 2;
    if cols < 30 || rows < 9 || bw >= cols as usize || bh >= rows as usize {
        return;
    }
    let rect = Rect { x: ((cols as usize - bw) / 2) as u16, y: ((rows as usize - bh) / 2) as u16, w: bw as u16, h: bh as u16 };
    let ghost r = sheet_box(cols, rows, lv, table_w as nat);
    assert(r == Some(rect));
    if let Some(b) = keep_awake {
        stamp_keep_awake_badge(out, cols, rect, pal, b);
    }
    let ghost a = out@;
    proof {
        assert(a =~= badged(s, cols, r, true, badge_text(keep_awake), pal.accent));
    }
    if let Some(b) = dev {
        stamp_dev_badge(out, cols, rect, pal, b);
    }
    proof {
        assert(out@ =~= badged(a, cols, r, false, badge_text(dev), pal.accent));
    }
}

} // verus!
