//! The two picker panels: the spawn-directory picker (`⌥+d`), which lists
//! the matching directories with the selection highlighted, and the theme
//! picker, which names the theme being previewed.

use vstd::prelude::*;
use crate::cell::{Cell, Color};
use crate::panels::Palette;
use crate::dashboard::{lemma_writes_keep_outside, strictly_inside};
use crate::view::Rect;
use crate::screen::{
    apply_spec, apply_writes, col_of, draw_ring, fill_box, in_box, ring_char, row_of, styled, styled_cell,
    CellWrite,
};
use crate::text::{chars_of, decimal, push_decimal, push_str};

verus! {

/// A directory the picker offers: how it is shown, and where it came from.
#[derive(Debug, Clone, PartialEq, Eq)]
pub struct Candidate {
    pub label: String,
    pub origin: String,
}

/// The picker's live state: the typed filter and the highlighted entry.
/// Which candidates match the filter is decided outside the panel.
#[derive(Debug, Clone, PartialEq, Eq)]
pub struct DirPicker {
    pub query: String,
    pub sel: usize,
}

/// The highlight after a step of `d` from `sel` through `n` shown
/// entries: wrapping at either end, and 0 when nothing is shown.
pub open spec fn step_spec(sel: int, d: int, n: int) -> int {
    if n == 0 { 0 } else { (sel + d) % n }
}

/// Stepping wraps within the shown entries, a step back undoes a step, and
/// the list is reachable from either end: one step up from the top lands
/// on the last entry.
pub proof fn a_step_back_undoes_a_step(sel: int, d: int, n: int)
    requires
        0 <= sel < n,
    ensures
        0 <= step_spec(sel, d, n) < n,
        step_spec(step_spec(sel, d, n), -d, n) == sel,
        step_spec(0, -1, n) == n - 1,
{
    let r = (sel + d) % n;
    vstd::arithmetic::div_mod::lemma_mod_bound(sel + d, n);
    vstd::arithmetic::div_mod::lemma_fundamental_div_mod(sel + d, n);
    let q = (sel + d) / n;
    assert(r - d == n * (-q) + sel) by (nonlinear_arith)
        requires
            r == (sel + d) - n * q,
    ;
    vstd::arithmetic::div_mod::lemma_mod_multiples_vanish(-q, sel, n);
    vstd::arithmetic::div_mod::lemma_small_mod(sel as nat, n as nat);
    vstd::arithmetic::div_mod::lemma_mod_multiples_vanish(-1, n - 1, n);
    assert(n * -1 + (n - 1) == -1);
    vstd::arithmetic::div_mod::lemma_small_mod((n - 1) as nat, n as nat);
}

impl DirPicker {
    /// Move the highlight by `d` through the `n` shown entries, wrapping at
    /// either end, so a long list is reachable from both ends.
    pub fn step(&mut self, d: i32, n: usize)
        requires
            old(self).sel <= i32::MAX,
            n <= i32::MAX,
            i32::MIN <= old(self).sel + d <= i32::MAX,
        ensures
            final(self).query == old(self).query,
            final(self).sel == step_spec(old(self).sel as int, d as int, n as int),
    {
        if n == 0 {
            self.sel = 0;
            return;
        }
        let j: i64 = self.sel as i64 + d as i64;
        let m: u64 = n as u64;
        if j >= 0 {
            self.sel = ((j as u64) % m) as usize;
        } else {
            let a: u64 = (-j) as u64;
            let r: u64 = a % m;
            proof {
                vstd::arithmetic::div_mod::lemma_fundamental_div_mod(a as int, m as int);
                let q = (a as int) / (m as int);
                if r == 0 {
                    assert(j == (m as int) * (-q) + 0) by (nonlinear_arith)
                        requires
                            a == (m as int) * q + r,
                            r == 0,
                            j == -a,
                    ;
                    vstd::arithmetic::div_mod::lemma_fundamental_div_mod_converse(j as int, m as int, -q, 0);
                } else {
                    assert(j == (-q - 1) * (m as int) + (m - r)) by (nonlinear_arith)
                        requires
                            a == (m as int) * q + r,
                            j == -a,
                    ;
                    vstd::arithmetic::div_mod::lemma_fundamental_div_mod_converse(j as int, m as int, -q - 1, (m - r) as int);
                }
            }
            self.sel = (if r == 0 { 0 } else { m - r }) as usize;
        }
    }

    /// The highlighted candidate among the shown ones.
    pub fn current<'a>(&self, shown: &'a Vec<Candidate>) -> (c: Option<&'a Candidate>)
        ensures
            c == (if self.sel < shown@.len() { Some(&shown@[self.sel as int]) } else { None::<&Candidate> }),
    {
        if self.sel < shown.len() {
            Some(&shown[self.sel])
        } else {
            None
        }
    }
}

/// The writes of `text` from `(x0, y)` in `fg` on `bg`, stopping before
/// column `limit`.
pub open spec fn text_writes(x0: int, y: int, text: Seq<char>, limit: int, fg: Color, bg: Color, bold: bool) -> Seq<CellWrite> {
    let n = if limit <= x0 { 0 } else if text.len() < limit - x0 { text.len() as int } else { limit - x0 };
    Seq::new(n as nat, |i: int| CellWrite { x: (x0 + i) as u16, y: y as u16, cell: styled(text[i], fg, bg, bold) })
}

/// Append the writes of `text` from `(x0, y)`, stopping before `limit`.
fn push_text_writes(
    ws: &mut Vec<CellWrite>,
    x0: usize,
    y: usize,
    text: &Vec<char>,
    limit: usize,
    fg: Color,
    bg: Color,
    bold: bool,
)
    ensures
        final(ws)@ == old(ws)@ + text_writes(x0 as int, y as int, text@, limit as int, fg, bg, bold),
{
    let n: usize = if limit <= x0 { 0 } else if text.len() < limit - x0 { text.len() } else { limit - x0 };
    let ghost before = ws@;
    let mut i: usize = 0;
    while i < n
        invariant
            i <= n,
            n <= text@.len(),
            x0 + n <= limit || n == 0,
            ws@ == before + Seq::new(
                i as nat,
                |k: int| CellWrite { x: (x0 + k) as u16, y: y as u16, cell: styled(text@[k], fg, bg, bold) },
            ),
        decreases n - i,
    {
        ws.push(CellWrite { x: (x0 + i) as u16, y: y as u16, cell: styled_cell(text[i], fg, bg, bold) });
        i = i + 1;
        proof {
            assert(ws@ =~= before + Seq::new(
                i as nat,
                |k: int| CellWrite { x: (x0 + k) as u16, y: y as u16, cell: styled(text@[k], fg, bg, bold) },
            ));
        }
    }
    proof {
        assert(ws@ =~= before + text_writes(x0 as int, y as int, text@, limit as int, fg, bg, bold));
    }
}

/// A `w` x `h` panel at `(x0, y0)`: filled with the surface color and
/// ringed in `ring` on the surface.
pub open spec fn boxed(o: Seq<Cell>, cols: u16, x0: int, y0: int, w: int, h: int, pal: Palette, ring: Color) -> Seq<Cell> {
    Seq::new(
        o.len(),
        |i: int|
            if in_box(cols as int, x0, y0, w, h, i) {
                match ring_char(col_of(cols as int, i) - x0, row_of(cols as int, i) - y0, w, h) {
                    Some(g) => styled(g, ring, pal.surface, false),
                    None => styled(' ', pal.text, pal.surface, false),
                }
            } else {
                o[i]
            },
    )
}

/// Draw the filled, ringed panel.
fn draw_boxed(out: &mut Vec<Cell>, cols: u16, x0: usize, y0: usize, w: usize, h: usize, pal: &Palette, ring: Color)
    requires
        w >= 2,
        h >= 2,
        x0 + w <= cols,
        y0 + h <= 0x2_0000,
    ensures
        final(out)@ == boxed(old(out)@, cols, x0 as int, y0 as int, w as int, h as int, *pal, ring),
{
    let ghost o = out@;
    fill_box(out, cols, x0, y0, w, h, styled_cell(' ', pal.text, pal.surface, false));
    draw_ring(out, cols, x0, y0, w, h, ring, pal.surface);
    proof {
        assert(out@ =~= boxed(o, cols, x0 as int, y0 as int, w as int, h as int, *pal, ring));
    }
}

/// The candidates as plain values: label and origin.
pub open spec fn candidates_view(v: Seq<Candidate>) -> Seq<(Seq<char>, Seq<char>)> {
    v.map_values(|c: Candidate| (c.label@, c.origin@))
}

/// The picker's title line.
pub open spec fn picker_title(query: Seq<char>) -> Seq<char> {
    " spawn dir: "@ + query + "_ "@
}

/// The picker's key line, naming the save chord.
pub open spec fn picker_help(chord: Seq<char>) -> Seq<char> {
    " ↑/↓ pick   ⏎ session   "@ + chord + " save to config   esc cancel "@
}

/// How many list rows the picker has: the shown entries, between 1 and 10.
pub open spec fn list_rows(n: int) -> int {
    if n < 1 { 1 } else if n > 10 { 10 } else { n }
}

/// The widest entry among the first `k` shown: label, origin and a gap of
/// four.
pub open spec fn widest_entry(cs: Seq<(Seq<char>, Seq<char>)>, k: int) -> int
    decreases k,
{
    if k <= 0 || cs.len() == 0 {
        0
    } else {
        let rest = widest_entry(cs, k - 1);
        let here: int = if k - 1 < cs.len() { (cs[k - 1].0.len() + cs[k - 1].1.len() + 4) as int } else { 0 };
        if here > rest { here } else { rest }
    }
}

/// The picker panel's size: two cells wider than its widest line, four
/// rows taller than its list.
pub open spec fn picker_size(cs: Seq<(Seq<char>, Seq<char>)>, query: Seq<char>, chord: Seq<char>) -> (int, int) {
    let rs = list_rows(cs.len() as int);
    let t = picker_title(query).len() as int;
    let h = picker_help(chord).len() as int;
    let w0 = widest_entry(cs, rs);
    let w1 = if w0 > t { w0 } else { t };
    ((if w1 > h { w1 } else { h }) + 2, rs + 4)
}

/// The first entry of the scrolled list window, which keeps the
/// highlighted entry on screen.
pub open spec fn list_first(sel: int, rs: int) -> int {
    if sel > rs - 1 { sel - (rs - 1) } else { 0 }
}

/// The writes of list row `i`: the highlighted entry's row filled in the
/// accent, its label, and its origin right-aligned (dimmed unless
/// highlighted).
pub open spec fn entry_writes(
    cs: Seq<(Seq<char>, Seq<char>)>,
    sel: int,
    first: int,
    i: int,
    ox: int,
    oy: int,
    bw: int,
    pal: Palette,
) -> Seq<CellWrite> {
    let k = first + i;
    let (label, origin) = cs[k];
    let selected = k == sel;
    let fg = if selected { pal.base } else { pal.text };
    let bg = if selected { pal.accent } else { pal.surface };
    let y = oy + 2 + i;
    let lim = ox + bw - 1;
    let hl = if selected { fill_writes(ox + 1, y, (bw - 2) as nat, fg, bg) } else { Seq::empty() };
    let ow = origin.len() as int;
    let room = if bw > 4 { bw - 4 } else { 0 };
    let at = ox + bw - 2 - (if ow < room { ow } else { room });
    hl + text_writes(ox + 2, y, label, lim, fg, bg, selected) + text_writes(
        at,
        y,
        origin,
        lim,
        if selected { fg } else { pal.overlay },
        bg,
        false,
    )
}

/// The flattening of a sequence of write lists.
pub open spec fn flat_writes(parts: Seq<Seq<CellWrite>>) -> Seq<CellWrite>
    decreases parts.len(),
{
    if parts.len() == 0 {
        Seq::empty()
    } else {
        flat_writes(parts.drop_last()) + parts.last()
    }
}

/// The picker's writes inside its panel at `(ox, oy)`: the title, a "no
/// match" line when nothing matches, the visible window of the list, and
/// the key line.
pub open spec fn picker_writes(
    cs: Seq<(Seq<char>, Seq<char>)>,
    query: Seq<char>,
    sel: int,
    chord: Seq<char>,
    pal: Palette,
    ox: int,
    oy: int,
    bw: int,
    bh: int,
) -> Seq<CellWrite> {
    let rs = list_rows(cs.len() as int);
    let lim = ox + bw - 1;
    let first = list_first(sel, rs);
    let left = if cs.len() > first { cs.len() - first } else { 0 };
    let vis = if left < rs { left } else { rs };
    text_writes(ox + 1, oy + 1, picker_title(query), lim, pal.accent, pal.surface, true) + (if cs.len() == 0 {
        text_writes(ox + 2, oy + 2, "no match"@, lim, pal.overlay, pal.surface, false)
    } else {
        Seq::empty()
    }) + flat_writes(Seq::new(vis as nat, |i: int| entry_writes(cs, sel, first, i, ox, oy, bw, pal))) + text_writes(
        ox + 1,
        oy + bh - 2,
        picker_help(chord),
        lim,
        pal.overlay,
        pal.surface,
        false,
    )
}

/// The screen after the spawn-directory picker is drawn over `o`: a
/// centered panel ringed in the accent, or nothing when the screen cannot
/// hold it with a cell to spare on each side.
pub open spec fn dir_picker_spec(
    o: Seq<Cell>,
    cols: u16,
    rows: u16,
    cs: Seq<(Seq<char>, Seq<char>)>,
    query: Seq<char>,
    sel: int,
    chord: Seq<char>,
    pal: Palette,
) -> Seq<Cell> {
    let (bw, bh) = picker_size(cs, query, chord);
    if (cols as int) < bw + 2 || (rows as int) < bh + 2 {
        o
    } else {
        let ox = (cols - bw) / 2;
        let oy = (rows - bh) / 2;
        apply_spec(boxed(o, cols, ox, oy, bw, bh, pal, pal.accent), cols, rows, picker_writes(cs, query, sel, chord, pal, ox, oy, bw, bh))
    }
}

/// The widest of the first `k` shown entries, capped where it could not
/// fit a screen anyway.
fn widest_of(shown: &Vec<Candidate>, k: usize) -> (w: usize)
    ensures
        w <= 0x3_0000,
        w < 0x3_0000 ==> w == widest_entry(candidates_view(shown@), k as int),
        w == 0x3_0000 ==> widest_entry(candidates_view(shown@), k as int) > 0xffff,
{
    let ghost cs = candidates_view(shown@);
    let mut w: usize = 0;
    let mut j: usize = 0;
    while j < k && j < shown.len()
        invariant
            j <= k,
            j <= shown@.len(),
            cs == candidates_view(shown@),
            w <= 0x3_0000,
            w < 0x3_0000 ==> w == widest_entry(cs, j as int),
            w == 0x3_0000 ==> widest_entry(cs, j as int) > 0xffff,
        decreases k - j,
    {
        let l = chars_of(shown[j].label.as_str()).len();
        let o = chars_of(shown[j].origin.as_str()).len();
        let here: usize = if l > 0xffff || o > 0xffff { 0x3_0000 } else { l + o + 4 };
        if here > w {
            w = here;
        }
        j = j + 1;
    }
    proof {
        if j < k {
            assert(j == shown@.len());
            assert forall|m: int| j <= m <= k implies widest_entry(cs, m) == widest_entry(cs, j as int) by {
                lemma_widest_past_end(cs, j as int, m);
            }
        }
    }
    w
}

proof fn lemma_widest_past_end(cs: Seq<(Seq<char>, Seq<char>)>, j: int, m: int)
    requires
        j == cs.len(),
        j <= m,
    ensures
        widest_entry(cs, m) == widest_entry(cs, j),
    decreases m - j,
{
    if m > j {
        lemma_widest_past_end(cs, j, m - 1);
    }
}

/// The writes that fill `n` cells of row `y` from `x0` with blanks in `fg`
/// on `bg`.
pub open spec fn fill_writes(x0: int, y: int, n: nat, fg: Color, bg: Color) -> Seq<CellWrite> {
    Seq::new(n, |x: int| CellWrite { x: (x0 + x) as u16, y: y as u16, cell: styled(' ', fg, bg, false) })
}

fn push_fill_writes(ws: &mut Vec<CellWrite>, x0: usize, y: usize, n: usize, fg: Color, bg: Color)
    requires
        x0 + n <= 0xffff,
    ensures
        final(ws)@ == old(ws)@ + fill_writes(x0 as int, y as int, n as nat, fg, bg),
{
    let ghost before = ws@;
    let mut x: usize = 0;
    while x < n
        invariant
            x <= n,
            x0 + n <= 0xffff,
            ws@ == before + fill_writes(x0 as int, y as int, x as nat, fg, bg),
        decreases n - x,
    {
        ws.push(CellWrite { x: (x0 + x) as u16, y: y as u16, cell: styled_cell(' ', fg, bg, false) });
        x = x + 1;
        proof {
            assert(ws@ =~= before + fill_writes(x0 as int, y as int, x as nat, fg, bg));
        }
    }
}

/// Append the writes of list row `i`.
#[verifier::rlimit(30)]
fn push_entry_writes(
    ws: &mut Vec<CellWrite>,
    shown: &Vec<Candidate>,
    sel: usize,
    first: usize,
    i: usize,
    ox: usize,
    oy: usize,
    bw: usize,
    pal: &Palette,
)
    requires
        first + i < shown@.len(),
        bw >= 2,
        ox + bw <= 0xffff,
        oy + 2 + i <= 0xffff,
    ensures
        final(ws)@ == old(ws)@ + entry_writes(
            candidates_view(shown@),
            sel as int,
            first as int,
            i as int,
            ox as int,
            oy as int,
            bw as int,
            *pal,
        ),
{
    let _n = shown.len();
    let k = first + i;
    let label = chars_of(shown[k].label.as_str());
    let origin = chars_of(shown[k].origin.as_str());
    let selected = k == sel;
    let fg = if selected { pal.base } else { pal.text };
    let bg = if selected { pal.accent } else { pal.surface };
    let y = oy + 2 + i;
    let lim = ox + bw - 1;
    let ghost before = ws@;
    if selected {
        push_fill_writes(ws, ox + 1, y, bw - 2, fg, bg);
    }
    let ghost mid = ws@;
    push_text_writes(ws, ox + 2, y, &label, lim, fg, bg, selected);
    let ghost mid2 = ws@;
    let ow = origin.len();
    let room: usize = if bw > 4 { bw - 4 } else { 0 };
    let at: usize = ox + bw - 2 - (if ow < room { ow } else { room });
    push_text_writes(ws, at, y, &origin, lim, if selected { fg } else { pal.overlay }, bg, false);
    proof {
        let cs = candidates_view(shown@);
        assert(cs[k as int] == (label@, origin@));
        let hl = if selected { fill_writes((ox + 1) as int, y as int, (bw - 2) as nat, fg, bg) } else { Seq::empty() };
        assert(mid == before + hl);
        assert(ws@ == before + hl + text_writes((ox + 2) as int, y as int, label@, lim as int, fg, bg, selected)
            + text_writes(at as int, y as int, origin@, lim as int, if selected { fg } else { pal.overlay }, bg, false));
    }
}

proof fn lemma_flat_writes_step(f: spec_fn(int) -> Seq<CellWrite>, k: nat)
    ensures
        flat_writes(Seq::new(k + 1, f)) == flat_writes(Seq::new(k, f)) + f(k as int),
{
    assert(Seq::new(k + 1, f).drop_last() =~= Seq::new(k, f));
}

/// Draw the spawn-directory picker over the frame: the filter line, the
/// directories matching it (`shown`) with the highlighted one filled in the
/// accent, scrolled so the highlight stays visible, and the key legend
/// naming the save chord.
#[verifier::rlimit(40)]
pub fn draw_dir_picker(
    out: &mut Vec<Cell>,
    cols: u16,
    rows: u16,
    pick: &DirPicker,
    shown: &Vec<Candidate>,
    pal: &Palette,
    chord: &str,
)
    ensures
        final(out)@ == dir_picker_spec(
            old(out)@,
            cols,
            rows,
            candidates_view(shown@),
            pick.query@,
            pick.sel as int,
            chord@,
            *pal,
        ),
{
    let ghost cs = candidates_view(shown@);
    let n = shown.len();
    let rs: usize = if n < 1 { 1 } else if n > 10 { 10 } else { n };
    let mut title: Vec<char> = Vec::new();
    push_str(&mut title, " spawn dir: ");
    push_str(&mut title, pick.query.as_str());
    push_str(&mut title, "_ ");
    let mut help: Vec<char> = Vec::new();
    push_str(&mut help, " ↑/↓ pick   ⏎ session   ");
    push_str(&mut help, chord);
    push_str(&mut help, " save to config   esc cancel ");
    proof {
        assert(title@ =~= picker_title(pick.query@));
        assert(help@ =~= picker_help(chord@));
    }
    let widest = widest_of(shown, rs);
    let tl = title.len();
    let hl = help.len();
    if tl > 0xffff || hl > 0xffff || widest > 0xffff {
        return;
    }
    let w1 = if widest > tl { widest } else { tl };
    let bw: usize = (if w1 > hl { w1 } else { hl }) + 2;
    let bh: usize = rs + 4;
    if (cols as usize) < bw + 2 || (rows as usize) < bh + 2 {
        return;
    }
    let ox: usize = (cols as usize - bw) / 2;
    let oy: usize = (rows as usize - bh) / 2;
    let ghost o = out@;
    draw_boxed(out, cols, ox, oy, bw, bh, pal, pal.accent);
    let lim = ox + bw - 1;
    let mut ws: Vec<CellWrite> = Vec::new();
    push_text_writes(&mut ws, ox + 1, oy + 1, &title, lim, pal.accent, pal.surface, true);
    if n == 0 {
        let mut nm: Vec<char> = Vec::new();
        push_str(&mut nm, "no match");
        push_text_writes(&mut ws, ox + 2, oy + 2, &nm, lim, pal.overlay, pal.surface, false);
    }
    let ghost head = ws@;
    let first: usize = if pick.sel > rs - 1 { pick.sel - (rs - 1) } else { 0 };
    let left: usize = if n > first { n - first } else { 0 };
    let vis: usize = if left < rs { left } else { rs };
    let ghost f = |i: int| entry_writes(cs, pick.sel as int, first as int, i, ox as int, oy as int, bw as int, *pal);
    let mut i: usize = 0;
    while i < vis
        invariant
            i <= vis,
            vis <= rs,
            rs <= 10,
            vis == 0 || first + vis <= n,
            n == shown@.len(),
            cs == candidates_view(shown@),
            bw >= 2,
            ox + bw <= cols,
            oy + bh <= rows,
            bh == rs + 4,
            f == (|i: int| entry_writes(cs, pick.sel as int, first as int, i, ox as int, oy as int, bw as int, *pal)),
            ws@ == head + flat_writes(Seq::new(i as nat, f)),
        decreases vis - i,
    {
        proof {
            lemma_flat_writes_step(f, i as nat);
        }
        push_entry_writes(&mut ws, shown, pick.sel, first, i, ox, oy, bw, pal);
        i = i + 1;
    }
    push_text_writes(&mut ws, ox + 1, oy + bh - 2, &help, lim, pal.overlay, pal.surface, false);
    proof {
        reveal_strlit("no match");
        assert(ws@ =~= picker_writes(cs, pick.query@, pick.sel as int, chord@, *pal, ox as int, oy as int, bw as int, bh as int));
    }
    apply_writes(out, cols, rows, &ws);
}

/// The theme picker's title: the previewed theme's place and name.
pub open spec fn theme_title(sel: nat, n: nat, name: Seq<char>) -> Seq<char> {
    " theme "@ + decimal(sel + 1) + "/"@ + decimal(n) + ": "@ + name + " "@
}

/// The theme picker's key line.
pub open spec fn theme_help() -> Seq<char> {
    " ←/→ preview   ⏎ keep   esc cancel "@
}

/// The screen after the theme picker is drawn over `o`: a small centered
/// panel ringed in the (previewed) accent naming the theme on its first
/// row, bold in the accent, and the keys on its second; nothing when `sel`
/// names no theme or the screen cannot hold the panel.
pub open spec fn theme_picker_spec(o: Seq<Cell>, cols: u16, rows: u16, sel: nat, names: Seq<Seq<char>>, pal: Palette) -> Seq<Cell> {
    if sel >= names.len() {
        o
    } else {
        let t = theme_title(sel, names.len(), names[sel as int]);
        let h = theme_help();
        let bw: int = (if t.len() > h.len() { t.len() } else { h.len() }) as int + 2;
        let bh = 4int;
        if (cols as int) < bw + 2 || (rows as int) < bh + 2 {
            o
        } else {
            let ox = (cols - bw) / 2;
            let oy = (rows - bh) / 2;
            let lim = ox + bw - 1;
            let tx1 = ox + 1 + (if bw - 2 > t.len() { bw - 2 - t.len() } else { 0 }) / 2;
            let tx2 = ox + 1 + (if bw - 2 > h.len() { bw - 2 - h.len() } else { 0 }) / 2;
            apply_spec(
                boxed(o, cols, ox, oy, bw, bh, pal, pal.accent),
                cols,
                rows,
                text_writes(tx1, oy + 1, t, lim, pal.accent, pal.surface, true) + text_writes(
                    tx2,
                    oy + 2,
                    h,
                    lim,
                    pal.text,
                    pal.surface,
                    false,
                ),
            )
        }
    }
}

/// The names as plain values.
pub open spec fn names_view(v: Seq<String>) -> Seq<Seq<char>> {
    v.map_values(|s: String| s@)
}

/// Draw the theme picker: the whole screen is already the preview, so the
/// panel only names the theme being previewed and how to keep it.
pub fn draw_theme_picker(out: &mut Vec<Cell>, cols: u16, rows: u16, sel: usize, names: &Vec<String>, pal: &Palette)
    ensures
        final(out)@ == theme_picker_spec(old(out)@, cols, rows, sel as nat, names_view(names@), *pal),
{
    if sel >= names.len() {
        return;
    }
    let mut title: Vec<char> = Vec::new();
    push_str(&mut title, " theme ");
    push_decimal(&mut title, (sel + 1) as u64);
    push_str(&mut title, "/");
    push_decimal(&mut title, names.len() as u64);
    push_str(&mut title, ": ");
    push_str(&mut title, names[sel].as_str());
    push_str(&mut title, " ");
    let mut help: Vec<char> = Vec::new();
    push_str(&mut help, " ←/→ preview   ⏎ keep   esc cancel ");
    proof {
        assert(names_view(names@)[sel as int] == names@[sel as int]@);
        assert(title@ =~= theme_title(sel as nat, names@.len(), names@[sel as int]@));
        assert(help@ =~= theme_help());
    }
    let tl = title.len();
    let hl = help.len();
    if tl > 0xffff || hl > 0xffff {
        return;
    }
    let bw: usize = (if tl > hl { tl } else { hl }) + 2;
    let bh: usize = 4;
    if (cols as usize) < bw + 2 || (rows as usize) < bh + 2 {
        return;
    }
    let ox: usize = (cols as usize - bw) / 2;
    let oy: usize = (rows as usize - bh) / 2;
    draw_boxed(out, cols, ox, oy, bw, bh, pal, pal.accent);
    let lim = ox + bw - 1;
    let tx1 = ox + 1 + (if bw - 2 > tl { bw - 2 - tl } else { 0 }) / 2;
    let tx2 = ox + 1 + (if bw - 2 > hl { bw - 2 - hl } else { 0 }) / 2;
    let mut ws: Vec<CellWrite> = Vec::new();
    push_text_writes(&mut ws, tx1, oy + 1, &title, lim, pal.accent, pal.surface, true);
    push_text_writes(&mut ws, tx2, oy + 2, &help, lim, pal.text, pal.surface, false);
    apply_writes(out, cols, rows, &ws);
}

/// Text written from `x0` on row `y`, stopped before `lim`, lands strictly
/// inside `r` when it starts past the left frame, stops before the right
/// one, and its row is inside.
proof fn lemma_text_inside(r: Rect, x0: int, y: int, text: Seq<char>, lim: int, fg: Color, bg: Color, bold: bool)
    requires
        r.x < x0,
        lim <= r.x + r.w - 1,
        r.y < y < r.y + r.h - 1,
        r.x + r.w <= 0xffff,
        r.y + r.h <= 0xffff,
    ensures
        forall|j: int|
            0 <= j < text_writes(x0, y, text, lim, fg, bg, bold).len() ==> strictly_inside(
                r,
                #[trigger] text_writes(x0, y, text, lim, fg, bg, bold)[j].x as int,
                text_writes(x0, y, text, lim, fg, bg, bold)[j].y as int,
            ),
{
}

/// A flattening of write lists that each land strictly inside `r` does too.
proof fn lemma_flat_inside(f: spec_fn(int) -> Seq<CellWrite>, n: nat, r: Rect)
    requires
        forall|i: int, j: int| 0 <= i < n && 0 <= j < f(i).len() ==> strictly_inside(r, #[trigger] f(i)[j].x as int, f(i)[j].y as int),
    ensures
        forall|j: int|
            0 <= j < flat_writes(Seq::new(n, f)).len() ==> strictly_inside(
                r,
                #[trigger] flat_writes(Seq::new(n, f))[j].x as int,
                flat_writes(Seq::new(n, f))[j].y as int,
            ),
    decreases n,
{
    if n > 0 {
        lemma_flat_inside(f, (n - 1) as nat, r);
        lemma_flat_writes_step(f, (n - 1) as nat);
        let a = flat_writes(Seq::new((n - 1) as nat, f));
        let b = f(n - 1);
        assert forall|j: int| 0 <= j < (a + b).len() implies strictly_inside(r, #[trigger] (a + b)[j].x as int, (a + b)[j].y as int) by {
            if j < a.len() {
                assert((a + b)[j] == a[j]);
            } else {
                assert((a + b)[j] == b[j - a.len()]);
                assert(strictly_inside(r, f(n - 1)[j - a.len()].x as int, f(n - 1)[j - a.len()].y as int));
            }
        }
    }
}

/// Writes never change the buffer's length.
proof fn lemma_apply_len(s: Seq<Cell>, cols: u16, rows: u16, ws: Seq<CellWrite>)
    ensures
        apply_spec(s, cols, rows, ws).len() == s.len(),
    decreases ws.len(),
{
    if ws.len() > 0 {
        lemma_apply_len(s, cols, rows, ws.drop_last());
    }
}

/// The picker's panel, where it is drawn: centered on the screen.
pub open spec fn picker_box(cols: u16, rows: u16, cs: Seq<(Seq<char>, Seq<char>)>, query: Seq<char>, chord: Seq<char>) -> Option<Rect> {
    let (bw, bh) = picker_size(cs, query, chord);
    if (cols as int) < bw + 2 || (rows as int) < bh + 2 {
        None
    } else {
        Some(Rect { x: ((cols - bw) / 2) as u16, y: ((rows - bh) / 2) as u16, w: bw as u16, h: bh as u16 })
    }
}

/// The spawn-directory picker paints only its own centered panel: the panel
/// lies inside the screen, and every cell outside it (every cell at all,
/// when the screen is too small for it) is left as it was.
pub proof fn the_dir_picker_paints_only_its_box(
    o: Seq<Cell>,
    cols: u16,
    rows: u16,
    cs: Seq<(Seq<char>, Seq<char>)>,
    query: Seq<char>,
    sel: int,
    chord: Seq<char>,
    pal: Palette,
)
    ensures
        dir_picker_spec(o, cols, rows, cs, query, sel, chord, pal).len() == o.len(),
        picker_box(cols, rows, cs, query, chord) matches Some(r) ==> r.x + r.w <= cols && r.y + r.h <= rows,
        forall|i: int|
            0 <= i < o.len() && !(picker_box(cols, rows, cs, query, chord) matches Some(r) && in_box(
                cols as int,
                r.x as int,
                r.y as int,
                r.w as int,
                r.h as int,
                i,
            )) ==> #[trigger] dir_picker_spec(o, cols, rows, cs, query, sel, chord, pal)[i] == o[i],
{
    let (bw, bh) = picker_size(cs, query, chord);
    if (cols as int) < bw + 2 || (rows as int) < bh + 2 {
        return;
    }
    reveal_strlit(" spawn dir: ");
    reveal_strlit("_ ");
    let ox = (cols - bw) / 2;
    let oy = (rows - bh) / 2;
    let r = Rect { x: ox as u16, y: oy as u16, w: bw as u16, h: bh as u16 };
    let rs = list_rows(cs.len() as int);
    assert(bw >= picker_title(query).len() + 2);
    assert(bw > 4 && bh == rs + 4 && rs >= 1);
    let lim = ox + bw - 1;
    let first = list_first(sel, rs);
    let left = if cs.len() > first { cs.len() - first } else { 0 };
    let vis = if left < rs { left } else { rs };
    let t = text_writes(ox + 1, oy + 1, picker_title(query), lim, pal.accent, pal.surface, true);
    let nm = if cs.len() == 0 {
        text_writes(ox + 2, oy + 2, "no match"@, lim, pal.overlay, pal.surface, false)
    } else {
        Seq::empty()
    };
    let f = |i: int| entry_writes(cs, sel, first, i, ox, oy, bw, pal);
    let es = flat_writes(Seq::new(vis as nat, f));
    let hp = text_writes(ox + 1, oy + bh - 2, picker_help(chord), lim, pal.overlay, pal.surface, false);
    lemma_text_inside(r, ox + 1, oy + 1, picker_title(query), lim, pal.accent, pal.surface, true);
    lemma_text_inside(r, ox + 2, oy + 2, "no match"@, lim, pal.overlay, pal.surface, false);
    lemma_text_inside(r, ox + 1, oy + bh - 2, picker_help(chord), lim, pal.overlay, pal.surface, false);
    assert forall|i: int, j: int| 0 <= i < vis && 0 <= j < f(i).len() implies strictly_inside(r, #[trigger] f(i)[j].x as int, f(i)[j].y as int) by {
        let k = first + i;
        let (label, origin) = cs[k];
        let selected = k == sel;
        let fg = if selected { pal.base } else { pal.text };
        let bg = if selected { pal.accent } else { pal.surface };
        let y = oy + 2 + i;
        let hl = if selected { fill_writes(ox + 1, y, (bw - 2) as nat, fg, bg) } else { Seq::empty() };
        let ow = origin.len() as int;
        let room = if bw > 4 { bw - 4 } else { 0 };
        let at = ox + bw - 2 - (if ow < room { ow } else { room });
        let lw = text_writes(ox + 2, y, label, lim, fg, bg, selected);
        let owr = text_writes(at, y, origin, lim, if selected { fg } else { pal.overlay }, bg, false);
        lemma_text_inside(r, ox + 2, y, label, lim, fg, bg, selected);
        lemma_text_inside(r, at, y, origin, lim, if selected { fg } else { pal.overlay }, bg, false);
        assert(f(i) == hl + lw + owr);
        if j < hl.len() {
            assert(f(i)[j] == hl[j]);
        } else if j < hl.len() + lw.len() {
            assert(f(i)[j] == lw[j - hl.len()]);
        } else {
            assert(f(i)[j] == owr[j - hl.len() - lw.len()]);
        }
    }
    lemma_flat_inside(f, vis as nat, r);
    let all = t + nm + es + hp;
    assert(all =~= picker_writes(cs, query, sel, chord, pal, ox, oy, bw, bh));
    assert forall|j: int| 0 <= j < all.len() implies strictly_inside(r, #[trigger] all[j].x as int, all[j].y as int) by {
        if j < t.len() {
            assert(all[j] == t[j]);
        } else if j < t.len() + nm.len() {
            assert(all[j] == nm[j - t.len()]);
        } else if j < t.len() + nm.len() + es.len() {
            assert(all[j] == es[j - t.len() - nm.len()]);
        } else {
            assert(all[j] == hp[j - t.len() - nm.len() - es.len()]);
        }
    }
    let b = boxed(o, cols, ox, oy, bw, bh, pal, pal.accent);
    assert forall|i: int|
        0 <= i < o.len() && !in_box(cols as int, r.x as int, r.y as int, r.w as int, r.h as int, i) implies #[trigger] dir_picker_spec(
        o,
        cols,
        rows,
        cs,
        query,
        sel,
        chord,
        pal,
    )[i] == o[i] by {
        lemma_writes_keep_outside(b, cols, rows, all, r, i);
    }
    lemma_apply_len(b, cols, rows, all);
}

/// The scrolled list always shows the highlighted entry: the window of
/// `rs` rows starts at or before it and reaches past it, and it does not
/// scroll at all while the highlight is on the first screenful.
pub proof fn the_highlight_is_always_on_screen(sel: int, rs: int)
    requires
        0 <= sel,
        rs >= 1,
    ensures
        0 <= list_first(sel, rs) <= sel < list_first(sel, rs) + rs,
        sel < rs ==> list_first(sel, rs) == 0,
{
}

} // verus!
