//! Overlays painted on top of a composed frame: toasts, the force-quit
//! confirmation, the dimmed backdrop behind a modal panel, and the badges
//! stamped on a panel's frame.

use vstd::prelude::*;
use crate::cell::{Cell, Color, Style};
use crate::screen::{col_of, draw_ring, fill_box, in_box, lemma_index_coords, ring_char, row_of, styled, styled_cell, write_row};
use crate::status::PaneStatus;
use crate::text::{chars_of, decimal, push_decimal, push_str};
use crate::view::Rect;

verus! {

/// The chrome colors of the active theme.
#[derive(Debug, Clone, Copy, PartialEq, Eq, Structural)]
pub struct Palette {
    /// Screen background behind panes and empty boxes.
    pub base: Color,
    /// Panel and toast background.
    pub surface: Color,
    /// Skeleton frame color.
    pub overlay: Color,
    /// Body text.
    pub text: Color,
    /// Dimmed text (the theme's muted form of `text`).
    pub muted: Color,
    /// Focus accent.
    pub accent: Color,
    /// Placeholder cell identifiers.
    pub label: Color,
    /// Status tints.
    pub running: Color,
    pub idle: Color,
    pub done: Color,
    pub failed: Color,
    /// Muted status tints, for tile and tick backgrounds.
    pub running_muted: Color,
    pub idle_muted: Color,
    pub done_muted: Color,
    pub failed_muted: Color,
}

impl Palette {
    /// The tint of a pane status.
    pub open spec fn status_spec(&self, s: PaneStatus) -> Color {
        match s {
            PaneStatus::Running => self.running,
            PaneStatus::Idle => self.idle,
            PaneStatus::Done => self.done,
            PaneStatus::Failed => self.failed,
        }
    }

    /// The muted tint of a pane status.
    pub open spec fn status_muted_spec(&self, s: PaneStatus) -> Color {
        match s {
            PaneStatus::Running => self.running_muted,
            PaneStatus::Idle => self.idle_muted,
            PaneStatus::Done => self.done_muted,
            PaneStatus::Failed => self.failed_muted,
        }
    }

    /// The muted tint of a pane status.
    pub fn status_muted(&self, s: PaneStatus) -> (c: Color)
        ensures
            c == self.status_muted_spec(s),
    {
        match s {
            PaneStatus::Running => self.running_muted,
            PaneStatus::Idle => self.idle_muted,
            PaneStatus::Done => self.done_muted,
            PaneStatus::Failed => self.failed_muted,
        }
    }

    /// The tint of a pane status.
    pub fn status(&self, s: PaneStatus) -> (c: Color)
        ensures
            c == self.status_spec(s),
    {
        match s {
            PaneStatus::Running => self.running,
            PaneStatus::Idle => self.idle,
            PaneStatus::Done => self.done,
            PaneStatus::Failed => self.failed,
        }
    }
}

/// Where a toast goes: the bottom-left cell of a non-empty anchor rect,
/// clamped to the screen, or the bottom-left of the screen.
pub open spec fn toast_origin(cols: u16, rows: u16, anchor: Option<Rect>) -> (int, int) {
    match anchor {
        Some(r) if r.w > 0 && r.h > 0 => (
            if r.x < cols - 1 { r.x as int } else { cols - 1 },
            if r.y + r.h - 1 < rows - 1 { r.y + r.h - 1 } else { rows - 1 },
        ),
        _ => (0, rows - 1),
    }
}

/// The anchors a toast can be placed at without an overflow.
pub open spec fn toast_anchor_ok(anchor: Option<Rect>) -> bool {
    match anchor {
        Some(r) => (r.w > 0 && r.h > 0) ==> r.y + r.h <= 0xffff,
        None => true,
    }
}

/// Draw a one-line toast ` text ` on the panel surface, in the body color
/// or, for an error, the failed tint, at the bottom-left of `anchor` (a
/// pane) or of the screen, clipped at the right edge of the screen.
/// Nothing is drawn on a screen narrower than 8 columns.
pub fn draw_toast_at(
    out: &mut Vec<Cell>,
    cols: u16,
    rows: u16,
    text: &str,
    pal: &Palette,
    ok: bool,
    anchor: Option<Rect>,
)
    requires
        toast_anchor_ok(anchor),
    ensures
        final(out)@.len() == old(out)@.len(),
        forall|i: int|
            0 <= i < old(out)@.len() ==> #[trigger] final(out)@[i] == ({
                let body = seq![' '] + text@ + seq![' '];
                let (x0, y) = toast_origin(cols, rows, anchor);
                let w = if body.len() < cols - x0 { body.len() as int } else { cols - x0 };
                if cols >= 8 && rows > 0 && row_of(cols as int, i) == y && x0 <= col_of(cols as int, i) && col_of(
                    cols as int,
                    i,
                ) < x0 + w {
                    styled(body[col_of(cols as int, i) - x0], if ok { pal.text } else { pal.failed }, pal.surface, false)
                } else {
                    old(out)@[i]
                }
            }),
{
    if cols < 8 || rows == 0 {
        return;
    }
    let mut body: Vec<char> = Vec::new();
    body.push(' ');
    push_str(&mut body, text);
    body.push(' ');
    let (x0, y): (u16, u16) = match anchor {
        Some(r) => {
            if r.w > 0 && r.h > 0 {
                (if r.x < cols - 1 { r.x } else { cols - 1 }, if r.y + r.h - 1 < rows - 1 { r.y + r.h - 1 } else { rows - 1 })
            } else {
                (0, rows - 1)
            }
        },
        None => (0, rows - 1),
    };
    let room: usize = (cols - x0) as usize;
    let w: usize = if body.len() < room { body.len() } else { room };
    let fg = if ok { pal.text } else { pal.failed };
    proof {
        assert(body@ =~= seq![' '] + text@ + seq![' ']);
    }
    write_row(out, cols, x0 as usize, y as usize, &body, x0 as usize + w, fg, pal.surface, false);
}

/// Draw a one-line toast along the bottom of the screen.
pub fn draw_toast(out: &mut Vec<Cell>, cols: u16, rows: u16, text: &str, pal: &Palette, ok: bool)
    ensures
        final(out)@.len() == old(out)@.len(),
        forall|i: int|
            0 <= i < old(out)@.len() ==> #[trigger] final(out)@[i] == ({
                let body = seq![' '] + text@ + seq![' '];
                let w = if body.len() < cols { body.len() as int } else { cols as int };
                if cols >= 8 && rows > 0 && row_of(cols as int, i) == rows - 1 && col_of(cols as int, i) < w {
                    styled(body[col_of(cols as int, i)], if ok { pal.text } else { pal.failed }, pal.surface, false)
                } else {
                    old(out)@[i]
                }
            }),
{
    draw_toast_at(out, cols, rows, text, pal, ok, None);
    proof {
        assert forall|i: int| 0 <= i < old(out)@.len() && cols > 0 implies 0 <= col_of(cols as int, i) by {
            vstd::arithmetic::div_mod::lemma_mod_bound(i, cols as int);
        }
    }
}

/// The force-quit panel's title for `panes` panes.
pub open spec fn quit_title(panes: nat) -> Seq<char> {
    " force quit gwae? "@ + decimal(panes) + " pane"@ + (if panes == 1 { Seq::empty() } else { seq!['s'] })
        + " will be killed "@
}

/// The force-quit panel's warning line.
pub open spec fn quit_warning() -> Seq<char> {
    " running commands are terminated immediately "@
}

/// The force-quit panel's key line, naming the quit chord.
pub open spec fn quit_help(chord: Seq<char>) -> Seq<char> {
    seq![' '] + chord + " again or ⏎ quits   esc cancels "@
}

/// The column a line of `len` characters starts at, centered in the
/// interior of a box `bw` wide at `ox`.
pub open spec fn centered_x(ox: int, bw: int, len: int) -> int {
    ox + 1 + (if bw - 2 > len { bw - 2 - len } else { 0 }) / 2
}

/// The longest of three lines.
pub open spec fn longest3(a: Seq<char>, b: Seq<char>, c: Seq<char>) -> int {
    let ab = if a.len() > b.len() { a.len() } else { b.len() };
    (if ab > c.len() { ab } else { c.len() }) as int
}

/// Cell `i` of the screen after the force-quit confirmation is drawn over
/// `o`: a panel two cells wider than its longest line and five rows tall,
/// centered, on the surface color, ringed in the failed tint, with the
/// title (failed tint, bold), the warning and the key line centered on its
/// three inner rows; nothing when the screen cannot hold the panel with a
/// cell to spare on each side.
pub open spec fn quit_cell(o: Cell, cols: u16, rows: u16, panes: nat, chord: Seq<char>, pal: Palette, i: int) -> Cell {
    let t = quit_title(panes);
    let wl = quit_warning();
    let h = quit_help(chord);
    let bw = longest3(t, wl, h) + 2;
    let bh = 5int;
    if (cols as int) < bw + 2 || (rows as int) < bh + 2 {
        o
    } else {
        let ox = (cols - bw) / 2;
        let oy = (rows - bh) / 2;
        let x = col_of(cols as int, i);
        let y = row_of(cols as int, i);
        if in_box(cols as int, ox, oy, bw, bh, i) {
            match ring_char(x - ox, y - oy, bw, bh) {
                Some(g) => styled(g, pal.failed, pal.surface, false),
                None => {
                    let line = if y == oy + 1 { t } else if y == oy + 2 { wl } else { h };
                    let tx = centered_x(ox, bw, line.len() as int);
                    if oy + 1 <= y <= oy + 3 && tx <= x < tx + line.len() && x < ox + bw - 1 {
                        styled(
                            line[x - tx],
                            if y == oy + 1 { pal.failed } else { pal.text },
                            pal.surface,
                            y == oy + 1,
                        )
                    } else {
                        styled(' ', pal.text, pal.surface, false)
                    }
                },
            }
        } else {
            o
        }
    }
}

/// The five drawing steps of the force-quit panel compose to
/// [`quit_cell`].
#[verifier::rlimit(60)]
proof fn lemma_quit_panel(
    o: Seq<Cell>,
    o1: Seq<Cell>,
    o2: Seq<Cell>,
    o3: Seq<Cell>,
    o4: Seq<Cell>,
    o5: Seq<Cell>,
    cols: u16,
    rows: u16,
    panes: nat,
    chord: Seq<char>,
    pal: Palette,
    ox: int,
    oy: int,
    bw: int,
)
    requires
        bw == longest3(quit_title(panes), quit_warning(), quit_help(chord)) + 2,
        (cols as int) >= bw + 2,
        (rows as int) >= 7,
        ox == (cols - bw) / 2,
        oy == (rows - 5) / 2,
        o1.len() == o.len(),
        o2.len() == o.len(),
        o3.len() == o.len(),
        o4.len() == o.len(),
        o5.len() == o.len(),
        forall|i: int|
            0 <= i < o.len() ==> #[trigger] o1[i] == (if in_box(cols as int, ox, oy, bw, 5, i) {
                styled(' ', pal.text, pal.surface, false)
            } else {
                o[i]
            }),
        forall|i: int|
            0 <= i < o.len() ==> #[trigger] o2[i] == (if in_box(cols as int, ox, oy, bw, 5, i) && ring_char(
                col_of(cols as int, i) - ox,
                row_of(cols as int, i) - oy,
                bw,
                5,
            ) is Some {
                styled(ring_char(col_of(cols as int, i) - ox, row_of(cols as int, i) - oy, bw, 5)->0, pal.failed, pal.surface, false)
            } else {
                o1[i]
            }),
        forall|i: int|
            0 <= i < o.len() ==> #[trigger] o3[i] == ({
                let line = quit_title(panes);
                let tx = centered_x(ox, bw, line.len() as int);
                if row_of(cols as int, i) == oy + 1 && tx <= col_of(cols as int, i) && col_of(cols as int, i) < tx + line.len()
                    && col_of(cols as int, i) < ox + bw - 1 {
                    styled(line[col_of(cols as int, i) - tx], pal.failed, pal.surface, true)
                } else {
                    o2[i]
                }
            }),
        forall|i: int|
            0 <= i < o.len() ==> #[trigger] o4[i] == ({
                let line = quit_warning();
                let tx = centered_x(ox, bw, line.len() as int);
                if row_of(cols as int, i) == oy + 2 && tx <= col_of(cols as int, i) && col_of(cols as int, i) < tx + line.len()
                    && col_of(cols as int, i) < ox + bw - 1 {
                    styled(line[col_of(cols as int, i) - tx], pal.text, pal.surface, false)
                } else {
                    o3[i]
                }
            }),
        forall|i: int|
            0 <= i < o.len() ==> #[trigger] o5[i] == ({
                let line = quit_help(chord);
                let tx = centered_x(ox, bw, line.len() as int);
                if row_of(cols as int, i) == oy + 3 && tx <= col_of(cols as int, i) && col_of(cols as int, i) < tx + line.len()
                    && col_of(cols as int, i) < ox + bw - 1 {
                    styled(line[col_of(cols as int, i) - tx], pal.text, pal.surface, false)
                } else {
                    o4[i]
                }
            }),
    ensures
        forall|i: int| 0 <= i < o.len() ==> #[trigger] o5[i] == quit_cell(o[i], cols, rows, panes, chord, pal, i),
{
    assert forall|i: int| 0 <= i < o.len() implies #[trigger] o5[i] == quit_cell(o[i], cols, rows, panes, chord, pal, i) by {
        let x = col_of(cols as int, i);
        let y = row_of(cols as int, i);
        assert(o1[i] == o1[i] && o2[i] == o2[i] && o3[i] == o3[i] && o4[i] == o4[i]);
        if oy + 1 <= y <= oy + 3 {
            let line = if y == oy + 1 {
                quit_title(panes)
            } else if y == oy + 2 {
                quit_warning()
            } else {
                quit_help(chord)
            };
            let tx = centered_x(ox, bw, line.len() as int);
            if tx <= x < tx + line.len() && x < ox + bw - 1 {
                assert(in_box(cols as int, ox, oy, bw, 5, i));
                assert(ring_char(x - ox, y - oy, bw, 5) is None);
            }
        }
    }
}

/// The three lines of the force-quit panel.
fn quit_lines(panes: usize, chord: &str) -> (r: (Vec<char>, Vec<char>, Vec<char>))
    ensures
        r.0@ == quit_title(panes as nat),
        r.1@ == quit_warning(),
        r.2@ == quit_help(chord@),
{
    let mut title: Vec<char> = Vec::new();
    push_str(&mut title, " force quit gwae? ");
    push_decimal(&mut title, panes as u64);
    push_str(&mut title, " pane");
    if panes != 1 {
        title.push('s');
    }
    push_str(&mut title, " will be killed ");
    let mut warn: Vec<char> = Vec::new();
    push_str(&mut warn, " running commands are terminated immediately ");
    let mut help: Vec<char> = Vec::new();
    help.push(' ');
    push_str(&mut help, chord);
    push_str(&mut help, " again or ⏎ quits   esc cancels ");
    proof {
        assert(title@ =~= quit_title(panes as nat));
        assert(warn@ =~= quit_warning());
        assert(help@ =~= quit_help(chord@));
    }
    (title, warn, help)
}

/// Draw the force-quit confirmation: a centered panel that names how many
/// panes will be killed, warns that running commands end immediately, and
/// spells the keys (`chord` again, or enter, quits; escape cancels). The
/// border uses the failed tint so the destructive overlay is never
/// mistaken for another panel.
#[verifier::rlimit(30)]
pub fn draw_quit_confirm(out: &mut Vec<Cell>, cols: u16, rows: u16, panes: usize, pal: &Palette, chord: &str)
    ensures
        final(out)@.len() == old(out)@.len(),
        forall|i: int|
            0 <= i < old(out)@.len() ==> #[trigger] final(out)@[i] == quit_cell(
                old(out)@[i],
                cols,
                rows,
                panes as nat,
                chord@,
                *pal,
                i,
            ),
{
    let (title, warn, help) = quit_lines(panes, chord);
    let tl = title.len();
    let wlen = warn.len();
    let hl = help.len();
    let ab = if tl > wlen { tl } else { wlen };
    let longest = if ab > hl { ab } else { hl };
    if longest > 0xffff || (cols as usize) < longest + 4 || (rows as usize) < 7 {
        return;
    }
    let bw: usize = longest + 2;
    let bh: usize = 5;
    let ox: usize = (cols as usize - bw) / 2;
    let oy: usize = (rows as usize - bh) / 2;
    let ghost o = out@;
    fill_box(out, cols, ox, oy, bw, bh, styled_cell(' ', pal.text, pal.surface, false));
    let ghost o1 = out@;
    draw_ring(out, cols, ox, oy, bw, bh, pal.failed, pal.surface);
    let ghost o2 = out@;
    let limit = ox + bw - 1;
    let tx1 = ox + 1 + (if bw - 2 > tl { bw - 2 - tl } else { 0 }) / 2;
    write_row(out, cols, tx1, oy + 1, &title, limit, pal.failed, pal.surface, true);
    let ghost o3 = out@;
    let tx2 = ox + 1 + (if bw - 2 > wlen { bw - 2 - wlen } else { 0 }) / 2;
    write_row(out, cols, tx2, oy + 2, &warn, limit, pal.text, pal.surface, false);
    let ghost o4 = out@;
    let tx3 = ox + 1 + (if bw - 2 > hl { bw - 2 - hl } else { 0 }) / 2;
    write_row(out, cols, tx3, oy + 3, &help, limit, pal.text, pal.surface, false);
    proof {
        lemma_quit_panel(o, o1, o2, o3, o4, out@, cols, rows, panes as nat, chord@, *pal, ox as int, oy as int, bw as int);
    }
}

/// A color darkened to 9/16 of its components; indexed and default colors
/// have no components and are kept.
pub open spec fn dim_color(c: Color) -> Color {
    match c {
        Color::Rgb(r, g, b) => Color::Rgb(((r * 9) / 16) as u8, ((g * 9) / 16) as u8, ((b * 9) / 16) as u8),
        other => other,
    }
}

/// A cell pushed into the background: both colors darkened, not bold.
pub open spec fn dimmed(c: Cell) -> Cell {
    Cell { style: Style { fg: dim_color(c.style.fg), bg: dim_color(c.style.bg), bold: false, ..c.style }, ..c }
}

/// `a + b`, capped at the largest `u16`.
pub open spec fn sat_add16(a: u16, b: u16) -> int {
    if a + b > 0xffff { 0xffff } else { a + b }
}

/// Whether screen cell `(x, y)` lies in `keep`.
pub open spec fn kept(keep: Rect, x: int, y: int) -> bool {
    x >= keep.x && y >= keep.y && x < sat_add16(keep.x, keep.w) && y < sat_add16(keep.y, keep.h)
}

fn dim(c: Color) -> (d: Color)
    ensures
        d == dim_color(c),
{
    match c {
        Color::Rgb(r, g, b) => Color::Rgb(
            ((r as u16 * 9) / 16) as u8,
            ((g as u16 * 9) / 16) as u8,
            ((b as u16 * 9) / 16) as u8,
        ),
        other => other,
    }
}

/// Dim cell `(x, y)` of the screen, when the buffer holds it.
fn dim_at(out: &mut Vec<Cell>, cols: u16, x: u16, y: u16)
    requires
        x < cols,
    ensures
        final(out)@.len() == old(out)@.len(),
        forall|i: int|
            0 <= i < old(out)@.len() ==> #[trigger] final(out)@[i] == (if col_of(cols as int, i) == x && row_of(
                cols as int,
                i,
            ) == y {
                dimmed(old(out)@[i])
            } else {
                old(out)@[i]
            }),
{
    proof {
        assert((y as int) * (cols as int) <= 0xffff * 0xffff) by (nonlinear_arith)
            requires
                y <= 0xffff,
                cols <= 0xffff,
                0 <= y,
        ;
    }
    let idx: usize = (y as usize) * (cols as usize) + x as usize;
    let ghost o = out@;
    if idx < out.len() {
        let c = out[idx];
        out[idx] = Cell {
            style: Style { fg: dim(c.style.fg), bg: dim(c.style.bg), bold: false, ..c.style },
            ..c
        };
    }
    proof {
        assert forall|i: int| 0 <= i < o.len() implies #[trigger] out@[i] == (if col_of(cols as int, i) == x
            && row_of(cols as int, i) == y {
            dimmed(o[i])
        } else {
            o[i]
        }) by {
            lemma_index_coords(cols as int, i, x as int, y as int);
        }
    }
}

/// Dim everything on the `cols` x `rows` screen outside `keep`, so a modal
/// panel reads as the foreground.
pub fn dim_behind(out: &mut Vec<Cell>, cols: u16, rows: u16, keep: Rect)
    ensures
        final(out)@.len() == old(out)@.len(),
        forall|i: int|
            0 <= i < old(out)@.len() ==> #[trigger] final(out)@[i] == (if cols > 0 && row_of(cols as int, i) < rows
                && !kept(keep, col_of(cols as int, i), row_of(cols as int, i)) {
                dimmed(old(out)@[i])
            } else {
                old(out)@[i]
            }),
{
    let ghost o = out@;
    let kx: u16 = if keep.x as u32 + keep.w as u32 > 0xffff { 0xffff } else { keep.x + keep.w };
    let ky: u16 = if keep.y as u32 + keep.h as u32 > 0xffff { 0xffff } else { keep.y + keep.h };
    let mut y: u16 = 0;
    while y < rows
        invariant
            y <= rows,
            kx == sat_add16(keep.x, keep.w),
            ky == sat_add16(keep.y, keep.h),
            out@.len() == o.len(),
            forall|i: int|
                0 <= i < o.len() ==> #[trigger] out@[i] == (if cols > 0 && row_of(cols as int, i) < y && !kept(
                    keep,
                    col_of(cols as int, i),
                    row_of(cols as int, i),
                ) {
                    dimmed(o[i])
                } else {
                    o[i]
                }),
        decreases rows - y,
    {
        let mut x: u16 = 0;
        while x < cols
            invariant
                y < rows,
                x <= cols,
                kx == sat_add16(keep.x, keep.w),
                ky == sat_add16(keep.y, keep.h),
                out@.len() == o.len(),
                forall|i: int|
                    0 <= i < o.len() ==> #[trigger] out@[i] == (if cols > 0 && (row_of(cols as int, i) < y || (row_of(
                        cols as int,
                        i,
                    ) == y && col_of(cols as int, i) < x)) && !kept(keep, col_of(cols as int, i), row_of(cols as int, i)) {
                        dimmed(o[i])
                    } else {
                        o[i]
                    }),
            decreases cols - x,
        {
            let inside = x >= keep.x && y >= keep.y && x < kx && y < ky;
            if !inside {
                dim_at(out, cols, x, y);
            }
            proof {
                assert forall|i: int| 0 <= i < o.len() implies #[trigger] out@[i] == (if cols > 0 && (row_of(
                    cols as int,
                    i,
                ) < y || (row_of(cols as int, i) == y && col_of(cols as int, i) < x + 1)) && !kept(
                    keep,
                    col_of(cols as int, i),
                    row_of(cols as int, i),
                ) {
                    dimmed(o[i])
                } else {
                    o[i]
                }) by {
                    vstd::arithmetic::div_mod::lemma_mod_bound(i, cols as int);
                }
            }
            x = x + 1;
        }
        proof {
            assert forall|i: int| 0 <= i < o.len() implies #[trigger] out@[i] == (if cols > 0 && row_of(cols as int, i)
                < y + 1 && !kept(keep, col_of(cols as int, i), row_of(cols as int, i)) {
                dimmed(o[i])
            } else {
                o[i]
            }) by {
                if cols > 0 {
                    vstd::arithmetic::div_mod::lemma_mod_bound(i, cols as int);
                }
            }
        }
        y = y + 1;
    }
}

/// Stamp `badge` in the accent color, bold, on row `y` of a panel `rect`,
/// centered across its width; each cell keeps its background. Nothing is
/// stamped when the panel is too narrow to hold the badge with its frame
/// corners, or has no rows.
pub open spec fn stamped(o: Seq<Cell>, cols: u16, rect: Rect, y: int, badge: Seq<char>, accent: Color, i: int) -> Cell {
    let n = badge.len() as int;
    let start = y * cols + rect.x + (rect.w - n) / 2;
    if n > 0 && rect.w > n + 2 && rect.h > 0 && start <= i < start + n {
        Cell { ch: badge[i - start], style: Style { fg: accent, bold: true, ..o[i].style }, ..o[i] }
    } else {
        o[i]
    }
}

fn stamp_row(out: &mut Vec<Cell>, cols: u16, rect: Rect, y: u32, badge: &str, accent: Color)
    requires
        y <= 0x2_0000,
    ensures
        final(out)@.len() == old(out)@.len(),
        forall|i: int|
            0 <= i < old(out)@.len() ==> #[trigger] final(out)@[i] == stamped(
                old(out)@,
                cols,
                rect,
                y as int,
                badge@,
                accent,
                i,
            ),
{
    let chars = chars_of(badge);
    let n = chars.len();
    if n == 0 || rect.h == 0 || (rect.w as usize) <= n || (rect.w as usize) - n <= 2 {
        return;
    }
    proof {
        assert((y as int) * (cols as int) <= 0x2_0000 * 0xffff) by (nonlinear_arith)
            requires
                y <= 0x2_0000,
                cols <= 0xffff,
                0 <= y,
        ;
    }
    let start: u64 = y as u64 * cols as u64 + rect.x as u64 + ((rect.w as usize - n) / 2) as u64;
    let len = out.len();
    let ghost o = out@;
    let mut k: usize = 0;
    while k < n
        invariant
            k <= n,
            n == badge@.len(),
            n < 0x10000,
            chars@ == badge@,
            n > 0 && rect.w > n + 2 && rect.h > 0,
            start == y * cols + rect.x + (rect.w - n) / 2,
            start <= 0x2_0000 * 0xffff + 0x20000,
            out@.len() == o.len(),
            len == o.len(),
            forall|i: int|
                0 <= i < o.len() ==> #[trigger] out@[i] == (if start <= i < start + k {
                    Cell { ch: badge@[i - start], style: Style { fg: accent, bold: true, ..o[i].style }, ..o[i] }
                } else {
                    o[i]
                }),
        decreases n - k,
    {
        let j: u64 = start + k as u64;
        if j < len as u64 {
            let idx = j as usize;
            let c = out[idx];
            out[idx] = Cell { ch: chars[k], style: Style { fg: accent, bold: true, ..c.style }, ..c };
        }
        k = k + 1;
    }
}

/// Stamp the keep-awake badge onto the top frame row of a panel.
pub fn stamp_keep_awake_badge(out: &mut Vec<Cell>, cols: u16, rect: Rect, pal: &Palette, badge: &str)
    ensures
        final(out)@.len() == old(out)@.len(),
        forall|i: int|
            0 <= i < old(out)@.len() ==> #[trigger] final(out)@[i] == stamped(
                old(out)@,
                cols,
                rect,
                rect.y as int,
                badge@,
                pal.accent,
                i,
            ),
{
    stamp_row(out, cols, rect, rect.y as u32, badge, pal.accent);
}

/// Stamp the development-session badge onto the bottom frame row of a
/// panel.
pub fn stamp_dev_badge(out: &mut Vec<Cell>, cols: u16, rect: Rect, pal: &Palette, badge: &str)
    ensures
        final(out)@.len() == old(out)@.len(),
        forall|i: int|
            0 <= i < old(out)@.len() ==> #[trigger] final(out)@[i] == (if rect.h > 0 {
                stamped(old(out)@, cols, rect, rect.y + rect.h - 1, badge@, pal.accent, i)
            } else {
                old(out)@[i]
            }),
{
    if rect.h == 0 {
        return;
    }
    stamp_row(out, cols, rect, rect.y as u32 + rect.h as u32 - 1, badge, pal.accent);
}

/// A badge's text, where there is one.
pub open spec fn badge_text(b: Option<&str>) -> Option<Seq<char>> {
    match b {
        Some(t) => Some(t@),
        None => None,
    }
}

/// `s` with `badge` stamped on the top (or else the bottom) frame row of
/// the panel at `r`; unchanged where there is no panel or no badge.
pub open spec fn badged(s: Seq<Cell>, cols: u16, r: Option<Rect>, top: bool, badge: Option<Seq<char>>, accent: Color) -> Seq<
    Cell,
> {
    match (r, badge) {
        (Some(rect), Some(b)) => Seq::new(
            s.len(),
            |i: int| stamped(s, cols, rect, if top { rect.y as int } else { rect.y + rect.h - 1 }, b, accent, i),
        ),
        _ => s,
    }
}

/// A badge stamped on a panel's frame row stays inside the panel: every
/// cell outside a panel that fits the screen width is left as it was.
pub proof fn lemma_badged_stays_inside(
    s: Seq<Cell>,
    cols: u16,
    rect: Rect,
    top: bool,
    badge: Option<Seq<char>>,
    accent: Color,
    i: int,
)
    requires
        rect.x + rect.w <= cols,
        0 <= i < s.len(),
        !in_box(cols as int, rect.x as int, rect.y as int, rect.w as int, rect.h as int, i),
    ensures
        badged(s, cols, Some(rect), top, badge, accent)[i] == s[i],
{
    if let Some(b) = badge {
        let y: int = if top { rect.y as int } else { rect.y + rect.h - 1 };
        let n = b.len() as int;
        let start = y * cols + rect.x + (rect.w - n) / 2;
        if n > 0 && rect.w > n + 2 && rect.h > 0 && start <= i < start + n {
            let c = rect.x + (rect.w - n) / 2 + (i - start);
            lemma_index_coords(cols as int, i, c, y);
        }
    }
}

/// Each status is painted in its own palette entry, full or muted.
pub proof fn each_status_has_its_own_tint(pal: Palette)
    ensures
        pal.status_spec(PaneStatus::Running) == pal.running,
        pal.status_spec(PaneStatus::Idle) == pal.idle,
        pal.status_spec(PaneStatus::Done) == pal.done,
        pal.status_spec(PaneStatus::Failed) == pal.failed,
        pal.status_muted_spec(PaneStatus::Running) == pal.running_muted,
        pal.status_muted_spec(PaneStatus::Idle) == pal.idle_muted,
        pal.status_muted_spec(PaneStatus::Done) == pal.done_muted,
        pal.status_muted_spec(PaneStatus::Failed) == pal.failed_muted,
{
}

/// A toast sits on the screen: at the bottom-left cell of the pane it is
/// about (pulled back onto the screen when that cell is off it), and at
/// the screen's bottom-left when it is about no pane.
pub proof fn a_toast_sits_at_its_panes_bottom_left(cols: u16, rows: u16, anchor: Option<Rect>)
    requires
        cols >= 1,
        rows >= 1,
    ensures
        0 <= toast_origin(cols, rows, anchor).0 < cols,
        0 <= toast_origin(cols, rows, anchor).1 < rows,
        anchor is None ==> toast_origin(cols, rows, anchor) == (0int, rows - 1),
        anchor matches Some(r) ==> (r.w > 0 && r.h > 0 && r.x < cols && r.y + r.h <= rows ==> toast_origin(
            cols,
            rows,
            anchor,
        ) == (r.x as int, r.y + r.h - 1)),
{
}

/// The force-quit title names the cost, with the count agreeing with its
/// noun: `1 pane`, but `0 panes` and `4 panes`.
pub proof fn the_quit_title_counts_panes(n: nat)
    ensures
        n == 1 ==> quit_title(n) == " force quit gwae? 1 pane will be killed "@,
        n != 1 ==> quit_title(n) == " force quit gwae? "@ + decimal(n) + " panes will be killed "@,
{
    reveal_strlit(" force quit gwae? ");
    reveal_strlit(" pane");
    reveal_strlit(" will be killed ");
    reveal_strlit(" force quit gwae? 1 pane will be killed ");
    reveal_strlit(" panes will be killed ");
    if n == 1 {
        assert(decimal(1) == seq!['1']);
        assert(quit_title(n) =~= " force quit gwae? 1 pane will be killed "@);
    } else {
        assert(quit_title(n) =~= " force quit gwae? "@ + decimal(n) + " panes will be killed "@);
    }
}

/// The scrim only ever darkens: every component of a dimmed color is at
/// most the original (9/16 of it, rounded down), and a color without
/// components is kept.
pub proof fn the_scrim_only_darkens(c: Color)
    ensures
        match (c, dim_color(c)) {
            (Color::Rgb(r, g, b), Color::Rgb(r2, g2, b2)) => r2 <= r && g2 <= g && b2 <= b && 16 * r2 <= 9 * r
                && 9 * r < 16 * (r2 + 1) && 16 * g2 <= 9 * g && 16 * b2 <= 9 * b,
            (Color::Rgb(..), _) => false,
            (other, d) => d == other,
        },
{
}

} // verus!
