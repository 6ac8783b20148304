//! Geometry of the ⌥-hold dashboard: how wide a map it asks for, where the
//! panel, its strip rows, rulers and footer land, and which pane a click on
//! it hits. The plan is computed once and shared by painting and by
//! click-to-focus so the two never drift apart.

use vstd::prelude::*;
use crate::grid::{count_status, lemma_count_status_bound, tally_segment, tally_spec, tally_view, widest_strip, Layout, layout_widest_strip, status_tally, PaneInfo};
use crate::text::chars_of;
use crate::status::PaneStatus;
use crate::text::{decimal, push_decimal, push_str, string_of};
use crate::view::Rect;
use crate::cell::{Cell, Color};
use crate::chrome::{spatial_tile_spec, tile_text};
use crate::hud::tile_addr;
use crate::panels::{badge_text, badged, lemma_badged_stays_inside, stamp_dev_badge, stamp_keep_awake_badge, Palette};
use crate::screen::{apply_spec, apply_writes, col_of, draw_ring, fill_box, in_box, ring_char, row_of, styled, styled_cell, CellWrite};
use crate::status::{status_glyph, status_glyph_for};

verus! {

/// The dashboard settings: whether it is shown at all, the widest map it
/// may ask for, the most strips it lists, and whether the footer tally is
/// shown.
#[derive(Debug, Clone, Copy, PartialEq, Eq, Structural)]
pub struct MinimapConfig {
    pub show: bool,
    pub max_width: u16,
    pub max_rows: u16,
    pub show_counts: bool,
}

/// One tile of the map: its cell span on map row `y`, the column and stack
/// position it stands for, its pane, status, and whether it is in the
/// focused column and the focused strip.
#[derive(Debug, Clone, Copy, PartialEq, Eq, Structural)]
pub struct MapCell {
    pub x: u16,
    pub y: u16,
    pub w: u16,
    pub column: usize,
    pub pane_idx: usize,
    pub pane: u64,
    pub status: PaneStatus,
    pub focus_col: bool,
    pub focus_row: bool,
}

/// A scaled map of the grid: its size in cells (one row per strip) and
/// its tiles.
#[derive(Debug, Clone)]
pub struct MiniMap {
    pub width: u16,
    pub height: u16,
    pub cells: Vec<MapCell>,
}

/// Cells the dashboard would like per column.
pub const WIDTH_PER_TILE: u16 = 5;

/// The widest strip label among `1..=n`.
pub open spec fn max_label_len(n: nat) -> nat
    decreases n,
{
    if n == 0 {
        0
    } else {
        let rest = max_label_len((n - 1) as nat);
        let here = decimal(n).len();
        if here > rest { here } else { rest }
    }
}

/// The gutter width for `n` strips: the widest label, at most 10.
pub open spec fn gutter_width(n: nat) -> nat {
    let m = max_label_len(n);
    if m < 10 { m } else { 10 }
}

/// The gutter labels for `n` strips: `1` to `n`.
pub open spec fn gutter_labels(n: nat) -> Seq<Seq<char>> {
    Seq::new(n, |i: int| decimal((i + 1) as nat))
}

/// The labels as plain values.
pub open spec fn labels_view(v: Seq<String>) -> Seq<Seq<char>> {
    v.map_values(|s: String| s@)
}

/// The strip labels `1..=n` and the gutter width they need.
pub fn gutter(n: usize) -> (r: (Vec<String>, u16))
    ensures
        labels_view(r.0@) == gutter_labels(n as nat),
        r.1 == gutter_width(n as nat),
{
    let mut labels: Vec<String> = Vec::new();
    let mut m: usize = 0;
    let mut i: usize = 0;
    while i < n
        invariant
            i <= n,
            labels_view(labels@) == gutter_labels(i as nat),
            m == max_label_len(i as nat),
        decreases n - i,
    {
        let mut v: Vec<char> = Vec::new();
        push_decimal(&mut v, (i + 1) as u64);
        let len = v.len();
        if len > m {
            m = len;
        }
        let s = string_of(&v);
        let ghost before = labels@;
        labels.push(s);
        proof {
            assert(labels_view(labels@) =~= gutter_labels((i + 1) as nat)) by {
                assert(labels_view(before.push(s)) =~= labels_view(before).push(s@));
            }
        }
        i = i + 1;
    }
    let w: u16 = if m < 10 { m as u16 } else { 10 };
    (labels, w)
}

/// `a - b`, or 0 when `b` exceeds `a`.
pub open spec fn sat(a: int, b: int) -> int {
    if a > b { a - b } else { 0 }
}

/// The smaller of two integers.
pub open spec fn min_i(a: int, b: int) -> int {
    if a < b { a } else { b }
}

/// The larger of two integers.
pub open spec fn max_i(a: int, b: int) -> int {
    if a > b { a } else { b }
}

/// The frame, gutter and separating space around the map.
pub open spec fn chrome_width(gw: nat) -> int {
    2 + gw + (if gw > 0 { 1int } else { 0int })
}

/// Whether the dashboard can be shown at all: it is enabled, the screen is
/// at least 20 x 8, and there is more than a single pane to triage.
pub open spec fn dashboard_possible(cols: u16, rows: u16, l: Layout, mm: MinimapConfig) -> bool {
    mm.show && cols >= 20 && rows >= 8 && !(l.panes@.len() <= 1 && l.rows@.len() <= 1)
}

/// The map width the dashboard asks for: tight tiles for the widest strip,
/// capped by the configured maximum, the room beside the panel chrome, and
/// two thirds of the screen; at least one cell.
pub open spec fn map_width_spec(cols: u16, l: Layout, mm: MinimapConfig) -> int {
    let gw = gutter_width(l.rows@.len());
    let want = min_i(WIDTH_PER_TILE * ((widest_strip(l.rows@) as u16) as int), mm.max_width as int);
    let room = max_i(sat(cols as int, chrome_width(gw) + 4), 1);
    max_i(min_i(min_i(want, room), (cols * 2) / 3), 1)
}

/// The inputs on which the map width is computed without an overflow.
pub open spec fn map_width_ok(cols: u16, rows: u16, l: Layout, mm: MinimapConfig) -> bool {
    dashboard_possible(cols, rows, l, mm) ==> (WIDTH_PER_TILE * ((widest_strip(l.rows@) as u16) as int) <= 0xffff
        && cols * 2 <= 0xffff)
}

/// The width to build the dashboard's map at, or `None` when the
/// dashboard cannot be shown.
pub fn hud_map_width(cols: u16, rows: u16, l: &Layout, mm: &MinimapConfig) -> (r: Option<u16>)
    requires
        map_width_ok(cols, rows, *l, *mm),
    ensures
        r == (if dashboard_possible(cols, rows, *l, *mm) {
            Some(map_width_spec(cols, *l, *mm) as u16)
        } else {
            None::<u16>
        }),
{
    if !mm.show || cols < 20 || rows < 8 {
        return None;
    }
    if l.panes.len() <= 1 && l.rows.len() <= 1 {
        return None;
    }
    let (_labels, gw) = gutter(l.rows.len());
    let chrome_w: u16 = 2 + gw + if gw > 0 { 1 } else { 0 };
    let widest = layout_widest_strip(l);
    let want: u16 = if WIDTH_PER_TILE * (widest as u16) < mm.max_width {
        WIDTH_PER_TILE * (widest as u16)
    } else {
        mm.max_width
    };
    let room0: u16 = if cols > chrome_w + 4 { cols - (chrome_w + 4) } else { 0 };
    let room: u16 = if room0 > 1 { room0 } else { 1 };
    let third: u16 = cols * 2 / 3;
    let a: u16 = if want < room { want } else { room };
    let b: u16 = if a < third { a } else { third };
    Some(if b > 1 { b } else { 1 })
}

/// The ruler of strip `i`: the visible column range of a strip that
/// overflows the screen (none past the list).
pub open spec fn ruler_at(rulers: Seq<Option<(usize, usize)>>, i: int) -> Option<(usize, usize)> {
    if 0 <= i < rulers.len() { rulers[i] } else { None }
}

/// How many of the first `i` strips have a ruler.
pub open spec fn rulers_before(rulers: Seq<Option<(usize, usize)>>, i: int) -> int
    decreases i,
{
    if i <= 0 {
        0
    } else {
        rulers_before(rulers, i - 1) + (if ruler_at(rulers, i - 1) is Some { 1int } else { 0int })
    }
}

/// The summed width of the tally's segments.
pub open spec fn tally_width(t: Seq<(Seq<char>, Option<PaneStatus>)>) -> int
    decreases t.len(),
{
    if t.len() == 0 {
        0
    } else {
        tally_width(t.drop_last()) + t.last().0.len()
    }
}

/// The panel geometry, once the map is built: `(shown strips, body rows,
/// inner width, panel width, panel height, panel x, panel y)`, or `None`
/// when no strip fits or the panel would not fit the screen.
pub open spec fn panel_spec(
    cols: u16,
    rows: u16,
    l: Layout,
    mm: MinimapConfig,
    map_w: u16,
    map_h: u16,
    rulers: Seq<Option<(usize, usize)>>,
) -> Option<(int, int, int, int, int, int, int)> {
    let gw = gutter_width(l.rows@.len()) as int;
    let shown = min_i(min_i(mm.max_rows as int, map_h as int), sat(rows as int, 6));
    if shown == 0 || map_w == 0 {
        None
    } else {
        let hidden = sat(map_h as int, shown);
        let body = shown + rulers_before(rulers, shown) + (if hidden > 0 { 1int } else { 0int });
        let footer: int = if mm.show_counts { 1 } else { 0 };
        let map_row_w = gw + (if gw > 0 { 1int } else { 0int }) + map_w;
        let inner_w = max_i(map_row_w, if mm.show_counts { tally_width(tally_spec(l.panes@)) } else { 0 });
        let bw = inner_w + 2;
        let bh = body + footer + 2;
        if (bw as u16) >= cols || (bh as u16) >= rows {
            None
        } else {
            Some((shown, body, inner_w, bw, bh, sat(cols as int, bw) / 2, sat(rows as int, bh) / 2))
        }
    }
}

/// Where every piece of the dashboard lands.
pub struct HudPlan {
    /// The panel's screen rect, frame included.
    pub rect: Rect,
    /// Screen y of each shown strip's tile row.
    pub row_y: Vec<u16>,
    /// Screen y of each shown strip's viewport ruler, when it overflows.
    pub ruler_y: Vec<Option<u16>>,
    /// The visible column range of each shown strip, when it overflows.
    pub rulers: Vec<Option<(usize, usize)>>,
    /// Screen x of map cell 0 (past the frame and the strip gutter).
    pub map_ox: u16,
    /// Gutter labels, one per strip, and the gutter's width in cells.
    pub gutter: Vec<String>,
    pub gutter_w: u16,
    /// The tiles to paint.
    pub map: MiniMap,
    /// Strips cut off the bottom.
    pub hidden: usize,
    /// Inner width, and the first inner column.
    pub inner_w: usize,
    pub inner_ox: usize,
    /// Screen y of the tally row.
    pub tally_y: Option<u16>,
}

/// The inputs on which the plan is computed without an overflow: the
/// gutter and the map fit a screen row.
pub open spec fn plan_ok(l: Layout, map: MiniMap) -> bool {
    gutter_width(l.rows@.len()) + 1 + map.width <= 0xffff
}

/// The summed width of a tally's segments.
fn tally_width_of(t: &Vec<(String, Option<PaneStatus>)>) -> (w: usize)
    requires
        tally_view(t@).len() <= 5,
        forall|i: int| 0 <= i < t@.len() ==> #[trigger] t@[i].0@.len() <= 40,
    ensures
        w == tally_width(tally_view(t@)),
        w <= 200,
{
    let mut w: usize = 0;
    let mut i: usize = 0;
    while i < t.len()
        invariant
            i <= t@.len(),
            t@.len() <= 5,
            forall|j: int| 0 <= j < t@.len() ==> #[trigger] t@[j].0@.len() <= 40,
            w == tally_width(tally_view(t@.take(i as int))),
            w <= 40 * i,
        decreases t@.len() - i,
    {
        let n = chars_of(t[i].0.as_str()).len();
        proof {
            assert(tally_view(t@.take(i as int + 1)).drop_last() =~= tally_view(t@.take(i as int)));
            assert(t[i as int].0@.len() <= 40);
        }
        w = w + n;
        i = i + 1;
    }
    proof {
        assert(t@.take(i as int) =~= t@);
    }
    w
}

/// The tally has at most five segments of at most 22 characters.
proof fn lemma_tally_shape(ps: Seq<PaneInfo>)
    requires
        ps.len() <= 0xffff_ffff_ffff_ffff,
    ensures
        tally_spec(ps).len() <= 5,
        forall|i: int| 0 <= i < tally_spec(ps).len() ==> #[trigger] tally_spec(ps)[i].0.len() <= 22,
{
    crate::text::lemma_decimal_len_u64(ps.len());
    lemma_count_status_bound(ps, PaneStatus::Running);
    lemma_count_status_bound(ps, PaneStatus::Idle);
    lemma_count_status_bound(ps, PaneStatus::Done);
    lemma_count_status_bound(ps, PaneStatus::Failed);
    crate::text::lemma_decimal_len_u64(count_status(ps, PaneStatus::Running));
    crate::text::lemma_decimal_len_u64(count_status(ps, PaneStatus::Idle));
    crate::text::lemma_decimal_len_u64(count_status(ps, PaneStatus::Done));
    crate::text::lemma_decimal_len_u64(count_status(ps, PaneStatus::Failed));
    let t = tally_spec(ps);
    let a = tally_segment(ps, PaneStatus::Running);
    let b = tally_segment(ps, PaneStatus::Idle);
    let c = tally_segment(ps, PaneStatus::Done);
    let d = tally_segment(ps, PaneStatus::Failed);
    let h = seq![(decimal(ps.len()), None::<PaneStatus>)];
    assert(t == h + a + b + c + d);
    assert forall|i: int| 0 <= i < t.len() implies #[trigger] t[i].0.len() <= 22 by {
        let ab = h + a;
        let abc = ab + b;
        let abcd = abc + c;
        if i < abcd.len() {
            if i < abc.len() {
                if i < ab.len() {
                    if i < h.len() {
                    } else {
                        assert(t[i] == a[i - h.len()]);
                    }
                } else {
                    assert(t[i] == b[i - ab.len()]);
                }
            } else {
                assert(t[i] == c[i - abc.len()]);
            }
        } else {
            assert(t[i] == d[i - abcd.len()]);
        }
    }
}

/// The rulers of the first `shown` strips, and how many of them there are.
fn shown_rulers_of(rulers: &Vec<Option<(usize, usize)>>, shown: u16) -> (r: (Vec<Option<(usize, usize)>>, usize))
    ensures
        r.0@ == Seq::new(shown as nat, |j: int| ruler_at(rulers@, j)),
        r.1 == rulers_before(rulers@, shown as int),
        r.1 <= shown,
{
    let mut shown_rulers: Vec<Option<(usize, usize)>> = Vec::new();
    let mut ruler_rows: usize = 0;
    let mut i: u16 = 0;
    while i < shown
        invariant
            i <= shown,
            shown_rulers@ == Seq::new(i as nat, |j: int| ruler_at(rulers@, j)),
            ruler_rows == rulers_before(rulers@, i as int),
            ruler_rows <= i,
        decreases shown - i,
    {
        let r: Option<(usize, usize)> = if (i as usize) < rulers.len() { rulers[i as usize] } else { None };
        shown_rulers.push(r);
        if r.is_some() {
            ruler_rows = ruler_rows + 1;
        }
        i = i + 1;
        proof {
            assert(shown_rulers@ =~= Seq::new(i as nat, |j: int| ruler_at(rulers@, j)));
        }
    }
    (shown_rulers, ruler_rows)
}

/// The screen rows of the shown strips' tiles and rulers, top to bottom
/// from the first inner row of a panel at `oy`: each strip's tile row,
/// then its ruler row when it has one.
fn row_positions(shown_rulers: &Vec<Option<(usize, usize)>>, rulers: &Vec<Option<(usize, usize)>>, oy: usize) -> (r: (
    Vec<u16>,
    Vec<Option<u16>>,
))
    requires
        oy < 0x10000,
        shown_rulers@.len() <= 0xffff,
        shown_rulers@ == Seq::new(shown_rulers@.len(), |j: int| ruler_at(rulers@, j)),
    ensures
        r.0@.len() == shown_rulers@.len(),
        r.1@.len() == shown_rulers@.len(),
        forall|j: int| 0 <= j < shown_rulers@.len() ==> #[trigger] r.0@[j] == (oy + 1 + j + rulers_before(rulers@, j)) as u16,
        forall|j: int| 0 <= j < shown_rulers@.len() ==> #[trigger] r.1@[j] == (if ruler_at(rulers@, j) is Some {
            Some((oy + 2 + j + rulers_before(rulers@, j)) as u16)
        } else {
            None::<u16>
        }),
{
    let mut row_y: Vec<u16> = Vec::new();
    let mut ruler_y: Vec<Option<u16>> = Vec::new();
    let mut y: usize = oy + 1;
    let mut k: usize = 0;
    while k < shown_rulers.len()
        invariant
            k <= shown_rulers@.len(),
            oy < 0x10000,
            shown_rulers@.len() <= 0xffff,
            shown_rulers@ == Seq::new(shown_rulers@.len(), |j: int| ruler_at(rulers@, j)),
            y == oy + 1 + k + rulers_before(rulers@, k as int),
            0 <= rulers_before(rulers@, k as int) <= k,
            row_y@.len() == k,
            ruler_y@.len() == k,
            forall|j: int| 0 <= j < k ==> #[trigger] row_y@[j] == (oy + 1 + j + rulers_before(rulers@, j)) as u16,
            forall|j: int| 0 <= j < k ==> #[trigger] ruler_y@[j] == (if ruler_at(rulers@, j) is Some {
                Some((oy + 2 + j + rulers_before(rulers@, j)) as u16)
            } else {
                None::<u16>
            }),
        decreases shown_rulers@.len() - k,
    {
        row_y.push(y as u16);
        y = y + 1;
        assert(shown_rulers@[k as int] == ruler_at(rulers@, k as int));
        if shown_rulers[k].is_some() {
            ruler_y.push(Some(y as u16));
            y = y + 1;
        } else {
            ruler_y.push(None);
        }
        k = k + 1;
    }
    (row_y, ruler_y)
}

/// Plan `p` is the dashboard laid out for a `cols` x `rows` screen around
/// map `map`: the panel geometry of `panel_spec`, every strip row and
/// ruler row where it goes, the map past the frame and the gutter, and the
/// tally row under the body.
pub open spec fn planned(
    p: HudPlan,
    cols: u16,
    rows: u16,
    l: Layout,
    mm: MinimapConfig,
    map: MiniMap,
    rulers: Seq<Option<(usize, usize)>>,
) -> bool {
    let g = panel_spec(cols, rows, l, mm, map.width, map.height, rulers)->0;
    let (shown, body, inner_w, bw, bh, ox, oy) = g;
    let gw = gutter_width(l.rows@.len()) as int;
    &&& panel_spec(cols, rows, l, mm, map.width, map.height, rulers) is Some
    &&& p.rect == Rect { x: ox as u16, y: oy as u16, w: bw as u16, h: bh as u16 }
    &&& p.row_y@.len() == shown
    &&& p.ruler_y@.len() == shown
    &&& p.rulers@ == Seq::new(shown as nat, |i: int| ruler_at(rulers, i))
    &&& forall|i: int| 0 <= i < shown ==> #[trigger] p.row_y@[i] == (oy + 1 + i + rulers_before(rulers, i)) as u16
    &&& forall|i: int| 0 <= i < shown ==> #[trigger] p.ruler_y@[i] == (if ruler_at(rulers, i) is Some {
        Some((oy + 2 + i + rulers_before(rulers, i)) as u16)
    } else {
        None::<u16>
    })
    &&& p.map_ox == (ox + 1 + gw + (if gw > 0 { 1int } else { 0int })) as u16
    &&& labels_view(p.gutter@) == gutter_labels(l.rows@.len())
    &&& p.gutter_w == gw
    &&& p.map.width == map.width && p.map.height == map.height && p.map.cells@ == map.cells@
    &&& p.hidden == map.height - shown
    &&& p.inner_w == inner_w
    &&& p.inner_ox == ox + 1
    &&& p.tally_y == (if mm.show_counts { Some((oy + 1 + body) as u16) } else { None::<u16> })
}

/// Lay out the dashboard around a map already built at the width
/// [`hud_map_width`] asked for, given the ruler of every strip (the visible
/// column range of a strip that overflows the screen). `None` when the
/// dashboard cannot be shown, when no strip fits, or when the panel would
/// not fit the screen.
#[verifier::rlimit(40)]
pub fn plan_center_minimap(
    cols: u16,
    rows: u16,
    l: &Layout,
    mm: &MinimapConfig,
    map: MiniMap,
    rulers: &Vec<Option<(usize, usize)>>,
) -> (r: Option<HudPlan>)
    requires
        plan_ok(*l, map),
    ensures
        r is Some <==> (dashboard_possible(cols, rows, *l, *mm) && panel_spec(
            cols,
            rows,
            *l,
            *mm,
            map.width,
            map.height,
            rulers@,
        ) is Some),
        r matches Some(p) ==> planned(p, cols, rows, *l, *mm, map, rulers@),
{
    if !mm.show || cols < 20 || rows < 8 {
        return None;
    }
    if l.panes.len() <= 1 && l.rows.len() <= 1 {
        return None;
    }
    let (gutter_labels_v, gw) = gutter(l.rows.len());
    let rows6: u16 = if rows > 6 { rows - 6 } else { 0 };
    let m1: u16 = if mm.max_rows < map.height { mm.max_rows } else { map.height };
    let shown: u16 = if m1 < rows6 { m1 } else { rows6 };
    if shown == 0 || map.width == 0 {
        return None;
    }
    let hidden: usize = (map.height - shown) as usize;
    let (shown_rulers, ruler_rows) = shown_rulers_of(rulers, shown);
    let body: usize = shown as usize + ruler_rows + if hidden > 0 { 1 } else { 0 };
    let footer: usize = if mm.show_counts { 1 } else { 0 };
    let map_row_w: usize = (gw + if gw > 0 { 1 } else { 0 } + map.width) as usize;
    let tally = status_tally(l);
    proof {
        lemma_tally_shape(l.panes@);
        assert forall|k: int| 0 <= k < tally@.len() implies #[trigger] tally@[k].0@.len() <= 40 by {
            assert(tally_view(tally@)[k].0 == tally@[k].0@);
        }
    }
    let tally_w = tally_width_of(&tally);
    let inner_w: usize = if mm.show_counts && tally_w > map_row_w { tally_w } else { map_row_w };
    let bw: usize = inner_w + 2;
    let bh: usize = body + footer + 2;
    if bw as u16 >= cols || bh as u16 >= rows {
        return None;
    }
    let ox: usize = (if (cols as usize) > bw { cols as usize - bw } else { 0 }) / 2;
    let oy: usize = (if (rows as usize) > bh { rows as usize - bh } else { 0 }) / 2;
    let inner_ox: usize = ox + 1;
    let (row_y, ruler_y) = row_positions(&shown_rulers, rulers, oy);
    let tally_y: Option<u16> = if mm.show_counts { Some((oy + 1 + body) as u16) } else { None };
    let map_ox: u16 = (inner_ox + gw as usize + if gw > 0 { 1 } else { 0 }) as u16;
    Some(HudPlan {
        rect: Rect { x: ox as u16, y: oy as u16, w: bw as u16, h: bh as u16 },
        row_y,
        ruler_y,
        rulers: shown_rulers,
        map_ox,
        gutter: gutter_labels_v,
        gutter_w: gw,
        map,
        hidden,
        inner_w,
        inner_ox,
        tally_y,
    })
}

/// The first strip, from `from` on, whose tile row is drawn at `y`.
pub open spec fn row_at_from(row_y: Seq<u16>, y: u16, from: int) -> Option<int>
    decreases row_y.len() - from,
{
    if from < 0 || from >= row_y.len() {
        None
    } else if row_y[from] == y {
        Some(from)
    } else {
        row_at_from(row_y, y, from + 1)
    }
}

/// The pane of the first tile, from `from` on, on map row `ry` spanning
/// screen column `x`.
pub open spec fn tile_at_from(cells: Seq<MapCell>, map_ox: u16, ry: int, x: u16, from: int) -> Option<u64>
    decreases cells.len() - from,
{
    if from < 0 || from >= cells.len() {
        None
    } else if tile_hit(map_ox, cells[from], ry, x) {
        Some(cells[from].pane)
    } else {
        tile_at_from(cells, map_ox, ry, x, from + 1)
    }
}

/// Which pane a click at `(x, y)` lands on: the first tile, in map order,
/// on the first strip row drawn at `y`, whose span covers `x`.
pub open spec fn hud_hit(p: HudPlan, x: u16, y: u16) -> Option<u64> {
    match row_at_from(p.row_y@, y, 0) {
        Some(ry) => tile_at_from(p.map.cells@, p.map_ox, ry, x, 0),
        None => None,
    }
}

/// Which pane a click at `(x, y)` lands on, given a drawn dashboard:
/// `None` when the point is not on a tile.
pub fn hud_pane_at(p: &HudPlan, x: u16, y: u16) -> (r: Option<u64>)
    ensures
        r == hud_hit(*p, x, y),
{
    let mut i: usize = 0;
    while i < p.row_y.len() && p.row_y[i] != y
        invariant
            i <= p.row_y@.len(),
            row_at_from(p.row_y@, y, 0) == row_at_from(p.row_y@, y, i as int),
        decreases p.row_y@.len() - i,
    {
        i = i + 1;
    }
    if i >= p.row_y.len() {
        return None;
    }
    let ry = i;
    let mut k: usize = 0;
    while k < p.map.cells.len()
        invariant
            k <= p.map.cells@.len(),
            row_at_from(p.row_y@, y, 0) == Some(ry as int),
            tile_at_from(p.map.cells@, p.map_ox, ry as int, x, 0) == tile_at_from(p.map.cells@, p.map_ox, ry as int, x, k as int),
        decreases p.map.cells@.len() - k,
    {
        let c = p.map.cells[k];
        let lo: u32 = p.map_ox as u32 + c.x as u32;
        if c.y as usize == ry && lo <= x as u32 && (x as u32) < lo + c.w as u32 {
            return Some(c.pane);
        }
        k = k + 1;
    }
    None
}

/// Whether tile `c` is on map row `ry` and spans screen column `x`.
pub open spec fn tile_hit(map_ox: u16, c: MapCell, ry: int, x: u16) -> bool {
    c.y == ry && map_ox + c.x <= x && x < map_ox + c.x + c.w
}

/// With the strip rows on distinct screen rows, the row drawn at
/// `row_y[r]` is strip `r`.
proof fn lemma_row_at(row_y: Seq<u16>, r: int, from: int)
    requires
        0 <= from <= r < row_y.len(),
        forall|i: int, j: int| 0 <= i < j < row_y.len() ==> row_y[i] != row_y[j],
    ensures
        row_at_from(row_y, row_y[r], from) == Some(r),
    decreases r - from,
{
    if from < r {
        assert(row_y[from] != row_y[r]);
        lemma_row_at(row_y, r, from + 1);
    }
}

/// With no two tiles of a map row overlapping, the first tile covering a
/// cell of tile `k` is tile `k`.
proof fn lemma_tile_at(cells: Seq<MapCell>, ox: u16, k: int, x: u16, from: int)
    requires
        0 <= from <= k < cells.len(),
        forall|a: int, b: int|
            0 <= a < b < cells.len() && #[trigger] cells[a].y == #[trigger] cells[b].y ==> cells[a].x + cells[a].w
                <= cells[b].x || cells[b].x + cells[b].w <= cells[a].x,
        tile_hit(ox, cells[k], cells[k].y as int, x),
    ensures
        tile_at_from(cells, ox, cells[k].y as int, x, from) == Some(cells[k].pane),
    decreases k - from,
{
    if from < k {
        if tile_hit(ox, cells[from], cells[k].y as int, x) {
            assert(cells[from].y == cells[k].y);
            assert(false);
        }
        lemma_tile_at(cells, ox, k, x, from + 1);
    }
}

/// A click on a cell of a drawn tile lands on that tile's pane, as long as
/// the strips are drawn on distinct screen rows and no two tiles of a map
/// row overlap.
pub proof fn a_click_on_a_tile_finds_its_pane(p: HudPlan, k: int, x: u16)
    requires
        0 <= k < p.map.cells@.len(),
        p.map.cells@[k].y < p.row_y@.len(),
        forall|i: int, j: int| 0 <= i < j < p.row_y@.len() ==> p.row_y@[i] != p.row_y@[j],
        forall|a: int, b: int|
            0 <= a < b < p.map.cells@.len() && #[trigger] p.map.cells@[a].y == #[trigger] p.map.cells@[b].y
                ==> p.map.cells@[a].x + p.map.cells@[a].w <= p.map.cells@[b].x || p.map.cells@[b].x
                + p.map.cells@[b].w <= p.map.cells@[a].x,
        p.map_ox + p.map.cells@[k].x <= x < p.map_ox + p.map.cells@[k].x + p.map.cells@[k].w,
    ensures
        hud_hit(p, x, p.row_y@[p.map.cells@[k].y as int]) == Some(p.map.cells@[k].pane),
{
    let c = p.map.cells@[k];
    lemma_row_at(p.row_y@, c.y as int, 0);
    lemma_tile_at(p.map.cells@, p.map_ox, k, x, 0);
}

/// The ink for text on a tile's colored fill, by what the fill is: the
/// focus accent or a status tint. It is decided by the fill's luminance,
/// which is computed outside the verified core.
#[derive(Debug, Clone, Copy, PartialEq, Eq, Structural)]
pub struct TileInks {
    pub accent: Color,
    pub running: Color,
    pub idle: Color,
    pub done: Color,
    pub failed: Color,
}

/// The flattening of a sequence of write lists.
pub open spec fn flat(parts: Seq<Seq<CellWrite>>) -> Seq<CellWrite>
    decreases parts.len(),
{
    if parts.len() == 0 {
        Seq::empty()
    } else {
        flat(parts.drop_last()) + parts.last()
    }
}

/// The gutter label of strip `i`, cut to the gutter width.
pub open spec fn gutter_label(p: HudPlan, i: int) -> Seq<char> {
    let label = if 0 <= i < p.gutter@.len() { p.gutter@[i]@ } else { Seq::empty() };
    label.take(if label.len() < p.gutter_w { label.len() as int } else { p.gutter_w as int })
}

/// Whether strip `i` is the focused one.
pub open spec fn strip_focused(l: Layout, i: int) -> bool {
    0 <= i < l.rows@.len() && l.rows@[i].id == l.focus.row
}

/// The writes of strip `i`'s gutter label: the focused strip in the accent
/// and bold, the others muted.
pub open spec fn gutter_writes(l: Layout, p: HudPlan, pal: Palette, i: int) -> Seq<CellWrite> {
    let label = gutter_label(p, i);
    let focused = strip_focused(l, i);
    if p.gutter_w > 0 {
        Seq::new(
            label.len(),
            |j: int| CellWrite {
                x: (p.inner_ox + j) as u16,
                y: p.row_y@[i],
                cell: styled(label[j], if focused { pal.accent } else { pal.muted }, pal.surface, focused),
            },
        )
    } else {
        Seq::empty()
    }
}

/// The fill of a tile: the accent for the focused column, its status tint
/// otherwise.
pub open spec fn tile_fill(t: MapCell, pal: Palette) -> Color {
    if t.focus_col { pal.accent } else { pal.status_spec(t.status) }
}

/// The ink the tile's fill calls for.
pub open spec fn tile_ink(t: MapCell, inks: TileInks) -> Color {
    if t.focus_col {
        inks.accent
    } else {
        match t.status {
            PaneStatus::Running => inks.running,
            PaneStatus::Idle => inks.idle,
            PaneStatus::Done => inks.done,
            PaneStatus::Failed => inks.failed,
        }
    }
}

/// The address a tile shows: the 1-based column on the first pane of a
/// column, a dot on the panes stacked under it.
pub open spec fn tile_address(t: MapCell) -> Seq<char> {
    if t.pane_idx == 0 { decimal((t.column + 1) as nat) } else { seq!['·'] }
}

/// The writes of tile `t`: its text on its fill, on the row of its strip.
/// An RGB fill gets the ink chosen for it; a palette-index or default fill
/// (whose brightness the terminal decides) falls back to the terminal's
/// own colors, with the status glyph keeping its tint. The glyph and
/// address are bold, and so is the whole focused tile.
pub open spec fn tile_writes(p: HudPlan, t: MapCell, pal: Palette, inks: TileInks) -> Seq<CellWrite> {
    if t.y >= p.row_y@.len() {
        Seq::empty()
    } else {
        let fill = tile_fill(t, pal);
        let neutral = !(fill is Rgb);
        let fg = if neutral { Color::Default } else { tile_ink(t, inks) };
        let bg = if neutral { Color::Default } else { fill };
        let glyph = status_glyph(t.status);
        let addr = tile_address(t);
        let text = spatial_tile_spec(t.w as nat, addr, glyph);
        Seq::new(
            text.len(),
            |dx: int| CellWrite {
                x: (p.map_ox + t.x + dx) as u16,
                y: p.row_y@[t.y as int],
                cell: styled(
                    text[dx],
                    if neutral && text[dx] == glyph { pal.status_spec(t.status) } else { fg },
                    bg,
                    dx <= addr.len() || t.focus_col,
                ),
            },
        )
    }
}

/// Tile `c` is in the visible span `first..=last` of strip `i`.
pub open spec fn in_span(c: MapCell, i: int, first: usize, last: usize) -> bool {
    c.y == i && first <= c.column && c.column <= last
}

/// The leftmost map cell of the tiles in a strip's visible span.
pub open spec fn span_start(cells: Seq<MapCell>, i: int, first: usize, last: usize) -> Option<int>
    decreases cells.len(),
{
    if cells.len() == 0 {
        None
    } else {
        let rest = span_start(cells.drop_last(), i, first, last);
        let c = cells.last();
        if in_span(c, i, first, last) {
            Some(
                match rest {
                    Some(r) => if r < c.x { r } else { c.x as int },
                    None => c.x as int,
                },
            )
        } else {
            rest
        }
    }
}

/// The map cell just past the tiles in a strip's visible span.
pub open spec fn span_end(cells: Seq<MapCell>, i: int, first: usize, last: usize) -> Option<int>
    decreases cells.len(),
{
    if cells.len() == 0 {
        None
    } else {
        let rest = span_end(cells.drop_last(), i, first, last);
        let c = cells.last();
        if in_span(c, i, first, last) {
            Some(
                match rest {
                    Some(r) => if r > c.x + c.w { r } else { c.x + c.w },
                    None => c.x + c.w,
                },
            )
        } else {
            rest
        }
    }
}

/// The writes of strip `i`'s viewport ruler: an accent rule under the
/// tiles of the columns that are on screen.
pub open spec fn ruler_writes(p: HudPlan, pal: Palette, i: int) -> Seq<CellWrite> {
    match (p.ruler_y@[i], p.rulers@[i]) {
        (Some(ry), Some((first, last))) => match (
            span_start(p.map.cells@, i, first, last),
            span_end(p.map.cells@, i, first, last),
        ) {
            (Some(s), Some(e)) => Seq::new(
                if e > s { (e - s) as nat } else { 0 },
                |k: int| CellWrite { x: (p.map_ox + s + k) as u16, y: ry, cell: styled('─', pal.accent, pal.surface, false) },
            ),
            _ => Seq::empty(),
        },
        _ => Seq::empty(),
    }
}

/// The note counting the strips cut off the bottom.
pub open spec fn more_note(hidden: nat) -> Seq<char> {
    "⋯ +"@ + decimal(hidden) + " strip"@ + (if hidden == 1 { Seq::empty() } else { seq!['s'] })
}

/// The row of the cut-off note: just above the tally row, or above the
/// panel's bottom edge.
pub open spec fn more_row(p: HudPlan) -> int {
    (match p.tally_y {
        Some(t) => t as int,
        None => p.rect.y + p.rect.h - 1,
    }) - 1
}

/// The number of the cut-off note's characters that fit the panel's
/// inner width.
pub open spec fn more_shown(p: HudPlan) -> nat {
    let t = more_note(p.hidden as nat);
    if t.len() <= p.inner_w { t.len() } else { p.inner_w as nat }
}

/// The writes of the cut-off note, muted, when strips are cut off,
/// clipped to the panel's inner width so it never runs past the frame.
pub open spec fn hidden_writes(p: HudPlan, pal: Palette) -> Seq<CellWrite> {
    if p.hidden > 0 {
        let t = more_note(p.hidden as nat);
        Seq::new(
            more_shown(p),
            |j: int| CellWrite { x: (p.inner_ox + j) as u16, y: more_row(p) as u16, cell: styled(t[j], pal.muted, pal.surface, false) },
        )
    } else {
        Seq::empty()
    }
}

/// The tally with each segment's color: its status tint, body text for
/// the pane count.
pub open spec fn tally_inked(ps: Seq<PaneInfo>, pal: Palette) -> Seq<(Seq<char>, Color)> {
    tally_spec(ps).map_values(
        |e: (Seq<char>, Option<PaneStatus>)|
            (
                e.0,
                match e.1 {
                    Some(st) => pal.status_spec(st),
                    None => pal.text,
                },
            ),
    )
}

/// The characters of inked segments, each with its segment's color.
pub open spec fn inked_chars(t: Seq<(Seq<char>, Color)>) -> Seq<(char, Color)>
    decreases t.len(),
{
    if t.len() == 0 {
        Seq::empty()
    } else {
        inked_chars(t.drop_last()) + Seq::new(t.last().0.len(), |j: int| (t.last().0[j], t.last().1))
    }
}

/// The writes of the footer tally, bold and centered on the tally row.
pub open spec fn footer_writes(l: Layout, p: HudPlan, pal: Palette) -> Seq<CellWrite> {
    match p.tally_y {
        Some(fy) => {
            let cs = inked_chars(tally_inked(l.panes@, pal));
            let tw = tally_width(tally_spec(l.panes@));
            let x0 = p.inner_ox + (if p.inner_w > tw { p.inner_w - tw } else { 0 }) / 2;
            Seq::new(
                cs.len(),
                |j: int| CellWrite { x: (x0 + j) as u16, y: fy, cell: styled(cs[j].0, cs[j].1, pal.surface, true) },
            )
        },
        None => Seq::empty(),
    }
}

/// Every write of the dashboard's contents, in painting order: gutter
/// labels, tiles, rulers, the cut-off note and the footer tally.
pub open spec fn hud_writes(l: Layout, p: HudPlan, pal: Palette, inks: TileInks) -> Seq<CellWrite> {
    flat(Seq::new(p.row_y@.len(), |i: int| gutter_writes(l, p, pal, i))) + flat(
        Seq::new(p.map.cells@.len(), |k: int| tile_writes(p, p.map.cells@[k], pal, inks)),
    ) + flat(Seq::new(p.ruler_y@.len(), |i: int| ruler_writes(p, pal, i))) + hidden_writes(p, pal) + footer_writes(
        l,
        p,
        pal,
    )
}

/// The panel before its contents: its box filled with the surface color
/// and ringed in the accent on the default background.
pub open spec fn framed_panel(o: Seq<Cell>, cols: u16, r: Rect, pal: Palette) -> Seq<Cell> {
    Seq::new(
        o.len(),
        |i: int|
            if in_box(cols as int, r.x as int, r.y as int, r.w as int, r.h as int, i) {
                match ring_char(col_of(cols as int, i) - r.x, row_of(cols as int, i) - r.y, r.w as int, r.h as int) {
                    Some(g) => styled(g, pal.accent, Color::Default, false),
                    None => styled(' ', pal.text, pal.surface, false),
                }
            } else {
                o[i]
            },
    )
}

/// The plans the dashboard can be painted from: a panel of at least two
/// cells each way inside the screen, one ruler per ruler row, tiles whose
/// spans and addresses are representable, and a cut-off note that has a
/// row above it.
pub open spec fn paintable(cols: u16, rows: u16, p: HudPlan) -> bool {
    &&& p.rect.w >= 2 && p.rect.h >= 2
    &&& p.rect.x + p.rect.w <= cols
    &&& p.rect.y + p.rect.h <= rows
    &&& p.rulers@.len() == p.ruler_y@.len()
    &&& p.inner_ox <= 0xffff && p.inner_w <= 0xffff
    &&& forall|k: int| 0 <= k < p.map.cells@.len() ==> #[trigger] p.map.cells@[k].x + p.map.cells@[k].w <= 0xffff
    &&& forall|k: int| 0 <= k < p.map.cells@.len() ==> (#[trigger] p.map.cells@[k].column as int) < usize::MAX
    &&& p.hidden > 0 ==> more_row(p) >= 0
}

proof fn lemma_flat_step(f: spec_fn(int) -> Seq<CellWrite>, k: nat)
    ensures
        flat(Seq::new(k + 1, f)) == flat(Seq::new(k, f)) + f(k as int),
{
    assert(Seq::new(k + 1, f).drop_last() =~= Seq::new(k, f));
}

/// Append the writes of every strip's gutter label.
fn push_gutter_writes(ws: &mut Vec<CellWrite>, l: &Layout, p: &HudPlan, pal: &Palette)
    requires
        p.inner_ox <= 0xffff,
    ensures
        final(ws)@ == old(ws)@ + flat(Seq::new(p.row_y@.len(), |i: int| gutter_writes(*l, *p, *pal, i))),
{
    let ghost f = |i: int| gutter_writes(*l, *p, *pal, i);
    let mut i: usize = 0;
    while i < p.row_y.len()
        invariant
            i <= p.row_y@.len(),
            p.inner_ox <= 0xffff,
            f == (|i: int| gutter_writes(*l, *p, *pal, i)),
            ws@ == old(ws)@ + flat(Seq::new(i as nat, f)),
        decreases p.row_y@.len() - i,
    {
        proof {
            lemma_flat_step(f, i as nat);
        }
        let focused = i < l.rows.len() && l.rows[i].id == l.focus.row;
        let full: Vec<char> = if i < p.gutter.len() { chars_of(p.gutter[i].as_str()) } else { Vec::new() };
        let n: usize = if full.len() < p.gutter_w as usize { full.len() } else { p.gutter_w as usize };
        let ink = if focused { pal.accent } else { pal.muted };
        let ghost before = ws@;
        if p.gutter_w > 0 {
            let mut j: usize = 0;
            while j < n
                invariant
                    j <= n,
                    n <= full@.len(),
                    n <= 0xffff,
                    p.inner_ox <= 0xffff,
                    i < p.row_y@.len(),
                    ws@ == before + Seq::new(
                        j as nat,
                        |jj: int| CellWrite {
                            x: (p.inner_ox + jj) as u16,
                            y: p.row_y@[i as int],
                            cell: styled(full@[jj], ink, pal.surface, focused),
                        },
                    ),
                decreases n - j,
            {
                ws.push(CellWrite {
                    x: (p.inner_ox + j) as u16,
                    y: p.row_y[i],
                    cell: styled_cell(full[j], ink, pal.surface, focused),
                });
                j = j + 1;
                proof {
                    assert(ws@ =~= before + Seq::new(
                        j as nat,
                        |jj: int| CellWrite {
                            x: (p.inner_ox + jj) as u16,
                            y: p.row_y@[i as int],
                            cell: styled(full@[jj], ink, pal.surface, focused),
                        },
                    ));
                }
            }
        }
        proof {
            let label = gutter_label(*p, i as int);
            assert(label =~= full@.take(n as int));
            assert(ws@ =~= before + gutter_writes(*l, *p, *pal, i as int));
        }
        i = i + 1;
    }
}

/// Append the writes of tile `t`.
fn push_tile_writes(ws: &mut Vec<CellWrite>, p: &HudPlan, t: MapCell, pal: &Palette, inks: &TileInks)
    requires
        (t.column as int) < usize::MAX,
    ensures
        final(ws)@ == old(ws)@ + tile_writes(*p, t, *pal, *inks),
{
    if t.y as usize >= p.row_y.len() {
        proof {
            assert(final(ws)@ =~= old(ws)@ + tile_writes(*p, t, *pal, *inks));
        }
        return;
    }
    let fill = if t.focus_col { pal.accent } else { pal.status(t.status) };
    let neutral = match fill {
        Color::Rgb(_, _, _) => false,
        _ => true,
    };
    let ink = if t.focus_col {
        inks.accent
    } else {
        match t.status {
            PaneStatus::Running => inks.running,
            PaneStatus::Idle => inks.idle,
            PaneStatus::Done => inks.done,
            PaneStatus::Failed => inks.failed,
        }
    };
    let fg = if neutral { Color::Default } else { ink };
    let bg = if neutral { Color::Default } else { fill };
    let glyph = status_glyph_for(t.status);
    let mut addr: Vec<char> = Vec::new();
    if t.pane_idx == 0 {
        push_decimal(&mut addr, (t.column + 1) as u64);
    } else {
        addr.push('·');
    }
    proof {
        assert(addr@ =~= tile_address(t));
    }
    let addr_s = string_of(&addr);
    let text = chars_of(tile_text(t.w, addr_s.as_str(), glyph).as_str());
    let gy = p.row_y[t.y as usize];
    let alen = addr.len();
    let ghost before = ws@;
    let mut dx: usize = 0;
    while dx < text.len()
        invariant
            dx <= text@.len(),
            text@ == spatial_tile_spec(t.w as nat, tile_address(t), glyph),
            text@.len() == t.w,
            alen == tile_address(t).len(),
            glyph == status_glyph(t.status),
            (t.y as int) < p.row_y@.len(),
            gy == p.row_y@[t.y as int],
            neutral == !(tile_fill(t, *pal) is Rgb),
            fg == (if neutral { Color::Default } else { tile_ink(t, *inks) }),
            bg == (if neutral { Color::Default } else { tile_fill(t, *pal) }),
            ws@ == before + Seq::new(
                dx as nat,
                |k: int| CellWrite {
                    x: (p.map_ox + t.x + k) as u16,
                    y: gy,
                    cell: styled(
                        text@[k],
                        if neutral && text@[k] == glyph { pal.status_spec(t.status) } else { fg },
                        bg,
                        k <= alen || t.focus_col,
                    ),
                },
            ),
        decreases text@.len() - dx,
    {
        let ch = text[dx];
        let c_ink = if neutral && ch == glyph { pal.status(t.status) } else { fg };
        ws.push(CellWrite {
            x: (p.map_ox as usize + t.x as usize + dx) as u16,
            y: gy,
            cell: styled_cell(ch, c_ink, bg, dx <= alen || t.focus_col),
        });
        dx = dx + 1;
        proof {
            assert(ws@ =~= before + Seq::new(
                dx as nat,
                |k: int| CellWrite {
                    x: (p.map_ox + t.x + k) as u16,
                    y: gy,
                    cell: styled(
                        text@[k],
                        if neutral && text@[k] == glyph { pal.status_spec(t.status) } else { fg },
                        bg,
                        k <= alen || t.focus_col,
                    ),
                },
            ));
        }
    }
    proof {
        assert(ws@ =~= before + tile_writes(*p, t, *pal, *inks));
    }
}

/// Append the writes of every tile on a shown strip.
fn push_tiles_writes(ws: &mut Vec<CellWrite>, p: &HudPlan, pal: &Palette, inks: &TileInks)
    requires
        forall|k: int| 0 <= k < p.map.cells@.len() ==> (#[trigger] p.map.cells@[k].column as int) < usize::MAX,
    ensures
        final(ws)@ == old(ws)@ + flat(Seq::new(p.map.cells@.len(), |k: int| tile_writes(*p, p.map.cells@[k], *pal, *inks))),
{
    let ghost f = |k: int| tile_writes(*p, p.map.cells@[k], *pal, *inks);
    let mut k: usize = 0;
    while k < p.map.cells.len()
        invariant
            k <= p.map.cells@.len(),
            forall|kk: int| 0 <= kk < p.map.cells@.len() ==> (#[trigger] p.map.cells@[kk].column as int) < usize::MAX,
            f == (|k: int| tile_writes(*p, p.map.cells@[k], *pal, *inks)),
            ws@ == old(ws)@ + flat(Seq::new(k as nat, f)),
        decreases p.map.cells@.len() - k,
    {
        proof {
            lemma_flat_step(f, k as nat);
        }
        push_tile_writes(ws, p, p.map.cells[k], pal, inks);
        k = k + 1;
    }
}

/// The visible span of strip `i`'s columns `first..=last` on the map.
fn span_of(cells: &Vec<MapCell>, i: usize, first: usize, last: usize) -> (r: (Option<u16>, Option<u32>))
    requires
        forall|k: int| 0 <= k < cells@.len() ==> #[trigger] cells@[k].x + cells@[k].w <= 0xffff,
    ensures
        r.0 matches Some(v) ==> span_start(cells@, i as int, first, last) == Some(v as int),
        r.0 is None ==> span_start(cells@, i as int, first, last) is None,
        r.1 matches Some(v) ==> span_end(cells@, i as int, first, last) == Some(v as int),
        r.1 is None ==> span_end(cells@, i as int, first, last) is None,
        r.1 matches Some(v) ==> v <= 0xffff,
{
    let mut s: Option<u16> = None;
    let mut e: Option<u32> = None;
    let mut k: usize = 0;
    while k < cells.len()
        invariant
            k <= cells@.len(),
            forall|kk: int| 0 <= kk < cells@.len() ==> #[trigger] cells@[kk].x + cells@[kk].w <= 0xffff,
            s matches Some(v) ==> span_start(cells@.take(k as int), i as int, first, last) == Some(v as int),
            s is None ==> span_start(cells@.take(k as int), i as int, first, last) is None,
            e matches Some(v) ==> span_end(cells@.take(k as int), i as int, first, last) == Some(v as int),
            e is None ==> span_end(cells@.take(k as int), i as int, first, last) is None,
            e matches Some(v) ==> v <= 0xffff,
        decreases cells@.len() - k,
    {
        proof {
            assert(cells@.take(k as int + 1).drop_last() =~= cells@.take(k as int));
        }
        let c = cells[k];
        if c.y as usize == i && first <= c.column && c.column <= last {
            s = Some(
                match s {
                    Some(r) => if r < c.x { r } else { c.x },
                    None => c.x,
                },
            );
            let end: u32 = c.x as u32 + c.w as u32;
            e = Some(
                match e {
                    Some(r) => if r > end { r } else { end },
                    None => end,
                },
            );
        }
        k = k + 1;
    }
    proof {
        assert(cells@.take(k as int) =~= cells@);
    }
    (s, e)
}

/// Append the writes of every strip's viewport ruler.
fn push_ruler_writes(ws: &mut Vec<CellWrite>, p: &HudPlan, pal: &Palette)
    requires
        p.rulers@.len() == p.ruler_y@.len(),
        forall|k: int| 0 <= k < p.map.cells@.len() ==> #[trigger] p.map.cells@[k].x + p.map.cells@[k].w <= 0xffff,
    ensures
        final(ws)@ == old(ws)@ + flat(Seq::new(p.ruler_y@.len(), |i: int| ruler_writes(*p, *pal, i))),
{
    let ghost f = |i: int| ruler_writes(*p, *pal, i);
    let mut i: usize = 0;
    while i < p.ruler_y.len()
        invariant
            i <= p.ruler_y@.len(),
            p.rulers@.len() == p.ruler_y@.len(),
            forall|k: int| 0 <= k < p.map.cells@.len() ==> #[trigger] p.map.cells@[k].x + p.map.cells@[k].w <= 0xffff,
            f == (|i: int| ruler_writes(*p, *pal, i)),
            ws@ == old(ws)@ + flat(Seq::new(i as nat, f)),
        decreases p.ruler_y@.len() - i,
    {
        proof {
            lemma_flat_step(f, i as nat);
        }
        let ghost before = ws@;
        match (p.ruler_y[i], p.rulers[i]) {
            (Some(ry), Some((first, last))) => {
                let (s, e) = span_of(&p.map.cells, i, first, last);
                match (s, e) {
                    (Some(s), Some(e)) => {
                        let n: u32 = if e > s as u32 { e - s as u32 } else { 0 };
                        let mut k: u32 = 0;
                        while k < n
                            invariant
                                k <= n,
                                e <= 0xffff,
                                n == (if e > s { (e - s) as int } else { 0int }),
                                ws@ == before + Seq::new(
                                    k as nat,
                                    |kk: int| CellWrite {
                                        x: (p.map_ox + s + kk) as u16,
                                        y: ry,
                                        cell: styled('─', pal.accent, pal.surface, false),
                                    },
                                ),
                            decreases n - k,
                        {
                            ws.push(CellWrite {
                                x: (p.map_ox as u32 + s as u32 + k) as u16,
                                y: ry,
                                cell: styled_cell('─', pal.accent, pal.surface, false),
                            });
                            k = k + 1;
                            proof {
                                assert(ws@ =~= before + Seq::new(
                                    k as nat,
                                    |kk: int| CellWrite {
                                        x: (p.map_ox + s + kk) as u16,
                                        y: ry,
                                        cell: styled('─', pal.accent, pal.surface, false),
                                    },
                                ));
                            }
                        }
                    },
                    _ => {},
                }
            },
            _ => {},
        }
        proof {
            assert(ws@ =~= before + ruler_writes(*p, *pal, i as int));
        }
        i = i + 1;
    }
}

/// Append the writes of the cut-off note.
fn push_hidden_writes(ws: &mut Vec<CellWrite>, p: &HudPlan, pal: &Palette)
    requires
        p.inner_ox <= 0xffff,
        p.rect.y + p.rect.h <= 0xffff,
        p.hidden > 0 ==> more_row(*p) >= 0,
    ensures
        final(ws)@ == old(ws)@ + hidden_writes(*p, *pal),
{
    if p.hidden == 0 {
        proof {
            assert(final(ws)@ =~= old(ws)@ + hidden_writes(*p, *pal));
        }
        return;
    }
    let mut t: Vec<char> = Vec::new();
    push_str(&mut t, "⋯ +");
    push_decimal(&mut t, p.hidden as u64);
    push_str(&mut t, " strip");
    if p.hidden != 1 {
        t.push('s');
    }
    proof {
        assert(t@ =~= more_note(p.hidden as nat));
        crate::text::lemma_decimal_len_u64(p.hidden as nat);
        reveal_strlit("⋯ +");
        reveal_strlit(" strip");
    }
    let base: usize = match p.tally_y {
        Some(ty) => ty as usize,
        None => (p.rect.y + p.rect.h - 1) as usize,
    };
    let y: usize = base - 1;
    let shown: usize = if t.len() <= p.inner_w { t.len() } else { p.inner_w };
    let ghost before = ws@;
    let mut j: usize = 0;
    while j < shown
        invariant
            shown == more_shown(*p),
            shown <= t@.len(),
            j <= shown,
            t@ == more_note(p.hidden as nat),
            t@.len() <= 40,
            p.inner_ox <= 0xffff,
            y == more_row(*p),
            ws@ == before + Seq::new(
                j as nat,
                |jj: int| CellWrite { x: (p.inner_ox + jj) as u16, y: y as u16, cell: styled(t@[jj], pal.muted, pal.surface, false) },
            ),
        decreases shown - j,
    {
        ws.push(CellWrite { x: (p.inner_ox + j) as u16, y: y as u16, cell: styled_cell(t[j], pal.muted, pal.surface, false) });
        j = j + 1;
        proof {
            assert(ws@ =~= before + Seq::new(
                j as nat,
                |jj: int| CellWrite { x: (p.inner_ox + jj) as u16, y: y as u16, cell: styled(t@[jj], pal.muted, pal.surface, false) },
            ));
        }
    }
    proof {
        assert(ws@ =~= before + hidden_writes(*p, *pal));
    }
}

/// The characters of the inked tally, and the tally's width.
fn inked_tally_chars(l: &Layout, pal: &Palette) -> (r: (Vec<(char, Color)>, usize))
    ensures
        r.0@ == inked_chars(tally_inked(l.panes@, *pal)),
        r.1 == tally_width(tally_spec(l.panes@)),
        r.0@.len() <= 200,
{
    let tally = status_tally(l);
    let np = l.panes.len();
    proof {
        lemma_tally_shape(l.panes@);
        assert forall|k: int| 0 <= k < tally@.len() implies #[trigger] tally@[k].0@.len() <= 40 by {
            assert(tally_view(tally@)[k].0 == tally@[k].0@);
        }
    }
    let tw = tally_width_of(&tally);
    let ghost inked = tally_inked(l.panes@, *pal);
    let mut cs: Vec<(char, Color)> = Vec::new();
    let mut k: usize = 0;
    while k < tally.len()
        invariant
            k <= tally@.len(),
            tally@.len() <= 5,
            forall|kk: int| 0 <= kk < tally@.len() ==> #[trigger] tally@[kk].0@.len() <= 40,
            tally_view(tally@) == tally_spec(l.panes@),
            inked == tally_inked(l.panes@, *pal),
            cs@ == inked_chars(inked.take(k as int)),
            cs@.len() <= 40 * k,
        decreases tally@.len() - k,
    {
        let ink = match tally[k].1 {
            Some(st) => pal.status(st),
            None => pal.text,
        };
        let text = chars_of(tally[k].0.as_str());
        proof {
            assert(tally_view(tally@)[k as int] == (tally@[k as int].0@, tally@[k as int].1));
            assert(inked[k as int] == (tally@[k as int].0@, ink));
            assert(inked.take(k as int + 1).drop_last() =~= inked.take(k as int));
            assert(inked.take(k as int + 1).last() == (text@, ink));
        }
        let ghost prev = cs@;
        let mut j: usize = 0;
        while j < text.len()
            invariant
                j <= text@.len(),
                text@.len() <= 40,
                cs@ == prev + Seq::new(j as nat, |q: int| (text@[q], ink)),
            decreases text@.len() - j,
        {
            cs.push((text[j], ink));
            j = j + 1;
            proof {
                assert(cs@ =~= prev + Seq::new(j as nat, |q: int| (text@[q], ink)));
            }
        }
        k = k + 1;
    }
    proof {
        assert(inked.take(k as int) =~= inked);
    }
    (cs, tw)
}

/// Append the writes of the footer tally.
fn push_footer_writes(ws: &mut Vec<CellWrite>, l: &Layout, p: &HudPlan, pal: &Palette)
    requires
        p.inner_ox <= 0xffff,
        p.inner_w <= 0xffff,
    ensures
        final(ws)@ == old(ws)@ + footer_writes(*l, *p, *pal),
{
    match p.tally_y {
        None => {
            proof {
                assert(final(ws)@ =~= old(ws)@ + footer_writes(*l, *p, *pal));
            }
        },
        Some(fy) => {
            let (cs, tw) = inked_tally_chars(l, pal);
            let x0: usize = p.inner_ox + (if p.inner_w > tw { p.inner_w - tw } else { 0 }) / 2;
            let ghost before = ws@;
            let mut j: usize = 0;
            while j < cs.len()
                invariant
                    j <= cs@.len(),
                    cs@.len() <= 200,
                    x0 <= 0x2_0000,
                    ws@ == before + Seq::new(
                        j as nat,
                        |jj: int| CellWrite { x: (x0 + jj) as u16, y: fy, cell: styled(cs@[jj].0, cs@[jj].1, pal.surface, true) },
                    ),
                decreases cs@.len() - j,
            {
                ws.push(CellWrite { x: (x0 + j) as u16, y: fy, cell: styled_cell(cs[j].0, cs[j].1, pal.surface, true) });
                j = j + 1;
                proof {
                    assert(ws@ =~= before + Seq::new(
                        j as nat,
                        |jj: int| CellWrite { x: (x0 + jj) as u16, y: fy, cell: styled(cs@[jj].0, cs@[jj].1, pal.surface, true) },
                    ));
                }
            }
            proof {
                assert(ws@ =~= before + footer_writes(*l, *p, *pal));
            }
        },
    }
}

/// The screen `o` after a planned dashboard is painted over it: the panel
/// filled and ringed, its writes applied, then the keep-awake badge on its
/// top frame row and the development-session badge on its bottom one, each
/// where it is given.
pub open spec fn painted_panel(
    o: Seq<Cell>,
    cols: u16,
    rows: u16,
    l: Layout,
    p: HudPlan,
    pal: Palette,
    inks: TileInks,
    keep_awake: Option<Seq<char>>,
    dev: Option<Seq<char>>,
) -> Seq<Cell> {
    let s = apply_spec(framed_panel(o, cols, p.rect, pal), cols, rows, hud_writes(l, p, pal, inks));
    badged(badged(s, cols, Some(p.rect), true, keep_awake, pal.accent), cols, Some(p.rect), false, dev, pal.accent)
}

/// Paint a planned dashboard: fill its panel with the surface color, ring
/// it in the accent, then write the strip gutter, the tiles, the viewport
/// rulers, the cut-off note and the footer tally, in that order (a later
/// write to a cell wins), and stamp the keep-awake badge (while the
/// keep-awake guard holds) and the development-session badge (in a
/// development session) on its frame.
pub fn paint_center_minimap(
    out: &mut Vec<Cell>,
    cols: u16,
    rows: u16,
    l: &Layout,
    p: &HudPlan,
    pal: &Palette,
    inks: &TileInks,
    keep_awake: Option<&str>,
    dev: Option<&str>,
)
    requires
        paintable(cols, rows, *p),
    ensures
        final(out)@ == painted_panel(old(out)@, cols, rows, *l, *p, *pal, *inks, badge_text(keep_awake), badge_text(dev)),
{
    let ghost o = out@;
    let r = p.rect;
    fill_box(out, cols, r.x as usize, r.y as usize, r.w as usize, r.h as usize, styled_cell(' ', pal.text, pal.surface, false));
    draw_ring(out, cols, r.x as usize, r.y as usize, r.w as usize, r.h as usize, pal.accent, Color::Default);
    proof {
        assert(out@ =~= framed_panel(o, cols, r, *pal));
    }
    let mut ws: Vec<CellWrite> = Vec::new();
    push_gutter_writes(&mut ws, l, p, pal);
    push_tiles_writes(&mut ws, p, pal, inks);
    push_ruler_writes(&mut ws, p, pal);
    push_hidden_writes(&mut ws, p, pal);
    push_footer_writes(&mut ws, l, p, pal);
    proof {
        assert(ws@ =~= hud_writes(*l, *p, *pal, *inks));
    }
    apply_writes(out, cols, rows, &ws);
    let ghost a = out@;
    if let Some(b) = keep_awake {
        stamp_keep_awake_badge(out, cols, r, pal, b);
    }
    let ghost k = out@;
    proof {
        assert(k =~= badged(a, cols, Some(r), true, badge_text(keep_awake), pal.accent));
    }
    if let Some(b) = dev {
        stamp_dev_badge(out, cols, r, pal, b);
    }
    proof {
        assert(out@ =~= badged(k, cols, Some(r), false, badge_text(dev), pal.accent));
    }
}

/// The first character of a corner tile: its 1-based column digit (`+`
/// past 9) on the first pane of a column, the status glyph on the panes
/// stacked under it.
pub open spec fn corner_lead(t: MapCell) -> char {
    if t.pane_idx == 0 {
        if (t.column as u32) + 1 < 10 { (((t.column as u32) + 1 + 48) as u32) as char } else { '+' }
    } else {
        status_glyph(t.status)
    }
}

/// Character `dx` of a corner tile: the lead, the status glyph in the last
/// cell of a tile two or more wide, blanks between.
pub open spec fn corner_char(t: MapCell, dx: int) -> char {
    if dx == 0 {
        corner_lead(t)
    } else if dx == t.w - 1 && t.w >= 2 {
        status_glyph(t.status)
    } else {
        ' '
    }
}

/// The writes of one corner tile on map row `t.y` of a map drawn at
/// `(ox, oy)`: its cells in white on its muted status tint (the accent for
/// the focused column), the column digit bold, and a `❯` left of the map
/// on the focused strip's first tile.
pub open spec fn corner_tile_writes(t: MapCell, ox: int, oy: int, height: int, pal: Palette) -> Seq<CellWrite> {
    if t.y >= height {
        Seq::empty()
    } else {
        let bg = if t.focus_col { pal.accent } else { pal.status_muted_spec(t.status) };
        let y = oy + t.y;
        Seq::new(
            t.w as nat,
            |dx: int| CellWrite {
                x: (ox + t.x + dx) as u16,
                y: y as u16,
                cell: styled(corner_char(t, dx), Color::Idx(231), bg, dx == 0 && t.pane_idx == 0),
            },
        ) + (if t.focus_row && t.x == 0 && ox > 0 {
            seq![CellWrite { x: (ox - 1) as u16, y: y as u16, cell: styled('❯', pal.accent, Color::Default, true) }]
        } else {
            Seq::empty()
        })
    }
}

/// The corner map's height: its strips, capped by the configuration and
/// the screen.
pub open spec fn corner_height(rows: u16, mm: MinimapConfig, map: MiniMap) -> int {
    min_i(min_i(mm.max_rows as int, map.height as int), rows as int)
}

/// Every write of the corner minimap: its tiles, then (when counts are on
/// and there is a row above the map) the tally right-aligned above it, bold
/// on the surface.
pub open spec fn corner_writes(cols: u16, rows: u16, l: Layout, mm: MinimapConfig, pal: Palette, map: MiniMap) -> Seq<CellWrite> {
    let height = corner_height(rows, mm, map);
    let ox = cols - map.width;
    let oy = rows - height;
    let tiles = flat(Seq::new(map.cells@.len(), |k: int| corner_tile_writes(map.cells@[k], ox, oy, height, pal)));
    let cs = inked_chars(tally_inked(l.panes@, pal));
    let tw = tally_width(tally_spec(l.panes@));
    let x0 = sat(cols as int, tw);
    tiles + (if mm.show_counts && oy > 0 {
        Seq::new(
            cs.len(),
            |j: int| CellWrite { x: (x0 + j) as u16, y: (oy - 1) as u16, cell: styled(cs[j].0, cs[j].1, pal.surface, true) },
        )
    } else {
        Seq::empty()
    })
}

/// The maps the corner overlay can be drawn from: no wider than the
/// screen, tiles that fit its coordinates, and column numbers that can be
/// counted up from.
pub open spec fn corner_drawable(cols: u16, map: MiniMap) -> bool {
    &&& map.width <= cols
    &&& forall|k: int| 0 <= k < map.cells@.len() ==> #[trigger] map.cells@[k].x + map.cells@[k].w + cols <= 0xffff
    &&& forall|k: int| 0 <= k < map.cells@.len() ==> ((#[trigger] map.cells@[k].column) as u32) < u32::MAX
}

fn push_corner_tile(ws: &mut Vec<CellWrite>, t: MapCell, ox: u16, oy: u16, height: u16, pal: &Palette)
    requires
        t.x + t.w + ox <= 0xffff,
        (t.column as u32) < u32::MAX,
        oy + height <= 0xffff,
    ensures
        final(ws)@ == old(ws)@ + corner_tile_writes(t, ox as int, oy as int, height as int, *pal),
{
    if t.y >= height {
        proof {
            assert(final(ws)@ =~= old(ws)@ + corner_tile_writes(t, ox as int, oy as int, height as int, *pal));
        }
        return;
    }
    let bg = if t.focus_col { pal.accent } else { pal.status_muted(t.status) };
    let y: u16 = oy + t.y;
    let glyph = status_glyph_for(t.status);
    let lead: char = if t.pane_idx == 0 {
        let d: u32 = t.column as u32 + 1;
        if d < 10 {
            ((d + 48) as u8) as char
        } else {
            '+'
        }
    } else {
        glyph
    };
    proof {
        assert(lead == corner_lead(t));
    }
    let ghost before = ws@;
    let mut dx: u16 = 0;
    while dx < t.w
        invariant
            dx <= t.w,
            t.x + t.w + ox <= 0xffff,
            lead == corner_lead(t),
            glyph == status_glyph(t.status),
            ws@ == before + Seq::new(
                dx as nat,
                |k: int| CellWrite {
                    x: (ox + t.x + k) as u16,
                    y: y as u16,
                    cell: styled(corner_char(t, k), Color::Idx(231), bg, k == 0 && t.pane_idx == 0),
                },
            ),
        decreases t.w - dx,
    {
        let ch = if dx == 0 {
            lead
        } else if dx == t.w - 1 && t.w >= 2 {
            glyph
        } else {
            ' '
        };
        ws.push(CellWrite {
            x: ox + t.x + dx,
            y,
            cell: styled_cell(ch, Color::Idx(231), bg, dx == 0 && t.pane_idx == 0),
        });
        dx = dx + 1;
        proof {
            assert(ws@ =~= before + Seq::new(
                dx as nat,
                |k: int| CellWrite {
                    x: (ox + t.x + k) as u16,
                    y: y as u16,
                    cell: styled(corner_char(t, k), Color::Idx(231), bg, k == 0 && t.pane_idx == 0),
                },
            ));
        }
    }
    if t.focus_row && t.x == 0 && ox > 0 {
        ws.push(CellWrite { x: ox - 1, y, cell: styled_cell('❯', pal.accent, Color::Default, true) });
    }
    proof {
        assert(ws@ =~= before + corner_tile_writes(t, ox as int, oy as int, height as int, *pal));
    }
}

/// Overlay the minimap `map` (built for this screen) in the bottom-right
/// corner: one row per strip, one tile per pane in its muted status tint
/// (the accent for the focused column) with its column digit and status
/// glyph, a chevron marking the focused strip, and optionally the status
/// tally above it. Nothing is drawn when the map is off or there is a
/// single pane.
pub fn draw_minimap(
    out: &mut Vec<Cell>,
    cols: u16,
    rows: u16,
    l: &Layout,
    mm: &MinimapConfig,
    pal: &Palette,
    map: &MiniMap,
)
    requires
        corner_drawable(cols, *map),
    ensures
        final(out)@ == (if !mm.show || (l.panes@.len() <= 1 && l.rows@.len() <= 1) {
            old(out)@
        } else {
            apply_spec(old(out)@, cols, rows, corner_writes(cols, rows, *l, *mm, *pal, *map))
        }),
{
    if !mm.show || (l.panes.len() <= 1 && l.rows.len() <= 1) {
        return;
    }
    let h1: u16 = if mm.max_rows < map.height { mm.max_rows } else { map.height };
    let height: u16 = if h1 < rows { h1 } else { rows };
    let ox: u16 = cols - map.width;
    let oy: u16 = rows - height;
    let ghost f = |k: int| corner_tile_writes(map.cells@[k], ox as int, oy as int, height as int, *pal);
    let mut ws: Vec<CellWrite> = Vec::new();
    let mut k: usize = 0;
    while k < map.cells.len()
        invariant
            k <= map.cells@.len(),
            corner_drawable(cols, *map),
            ox + map.width == cols,
            oy + height == rows,
            f == (|k: int| corner_tile_writes(map.cells@[k], ox as int, oy as int, height as int, *pal)),
            ws@ == flat(Seq::new(k as nat, f)),
        decreases map.cells@.len() - k,
    {
        proof {
            lemma_flat_step(f, k as nat);
        }
        let t = map.cells[k];
        proof {
            assert(t.x + t.w + cols <= 0xffff);
            assert(((t.column) as u32) < u32::MAX);
        }
        push_corner_tile(&mut ws, t, ox, oy, height, pal);
        k = k + 1;
    }
    let ghost tiles = ws@;
    if mm.show_counts && oy > 0 {
        let (cs, tw) = inked_tally_chars(l, pal);
        let x0: u16 = if (cols as usize) > tw { cols - tw as u16 } else { 0 };
        let mut j: usize = 0;
        while j < cs.len()
            invariant
                j <= cs@.len(),
                cs@.len() <= 200,
                x0 <= 0xffff,
                oy > 0,
                ws@ == tiles + Seq::new(
                    j as nat,
                    |jj: int| CellWrite { x: (x0 + jj) as u16, y: (oy - 1) as u16, cell: styled(cs@[jj].0, cs@[jj].1, pal.surface, true) },
                ),
            decreases cs@.len() - j,
        {
            ws.push(CellWrite { x: (x0 as usize + j) as u16, y: oy - 1, cell: styled_cell(cs[j].0, cs[j].1, pal.surface, true) });
            j = j + 1;
            proof {
                assert(ws@ =~= tiles + Seq::new(
                    j as nat,
                    |jj: int| CellWrite { x: (x0 + jj) as u16, y: (oy - 1) as u16, cell: styled(cs@[jj].0, cs@[jj].1, pal.surface, true) },
                ));
            }
        }
        proof {
            assert(x0 == sat(cols as int, tw as int));
        }
    }
    proof {
        assert(ws@ =~= corner_writes(cols, rows, *l, *mm, *pal, *map));
    }
    apply_writes(out, cols, rows, &ws);
}


/// Cell `(x, y)` lies strictly inside the frame of `r`.
pub open spec fn strictly_inside(r: Rect, x: int, y: int) -> bool {
    r.x < x < r.x + r.w - 1 && r.y < y < r.y + r.h - 1
}

/// The panel's size fits the screen's coordinates.
pub open spec fn panel_representable(
    cols: u16,
    rows: u16,
    l: Layout,
    mm: MinimapConfig,
    map: MiniMap,
    rulers: Seq<Option<(usize, usize)>>,
) -> bool {
    let g = panel_spec(cols, rows, l, mm, map.width, map.height, rulers)->0;
    g.3 <= 0xffff && g.4 <= 0xffff
}

/// Every tile of the map lies within the map's width.
pub open spec fn tiles_fit(map: MiniMap) -> bool {
    forall|k: int| 0 <= k < map.cells@.len() ==> #[trigger] map.cells@[k].x + map.cells@[k].w <= map.width
}

proof fn lemma_rulers_before_grows(rulers: Seq<Option<(usize, usize)>>, i: int, j: int)
    requires
        0 <= i <= j,
    ensures
        rulers_before(rulers, i) <= rulers_before(rulers, j),
        0 <= rulers_before(rulers, i) <= i,
    decreases j,
{
    if j > i {
        lemma_rulers_before_grows(rulers, i, j - 1);
    } else if i > 0 {
        lemma_rulers_before_grows(rulers, i - 1, i - 1);
    }
}

proof fn lemma_spatial_tile_len(w: nat, addr: Seq<char>, glyph: char)
    ensures
        spatial_tile_spec(w, addr, glyph).len() == w,
{
    if w >= 2 {
        let a = tile_addr(w, addr);
        assert(a.len() <= w - 1);
    }
}

/// When every write of every part satisfies `ok`, so does every write of
/// their flattening.
proof fn lemma_flat_all(f: spec_fn(int) -> Seq<CellWrite>, n: nat, ok: spec_fn(CellWrite) -> bool)
    requires
        forall|i: int, j: int| 0 <= i < n && 0 <= j < f(i).len() ==> #[trigger] ok(f(i)[j]),
    ensures
        forall|j: int| 0 <= j < flat(Seq::new(n, f)).len() ==> #[trigger] ok(flat(Seq::new(n, f))[j]),
    decreases n,
{
    if n > 0 {
        lemma_flat_all(f, (n - 1) as nat, ok);
        lemma_flat_step(f, (n - 1) as nat);
        let a = flat(Seq::new((n - 1) as nat, f));
        let b = f(n - 1);
        assert forall|j: int| 0 <= j < flat(Seq::new(n, f)).len() implies #[trigger] ok(flat(Seq::new(n, f))[j]) by {
            if j < a.len() {
                assert(flat(Seq::new(n, f))[j] == a[j]);
            } else {
                assert(flat(Seq::new(n, f))[j] == b[j - a.len()]);
            }
        }
    }
}

proof fn lemma_span_bounds(cells: Seq<MapCell>, i: int, first: usize, last: usize, width: int)
    requires
        forall|k: int| 0 <= k < cells.len() ==> #[trigger] cells[k].x + cells[k].w <= width,
    ensures
        span_end(cells, i, first, last) matches Some(e) ==> e <= width,
        span_start(cells, i, first, last) matches Some(s) ==> s >= 0,
    decreases cells.len(),
{
    if cells.len() > 0 {
        assert forall|k: int| 0 <= k < cells.drop_last().len() implies #[trigger] cells.drop_last()[k].x
            + cells.drop_last()[k].w <= width by {
            assert(cells.drop_last()[k] == cells[k]);
        }
        lemma_span_bounds(cells.drop_last(), i, first, last, width);
        assert(cells.last() == cells[cells.len() - 1]);
    }
}

proof fn lemma_inked_len(t: Seq<(Seq<char>, Option<PaneStatus>)>, pal: Palette)
    ensures
        inked_chars(
            t.map_values(
                |e: (Seq<char>, Option<PaneStatus>)|
                    (
                        e.0,
                        match e.1 {
                            Some(st) => pal.status_spec(st),
                            None => pal.text,
                        },
                    ),
            ),
        ).len() == tally_width(t),
    decreases t.len(),
{
    let f = |e: (Seq<char>, Option<PaneStatus>)|
        (
            e.0,
            match e.1 {
                Some(st) => pal.status_spec(st),
                None => pal.text,
            },
        );
    if t.len() > 0 {
        lemma_inked_len(t.drop_last(), pal);
        assert(t.map_values(f).drop_last() =~= t.drop_last().map_values(f));
        assert(t.map_values(f).last() == f(t.last()));
    }
}


/// Where the pieces of a plan sit relative to its panel: the panel inside
/// the screen, the contents strictly inside its frame row by row, the map
/// and gutter within the inner width, and the tally no wider than it.
pub open spec fn laid_inside(p: HudPlan, l: Layout, cols: u16, rows: u16) -> bool {
    let r = p.rect;
    &&& r.x + r.w <= cols
    &&& r.y + r.h <= rows
    &&& p.inner_ox == r.x + 1
    &&& p.inner_w + 2 == r.w
    &&& r.x < p.map_ox
    &&& p.map_ox + p.map.width <= p.inner_ox + p.inner_w
    &&& p.gutter_w <= p.inner_w
    &&& p.rulers@.len() == p.ruler_y@.len()
    &&& forall|i: int| 0 <= i < p.row_y@.len() ==> r.y < #[trigger] p.row_y@[i] < r.y + r.h - 1
    &&& forall|i: int| 0 <= i < p.ruler_y@.len() ==> (#[trigger] p.ruler_y@[i] matches Some(y) ==> r.y < y < r.y
        + r.h - 1)
    &&& p.tally_y matches Some(y) ==> r.y < y < r.y + r.h - 1 && tally_width(tally_spec(l.panes@)) <= p.inner_w
    &&& p.hidden > 0 ==> r.y < more_row(p) < r.y + r.h - 1
}

proof fn lemma_planned_laid_inside(
    p: HudPlan,
    cols: u16,
    rows: u16,
    l: Layout,
    mm: MinimapConfig,
    map: MiniMap,
    rulers: Seq<Option<(usize, usize)>>,
)
    requires
        planned(p, cols, rows, l, mm, map, rulers),
        panel_representable(cols, rows, l, mm, map, rulers),
    ensures
        laid_inside(p, l, cols, rows),
{
    let g = panel_spec(cols, rows, l, mm, map.width, map.height, rulers)->0;
    let (shown, body, inner_w, bw, bh, ox, oy) = g;
    let gw = gutter_width(l.rows@.len()) as int;
    let hidden = sat(map.height as int, shown);
    let footer: int = if mm.show_counts { 1 } else { 0 };
    lemma_rulers_before_grows(rulers, shown, shown);
    assert(shown >= 1 && map.width >= 1);
    assert(body == shown + rulers_before(rulers, shown) + (if hidden > 0 { 1int } else { 0int }));
    assert(bw == inner_w + 2 && bh == body + footer + 2);
    assert(inner_w >= gw + (if gw > 0 { 1int } else { 0int }) + map.width);
    assert(bw < cols && bh < rows);
    assert(ox + bw <= cols && oy + bh <= rows);
    let r = p.rect;
    lemma_rulers_before_grows(rulers, shown, shown);
    assert(0 <= ox <= 0xffff && 0 <= oy <= 0xffff && 0 <= bw <= 0xffff && 0 <= bh <= 0xffff);
    assert(r.x == ox && r.y == oy && r.w == bw && r.h == bh);
    assert forall|i: int| 0 <= i < p.row_y@.len() implies r.y < #[trigger] p.row_y@[i] < r.y + r.h - 1 by {
        lemma_rulers_before_grows(rulers, i, shown);
        let v = oy + 1 + i + rulers_before(rulers, i);
        assert(0 <= v < rows);
        assert(p.row_y@[i] == v as u16);
    }
    assert forall|i: int| 0 <= i < p.ruler_y@.len() implies (#[trigger] p.ruler_y@[i] matches Some(y) ==> r.y < y
        < r.y + r.h - 1) by {
        lemma_rulers_before_grows(rulers, i + 1, shown);
        assert(rulers_before(rulers, i + 1) == rulers_before(rulers, i) + (if ruler_at(rulers, i) is Some {
            1int
        } else {
            0int
        }));
    }
    if mm.show_counts {
        assert(tally_width(tally_spec(l.panes@)) <= inner_w);
    }
}

proof fn lemma_gutter_inside(l: Layout, p: HudPlan, pal: Palette, cols: u16, rows: u16, i: int, j: int)
    requires
        laid_inside(p, l, cols, rows),
        0 <= i < p.row_y@.len(),
        0 <= j < gutter_writes(l, p, pal, i).len(),
    ensures
        strictly_inside(p.rect, gutter_writes(l, p, pal, i)[j].x as int, gutter_writes(l, p, pal, i)[j].y as int),
{
    assert(p.row_y@[i] == p.row_y@[i]);
}

proof fn lemma_tile_inside(p: HudPlan, l: Layout, pal: Palette, inks: TileInks, cols: u16, rows: u16, k: int, j: int)
    requires
        laid_inside(p, l, cols, rows),
        tiles_fit(p.map),
        0 <= k < p.map.cells@.len(),
        0 <= j < tile_writes(p, p.map.cells@[k], pal, inks).len(),
    ensures
        strictly_inside(
            p.rect,
            tile_writes(p, p.map.cells@[k], pal, inks)[j].x as int,
            tile_writes(p, p.map.cells@[k], pal, inks)[j].y as int,
        ),
{
    let t = p.map.cells@[k];
    lemma_spatial_tile_len(t.w as nat, tile_address(t), status_glyph(t.status));
    assert(t.x + t.w <= p.map.width);
    assert(p.row_y@[t.y as int] == p.row_y@[t.y as int]);
}

proof fn lemma_ruler_inside(p: HudPlan, l: Layout, pal: Palette, cols: u16, rows: u16, i: int, j: int)
    requires
        laid_inside(p, l, cols, rows),
        tiles_fit(p.map),
        0 <= i < p.ruler_y@.len(),
        0 <= j < ruler_writes(p, pal, i).len(),
    ensures
        strictly_inside(p.rect, ruler_writes(p, pal, i)[j].x as int, ruler_writes(p, pal, i)[j].y as int),
{
    assert(p.ruler_y@[i] == p.ruler_y@[i]);
    match (p.ruler_y@[i], p.rulers@[i]) {
        (Some(ry), Some((first, last))) => {
            lemma_span_bounds(p.map.cells@, i, first, last, p.map.width as int);
        },
        _ => {},
    }
}

/// Writes that all land strictly inside rect `r` leave every cell outside
/// it alone.
/// Writes that all land strictly inside a panel leave every cell outside
/// the panel as it was.
pub proof fn lemma_writes_keep_outside(s: Seq<Cell>, cols: u16, rows: u16, ws: Seq<CellWrite>, r: Rect, i: int)
    requires
        forall|j: int| 0 <= j < ws.len() ==> strictly_inside(r, #[trigger] ws[j].x as int, ws[j].y as int),
        0 <= i < s.len(),
        !in_box(cols as int, r.x as int, r.y as int, r.w as int, r.h as int, i),
    ensures
        apply_spec(s, cols, rows, ws)[i] == s[i],
        apply_spec(s, cols, rows, ws).len() == s.len(),
    decreases ws.len(),
{
    if ws.len() > 0 {
        let w = ws.last();
        assert(strictly_inside(r, ws[ws.len() - 1].x as int, ws[ws.len() - 1].y as int));
        assert forall|j: int| 0 <= j < ws.drop_last().len() implies strictly_inside(
            r,
            #[trigger] ws.drop_last()[j].x as int,
            ws.drop_last()[j].y as int,
        ) by {
            assert(ws.drop_last()[j] == ws[j]);
        }
        lemma_writes_keep_outside(s, cols, rows, ws.drop_last(), r, i);
        if w.x < cols && w.y < rows && i == w.y * cols + w.x {
            crate::screen::lemma_index_coords(cols as int, i, w.x as int, w.y as int);
        }
    }
}

/// The dashboard never paints outside its own panel: a planned panel lies
/// inside the screen, every write of its contents (gutter labels, tiles,
/// rulers, the cut-off note, the tally) lands strictly inside its frame,
/// and painting it (`paint_center_minimap`, badges included) leaves every
/// cell outside the panel as it was, provided the map's tiles lie within
/// the map's width.
pub proof fn the_dashboard_never_paints_outside_its_panel(
    cols: u16,
    rows: u16,
    l: Layout,
    mm: MinimapConfig,
    map: MiniMap,
    rulers: Seq<Option<(usize, usize)>>,
    p: HudPlan,
    pal: Palette,
    inks: TileInks,
    keep_awake: Option<Seq<char>>,
    dev: Option<Seq<char>>,
    o: Seq<Cell>,
)
    requires
        planned(p, cols, rows, l, mm, map, rulers),
        panel_representable(cols, rows, l, mm, map, rulers),
        tiles_fit(map),
    ensures
        p.rect.x + p.rect.w <= cols,
        p.rect.y + p.rect.h <= rows,
        forall|j: int|
            0 <= j < hud_writes(l, p, pal, inks).len() ==> strictly_inside(
                p.rect,
                #[trigger] hud_writes(l, p, pal, inks)[j].x as int,
                hud_writes(l, p, pal, inks)[j].y as int,
            ),
        forall|i: int|
            0 <= i < o.len() && !in_box(cols as int, p.rect.x as int, p.rect.y as int, p.rect.w as int, p.rect.h as int, i)
                ==> #[trigger] painted_panel(o, cols, rows, l, p, pal, inks, keep_awake, dev)[i] == o[i],
{
    lemma_planned_laid_inside(p, cols, rows, l, mm, map, rulers);
    assert(tiles_fit(p.map)) by {
        assert forall|k: int| 0 <= k < p.map.cells@.len() implies #[trigger] p.map.cells@[k].x + p.map.cells@[k].w
            <= p.map.width by {
            assert(p.map.cells@[k] == map.cells@[k]);
        }
    }
    let ok = |w: CellWrite| strictly_inside(p.rect, w.x as int, w.y as int);
    let fa = |i: int| gutter_writes(l, p, pal, i);
    let fb = |k: int| tile_writes(p, p.map.cells@[k], pal, inks);
    let fc = |i: int| ruler_writes(p, pal, i);
    assert forall|i: int, j: int| 0 <= i < p.row_y@.len() && 0 <= j < fa(i).len() implies #[trigger] ok(fa(i)[j]) by {
        lemma_gutter_inside(l, p, pal, cols, rows, i, j);
    }
    lemma_flat_all(fa, p.row_y@.len(), ok);
    assert forall|k: int, j: int| 0 <= k < p.map.cells@.len() && 0 <= j < fb(k).len() implies #[trigger] ok(fb(k)[j]) by {
        lemma_tile_inside(p, l, pal, inks, cols, rows, k, j);
    }
    lemma_flat_all(fb, p.map.cells@.len(), ok);
    assert forall|i: int, j: int| 0 <= i < p.ruler_y@.len() && 0 <= j < fc(i).len() implies #[trigger] ok(fc(i)[j]) by {
        lemma_ruler_inside(p, l, pal, cols, rows, i, j);
    }
    lemma_flat_all(fc, p.ruler_y@.len(), ok);
    let a = flat(Seq::new(p.row_y@.len(), fa));
    let b = flat(Seq::new(p.map.cells@.len(), fb));
    let c = flat(Seq::new(p.ruler_y@.len(), fc));
    let d = hidden_writes(p, pal);
    let e = footer_writes(l, p, pal);
    assert forall|j: int| 0 <= j < d.len() implies #[trigger] ok(d[j]) by {}
    lemma_inked_len(tally_spec(l.panes@), pal);
    assert forall|j: int| 0 <= j < e.len() implies #[trigger] ok(e[j]) by {}
    let all = hud_writes(l, p, pal, inks);
    assert(all =~= a + b + c + d + e) by {
        assert(Seq::new(p.row_y@.len(), fa) =~= Seq::new(p.row_y@.len(), |i: int| gutter_writes(l, p, pal, i)));
        assert(Seq::new(p.map.cells@.len(), fb) =~= Seq::new(
            p.map.cells@.len(),
            |k: int| tile_writes(p, p.map.cells@[k], pal, inks),
        ));
        assert(Seq::new(p.ruler_y@.len(), fc) =~= Seq::new(p.ruler_y@.len(), |i: int| ruler_writes(p, pal, i)));
    }
    assert forall|j: int| 0 <= j < all.len() implies strictly_inside(p.rect, #[trigger] all[j].x as int, all[j].y as int) by {
        if j < a.len() {
            assert(all[j] == a[j]);
            assert(ok(a[j]));
        } else if j < a.len() + b.len() {
            assert(all[j] == b[j - a.len()]);
            assert(ok(b[j - a.len()]));
        } else if j < a.len() + b.len() + c.len() {
            assert(all[j] == c[j - a.len() - b.len()]);
            assert(ok(c[j - a.len() - b.len()]));
        } else if j < a.len() + b.len() + c.len() + d.len() {
            assert(all[j] == d[j - a.len() - b.len() - c.len()]);
            assert(ok(d[j - a.len() - b.len() - c.len()]));
        } else {
            assert(all[j] == e[j - a.len() - b.len() - c.len() - d.len()]);
            assert(ok(e[j - a.len() - b.len() - c.len() - d.len()]));
        }
    }
    assert forall|i: int|
        0 <= i < o.len() && !in_box(cols as int, p.rect.x as int, p.rect.y as int, p.rect.w as int, p.rect.h as int, i)
            implies #[trigger] painted_panel(o, cols, rows, l, p, pal, inks, keep_awake, dev)[i] == o[i] by {
        let f = framed_panel(o, cols, p.rect, pal);
        lemma_writes_keep_outside(f, cols, rows, all, p.rect, i);
        let s = apply_spec(f, cols, rows, all);
        assert(s.len() == o.len());
        lemma_badged_stays_inside(s, cols, p.rect, true, keep_awake, pal.accent, i);
        let k = badged(s, cols, Some(p.rect), true, keep_awake, pal.accent);
        lemma_badged_stays_inside(k, cols, p.rect, false, dev, pal.accent, i);
    }
}

/// A dashboard planned by `plan_center_minimap` can be painted: it meets
/// `paint_center_minimap`'s requirement whenever its panel fits a screen row
/// and column, its tiles lie within the map's width, and every tile's
/// column index has a successor (the 1-based address it shows).
pub proof fn a_planned_dashboard_is_paintable(
    p: HudPlan,
    cols: u16,
    rows: u16,
    l: Layout,
    mm: MinimapConfig,
    map: MiniMap,
    rulers: Seq<Option<(usize, usize)>>,
)
    requires
        planned(p, cols, rows, l, mm, map, rulers),
        panel_representable(cols, rows, l, mm, map, rulers),
        tiles_fit(map),
        forall|k: int| 0 <= k < map.cells@.len() ==> (#[trigger] map.cells@[k].column as int) < usize::MAX,
    ensures
        paintable(cols, rows, p),
{
    lemma_planned_laid_inside(p, cols, rows, l, mm, map, rulers);
    assert(p.row_y@.len() > 0) by {
        let g = panel_spec(cols, rows, l, mm, map.width, map.height, rulers)->0;
        assert(g.0 >= 1);
    }
    assert(p.rect.y < p.row_y@[0] < p.rect.y + p.rect.h - 1);
    assert forall|k: int| 0 <= k < p.map.cells@.len() implies #[trigger] p.map.cells@[k].x + p.map.cells@[k].w
        <= 0xffff && (p.map.cells@[k].column as int) < usize::MAX by {
        assert(p.map.cells@[k] == map.cells@[k]);
    }
}

proof fn lemma_max_label_covers(n: nat, k: nat)
    requires
        1 <= k <= n,
    ensures
        decimal(k).len() <= max_label_len(n),
    decreases n,
{
    if k < n {
        lemma_max_label_covers((n - 1) as nat, k);
    }
}

/// The strips are numbered from 1 in order: label `i` reads back as `i +
/// 1`, and the gutter is as wide as the widest label (up to ten cells).
pub proof fn strips_are_numbered_from_one(n: nat, i: int)
    requires
        0 <= i < n,
    ensures
        crate::text::digits_number(gutter_labels(n)[i]) == i + 1,
        gutter_labels(n)[i].len() <= max_label_len(n),
        gutter_labels(n)[i].len() <= 10 ==> gutter_labels(n)[i].len() <= gutter_width(n),
{
    crate::text::decimal_spells_the_number((i + 1) as nat);
    lemma_max_label_covers(n, (i + 1) as nat);
}

} // verus!
