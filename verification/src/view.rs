//! Screen geometry of the focused strip: where each visible pane is drawn,
//! which slice of its grid shows, and which pane a mouse position hits.

use vstd::prelude::*;
use crate::grid::Column;

verus! {

/// Rectangle in cells.
#[derive(Debug, Clone, Copy, PartialEq, Eq, Structural)]
pub struct Rect {
    pub x: u16,
    pub y: u16,
    pub w: u16,
    pub h: u16,
}

/// One visible pane on screen: where to draw it and which grid slice to show.
#[derive(Debug, Clone, Copy, PartialEq, Eq, Structural)]
pub struct PaneView {
    pub pid: u64,
    /// Index of the owning column in the focused strip.
    pub col: usize,
    /// Screen rect (already clipped to the viewport horizontally).
    pub rect: Rect,
    /// Grid column at the left edge of `rect` (before content scroll).
    pub col_x0: u16,
    /// Pane content scroll in cells.
    pub h_scroll: i32,
    /// Full logical content width of the grid.
    pub grid_cols: u16,
    /// Vertical size of the grid.
    pub grid_rows: u16,
}

/// A live pane's horizontal content scroll.
#[derive(Debug, Clone, Copy, PartialEq, Eq, Structural)]
pub struct PaneScroll {
    pub pid: u64,
    pub h_scroll: i32,
}

/// The grid-column window `[start, end)` that `w` screen cells reveal, given
/// the viewport offset `col_x0`, the content scroll `h_scroll`, and the
/// content width `grid_cols`; `None` when fully clipped.
pub open spec fn pane_window_spec(col_x0: u16, h_scroll: i32, w: u16, grid_cols: u16) -> Option<(u16, u16)> {
    let start: int = col_x0 + h_scroll;
    if start < 0 || start >= grid_cols {
        None
    } else {
        let end: int = if start + w <= grid_cols { start + w } else { grid_cols as int };
        if end <= start {
            None
        } else {
            Some((start as u16, end as u16))
        }
    }
}

/// The grid-column range `[start, end)` of a pane's content revealed by `w`
/// screen cells.
pub fn pane_window(col_x0: u16, h_scroll: i32, w: u16, grid_cols: u16) -> (r: Option<(u16, u16)>)
    ensures
        r == pane_window_spec(col_x0, h_scroll, w, grid_cols),
{
    let start: i64 = col_x0 as i64 + h_scroll as i64;
    if start < 0 || start >= grid_cols as i64 {
        return None;
    }
    let start: u16 = start as u16;
    let sum: u32 = start as u32 + w as u32;
    let end: u16 = if sum <= grid_cols as u32 { sum as u16 } else { grid_cols };
    if end <= start {
        None
    } else {
        Some((start, end))
    }
}

/// Where a column's content lands on screen: its left edge and visible
/// width, the grid column at that edge, and the grid's logical width.
#[derive(Debug, Clone, Copy, PartialEq, Eq, Structural)]
pub struct ColumnBox {
    pub left: u16,
    pub w: u16,
    pub col_x0: u16,
    pub grid_cols: u16,
}

/// The content box of the column spanning `[s, e)`: inside the frame ring
/// when `inset` (the last column pulls its right frame in to the screen's
/// last cell), clipped to the screen; `None` when nothing of it shows.
pub open spec fn column_box_spec(s: i32, e: i32, inset: bool, cols: u16, content_width: u16) -> Option<ColumnBox> {
    let b: int = if inset { 1 } else { 0 };
    let cs: int = s + b;
    let ce: int = if !inset { e as int } else if e <= cols - 1 { e as int } else { cols - 1 };
    if ce <= cs || ce <= 0 || cs >= cols {
        None
    } else {
        let left: int = if cs >= 0 { cs } else { 0 };
        let right: int = if ce <= cols { ce } else { cols as int };
        let wv: int = if right >= left { right - left } else { 0 };
        let full_w: u16 = (ce - cs) as u16;
        if wv == 0 {
            None
        } else {
            Some(ColumnBox {
                left: left as u16,
                w: wv as u16,
                col_x0: (left - cs) as u16,
                grid_cols: if full_w >= content_width { full_w } else { content_width },
            })
        }
    }
}

fn column_box(s: i32, e: i32, inset: bool, cols: u16, content_width: u16) -> (r: Option<ColumnBox>)
    ensures
        r == column_box_spec(s, e, inset, cols, content_width),
{
    let b: i64 = if inset { 1 } else { 0 };
    let cs: i64 = s as i64 + b;
    let last: i64 = cols as i64 - 1;
    let ce: i64 = if !inset { e as i64 } else if (e as i64) <= last { e as i64 } else { last };
    if ce <= cs || ce <= 0 || cs >= cols as i64 {
        return None;
    }
    let left: i64 = if cs >= 0 { cs } else { 0 };
    let right: i64 = if ce <= cols as i64 { ce } else { cols as i64 };
    let wv: i64 = if right >= left { right - left } else { 0 };
    let full_w: u16 = (ce - cs) as u16;
    if wv == 0 {
        return None;
    }
    Some(ColumnBox {
        left: left as u16,
        w: wv as u16,
        col_x0: (left - cs) as u16,
        grid_cols: if full_w >= content_width { full_w } else { content_width },
    })
}

/// The rows a strip offers its stacks: its height less any reserved
/// chrome rows (at least one).
pub open spec fn strip_height(rows: u16, chrome_rows: u16) -> int {
    let h: int = rows - chrome_rows;
    if h >= 1 { h } else { 1 }
}

/// The first row of a stack: just inside the top frame when inset.
pub open spec fn inner_top(inset: bool) -> int {
    if inset { 1 } else { 0 }
}

/// The rows a stack may fill: the strip less the top and bottom frame
/// rows when inset (at least one).
pub open spec fn inner_height(rows: u16, chrome_rows: u16, inset: bool) -> int {
    let h: int = strip_height(rows, chrome_rows) - 2 * inner_top(inset);
    if h >= 1 { h } else { 1 }
}

/// The rows left for `p` stacked panes once the one-row gaps between
/// them are taken.
pub open spec fn stack_avail(inner_h: int, p: int) -> int {
    let a: int = inner_h - (p - 1);
    if a >= 0 { a } else { 0 }
}

/// The height pane `k` of a stack of `p` wants: an equal share of the
/// available rows, the remainder handed out one row at a time from the top.
pub open spec fn stack_want(inner_h: int, p: int, k: int) -> int {
    let avail = stack_avail(inner_h, p);
    avail / p + if k < avail % p { 1int } else { 0 }
}

/// Where pane `k` of a stack starts: each pane below the one before it,
/// one gap row apart.
pub open spec fn stack_y(top: int, inner_h: int, p: int, k: nat) -> int
    decreases k,
{
    if k == 0 {
        top
    } else {
        stack_y(top, inner_h, p, (k - 1) as nat) + stack_want(inner_h, p, k - 1) + 1
    }
}

/// The height pane `k` is drawn at: what it wants, cut at the stack's
/// bottom (zero once the stack has run out of rows).
pub open spec fn stack_h(top: int, inner_h: int, p: int, k: nat) -> int {
    let y = stack_y(top, inner_h, p, k);
    let room = top + inner_h - y;
    let room0: int = if room >= 0 { room } else { 0 };
    let want = stack_want(inner_h, p, k as int);
    if want <= room0 { want } else { room0 }
}

/// The content scroll of pane `pid` (0 when it has no live emulator).
pub open spec fn scroll_of(scrolls: Seq<PaneScroll>, pid: u64) -> i32
    decreases scrolls.len(),
{
    if scrolls.len() == 0 {
        0
    } else if scrolls[0].pid == pid {
        scrolls[0].h_scroll
    } else {
        scroll_of(scrolls.drop_first(), pid)
    }
}

/// The parameters a column's views share.
pub struct StackGeom {
    pub top: int,
    pub inner_h: int,
    pub p: int,
}

/// The geometry of a stack of `n` panes.
pub open spec fn stack_geom(rows: u16, chrome_rows: u16, inset: bool, n: int) -> StackGeom {
    StackGeom {
        top: inner_top(inset),
        inner_h: inner_height(rows, chrome_rows, inset),
        p: if n >= 1 { n } else { 1 },
    }
}

/// The view of stack pane `k` of column `ci`.
pub open spec fn stack_view(ci: int, bx: ColumnBox, g: StackGeom, pid: u64, scrolls: Seq<PaneScroll>, k: nat) -> PaneView {
    let h = stack_h(g.top, g.inner_h, g.p, k);
    PaneView {
        pid,
        col: ci as usize,
        rect: Rect { x: bx.left, y: stack_y(g.top, g.inner_h, g.p, k) as u16, w: bx.w, h: h as u16 },
        col_x0: bx.col_x0,
        h_scroll: scroll_of(scrolls, pid),
        grid_cols: bx.grid_cols,
        grid_rows: h as u16,
    }
}

/// The views of the first `k` panes of a column's stack: one per pane that
/// gets at least one row, top to bottom.
pub open spec fn stack_views(ci: int, bx: ColumnBox, g: StackGeom, panes: Seq<u64>, scrolls: Seq<PaneScroll>, k: nat) -> Seq<PaneView>
    decreases k,
{
    if k == 0 {
        Seq::empty()
    } else {
        let prev = stack_views(ci, bx, g, panes, scrolls, (k - 1) as nat);
        if stack_h(g.top, g.inner_h, g.p, (k - 1) as nat) > 0 {
            prev.push(stack_view(ci, bx, g, panes[k - 1], scrolls, (k - 1) as nat))
        } else {
            prev
        }
    }
}

/// The views of column `ci` (none when its box does not show or the strip
/// has no such column).
pub open spec fn column_views(
    ranges: Seq<(i32, i32)>,
    columns: Seq<Column>,
    scrolls: Seq<PaneScroll>,
    cols: u16,
    rows: u16,
    content_width: u16,
    inset: bool,
    chrome_rows: u16,
    ci: int,
) -> Seq<PaneView> {
    match column_box_spec(ranges[ci].0, ranges[ci].1, inset, cols, content_width) {
        Some(bx) => if ci < columns.len() {
            let panes = columns[ci].panes@;
            stack_views(ci, bx, stack_geom(rows, chrome_rows, inset, panes.len() as int), panes, scrolls, panes.len())
        } else {
            Seq::empty()
        },
        None => Seq::empty(),
    }
}

/// The views of the first `n` column ranges, left to right.
pub open spec fn views_upto(
    ranges: Seq<(i32, i32)>,
    columns: Seq<Column>,
    scrolls: Seq<PaneScroll>,
    cols: u16,
    rows: u16,
    content_width: u16,
    inset: bool,
    chrome_rows: u16,
    n: nat,
) -> Seq<PaneView>
    decreases n,
{
    if n == 0 {
        Seq::empty()
    } else {
        views_upto(ranges, columns, scrolls, cols, rows, content_width, inset, chrome_rows, (n - 1) as nat)
            + column_views(ranges, columns, scrolls, cols, rows, content_width, inset, chrome_rows, n - 1)
    }
}

/// Every pane stack of the strip fits the machine's counters.
pub open spec fn stacks_fit(columns: Seq<Column>) -> bool {
    forall|i: int| 0 <= i < columns.len() ==> #[trigger] columns[i].panes@.len() <= i32::MAX
}

/// The content scroll of `pid`.
fn lookup_scroll(scrolls: &Vec<PaneScroll>, pid: u64) -> (h: i32)
    ensures
        h == scroll_of(scrolls@, pid),
{
    let mut i: usize = 0;
    proof {
        assert(scrolls@.skip(0) == scrolls@);
    }
    while i < scrolls.len()
        invariant
            i <= scrolls@.len(),
            scroll_of(scrolls@, pid) == scroll_of(scrolls@.skip(i as int), pid),
        decreases scrolls.len() - i,
    {
        proof {
            assert(scrolls@.skip(i as int).drop_first() == scrolls@.skip(i + 1));
        }
        if scrolls[i].pid == pid {
            return scrolls[i].h_scroll;
        }
        i = i + 1;
    }
    0
}

/// The views of one column's stack.
fn push_stack_views(
    out: &mut Vec<PaneView>,
    ci: usize,
    bx: ColumnBox,
    col: &Column,
    scrolls: &Vec<PaneScroll>,
    rows: u16,
    inset: bool,
    chrome_rows: u16,
)
    requires
        col.panes@.len() <= i32::MAX,
    ensures
        final(out)@ == old(out)@ + stack_views(
            ci as int,
            bx,
            stack_geom(rows, chrome_rows, inset, col.panes@.len() as int),
            col.panes@,
            scrolls@,
            col.panes@.len(),
        ),
{
    let ghost g = stack_geom(rows, chrome_rows, inset, col.panes@.len() as int);
    let n = col.panes.len();
    let p: i64 = if n >= 1 { n as i64 } else { 1 };
    let b: i64 = if inset { 1 } else { 0 };
    let strip_h: i64 = if rows as i64 - chrome_rows as i64 >= 1 { rows as i64 - chrome_rows as i64 } else { 1 };
    let inner_h: i64 = if strip_h - 2 * b >= 1 { strip_h - 2 * b } else { 1 };
    let inner_bottom: i64 = b + inner_h;
    let avail: i64 = if inner_h - (p - 1) >= 0 { inner_h - (p - 1) } else { 0 };
    let base: i64 = avail / p;
    let rem: i64 = avail % p;
    proof {
        assert(g.top == b && g.inner_h == inner_h && g.p == p);
        assert(stack_avail(g.inner_h, g.p) == avail);
        assert(base <= avail) by (nonlinear_arith)
            requires
                p >= 1,
                avail >= 0,
                base == avail / p,
        ;
        assert(0 <= base) by (nonlinear_arith)
            requires
                p >= 1,
                avail >= 0,
                base == avail / p,
        ;
    }
    let mut y: i64 = b;
    let mut k: usize = 0;
    let ghost start = out@;
    while k < n
        invariant
            n == col.panes@.len(),
            n <= i32::MAX,
            g == stack_geom(rows, chrome_rows, inset, n as int),
            g.top == b && g.inner_h == inner_h && g.p == p,
            1 <= p,
            0 <= avail,
            base == avail / p,
            rem == avail % p,
            avail == stack_avail(g.inner_h, g.p),
            avail <= inner_h,
            0 <= base <= avail,
            inner_bottom == b + inner_h,
            0 <= b <= 1,
            1 <= inner_h <= 65535,
            k <= n,
            y == stack_y(g.top, g.inner_h, g.p, k as nat),
            b <= y,
            y <= 1 + 65537 * k,
            out@ == start + stack_views(ci as int, bx, g, col.panes@, scrolls@, k as nat),
        decreases n - k,
    {
        let want: i64 = base + if (k as i64) < rem { 1 } else { 0 };
        proof {
            assert(want == stack_want(g.inner_h, g.p, k as int));
        }
        let row_y = y;
        let room: i64 = if inner_bottom - row_y >= 0 { inner_bottom - row_y } else { 0 };
        let h: i64 = if want <= room { want } else { room };
        proof {
            assert(h == stack_h(g.top, g.inner_h, g.p, k as nat));
        }
        if h > 0 {
            let pid = col.panes[k];
            let hs = lookup_scroll(scrolls, pid);
            let v = PaneView {
                pid,
                col: ci,
                rect: Rect { x: bx.left, y: row_y as u16, w: bx.w, h: h as u16 },
                col_x0: bx.col_x0,
                h_scroll: hs,
                grid_cols: bx.grid_cols,
                grid_rows: h as u16,
            };
            proof {
                assert(v == stack_view(ci as int, bx, g, col.panes@[k as int], scrolls@, k as nat));
            }
            out.push(v);
        }
        y = row_y + want + 1;
        k = k + 1;
        proof {
            assert(y == stack_y(g.top, g.inner_h, g.p, k as nat));
        }
    }
}

/// Compute the visible pane views of the focused strip from its column
/// ranges on screen (`ranges[i]` spans column `i`, already anchored to the
/// viewport), its columns' stacks and the live panes' content scroll.
///
/// With `inset` every pane's rect is shrunk by one cell on all sides of
/// its column box, so content sits inside the frame; a stack splits the
/// strip's height exactly, the remainder going one row at a time to the
/// top panes.
pub fn focused_pane_views_with_chrome(
    ranges: &Vec<(i32, i32)>,
    columns: &Vec<Column>,
    scrolls: &Vec<PaneScroll>,
    cols: u16,
    rows: u16,
    content_width: u16,
    inset: bool,
    chrome_rows: u16,
) -> (out: Vec<PaneView>)
    requires
        stacks_fit(columns@),
    ensures
        out@ == views_upto(ranges@, columns@, scrolls@, cols, rows, content_width, inset, chrome_rows, ranges@.len()),
{
    let mut out: Vec<PaneView> = Vec::new();
    let mut ci: usize = 0;
    while ci < ranges.len()
        invariant
            ci <= ranges@.len(),
            stacks_fit(columns@),
            out@ == views_upto(ranges@, columns@, scrolls@, cols, rows, content_width, inset, chrome_rows, ci as nat),
        decreases ranges.len() - ci,
    {
        let (s, e) = ranges[ci];
        let ghost before = out@;
        match column_box(s, e, inset, cols, content_width) {
            Some(bx) => {
                if ci < columns.len() {
                    let col = &columns[ci];
                    proof {
                        assert(columns@[ci as int].panes@.len() <= i32::MAX);
                    }
                    push_stack_views(&mut out, ci, bx, col, scrolls, rows, inset, chrome_rows);
                }
            },
            None => {},
        }
        proof {
            assert(out@ =~= before + column_views(ranges@, columns@, scrolls@, cols, rows, content_width, inset, chrome_rows, ci as int));
        }
        ci = ci + 1;
    }
    out
}

proof fn lemma_stack_y_closed(top: int, inner_h: int, p: int, k: nat)
    requires
        p >= 1,
    ensures
        ({
            let avail = stack_avail(inner_h, p);
            let base = avail / p;
            let rem = avail % p;
            stack_y(top, inner_h, p, k) == top + k * base + (if k <= rem { k as int } else { rem }) + k
        }),
    decreases k,
{
    if k > 0 {
        lemma_stack_y_closed(top, inner_h, p, (k - 1) as nat);
        let avail = stack_avail(inner_h, p);
        let base = avail / p;
        assert(k * base == (k - 1) * base + base) by (nonlinear_arith);
    }
}

/// A stack whose strip has room for every pane (at least one row each,
/// plus the gaps) tiles its column exactly: the first pane starts at the
/// top, each next pane starts one gap row below the one before, the last
/// pane ends at the bottom, and no two heights differ by more than a row.
pub proof fn stack_tiles_the_strip(top: int, inner_h: int, p: int)
    requires
        p >= 1,
        inner_h >= 2 * p - 1,
    ensures
        stack_y(top, inner_h, p, 0) == top,
        forall|k: nat| k < p ==> #[trigger] stack_h(top, inner_h, p, k) == stack_want(inner_h, p, k as int)
            && stack_h(top, inner_h, p, k) >= 1,
        forall|k: nat| k + 1 < p ==> #[trigger] stack_y(top, inner_h, p, k + 1)
            == stack_y(top, inner_h, p, k) + stack_h(top, inner_h, p, k) + 1,
        stack_y(top, inner_h, p, (p - 1) as nat) + stack_h(top, inner_h, p, (p - 1) as nat) == top + inner_h,
        forall|j: nat, k: nat| j < p && k < p ==> #[trigger] stack_h(top, inner_h, p, j) - #[trigger] stack_h(top, inner_h, p, k) <= 1,
{
    let avail = stack_avail(inner_h, p);
    let base = avail / p;
    let rem = avail % p;
    assert(avail == inner_h - (p - 1));
    assert(avail == p * base + rem && 0 <= rem < p) by (nonlinear_arith)
        requires
            p >= 1,
            avail >= 0,
            base == avail / p,
            rem == avail % p,
    ;
    assert(base >= 1) by (nonlinear_arith)
        requires
            p >= 1,
            avail >= p,
            base == avail / p,
    ;
    assert forall|k: nat| k < p implies #[trigger] stack_h(top, inner_h, p, k) == stack_want(inner_h, p, k as int)
        && stack_h(top, inner_h, p, k) >= 1 by {
        lemma_stack_y_closed(top, inner_h, p, k);
        let want = stack_want(inner_h, p, k as int);
        assert((k + 1) * base <= p * base) by (nonlinear_arith)
            requires
                k + 1 <= p,
                base >= 0,
        ;
        assert((k + 1) * base == k * base + base) by (nonlinear_arith);
        assert(stack_y(top, inner_h, p, k) + want <= top + inner_h);
    }
    assert forall|k: nat| k + 1 < p implies #[trigger] stack_y(top, inner_h, p, k + 1)
        == stack_y(top, inner_h, p, k) + stack_h(top, inner_h, p, k) + 1 by {
        assert(stack_h(top, inner_h, p, k) == stack_want(inner_h, p, k as int));
    }
    let last = (p - 1) as nat;
    lemma_stack_y_closed(top, inner_h, p, last);
    assert(stack_h(top, inner_h, p, last) == stack_want(inner_h, p, last as int));
    assert((p - 1) * base + base == p * base) by (nonlinear_arith);
    assert forall|j: nat, k: nat| j < p && k < p implies #[trigger] stack_h(top, inner_h, p, j)
        - #[trigger] stack_h(top, inner_h, p, k) <= 1 by {
        assert(stack_h(top, inner_h, p, j) == stack_want(inner_h, p, j as int));
        assert(stack_h(top, inner_h, p, k) == stack_want(inner_h, p, k as int));
    }
}

/// Every view of a column's stack has the column's box as its span.
proof fn lemma_stack_views_span(ci: int, bx: ColumnBox, g: StackGeom, panes: Seq<u64>, scrolls: Seq<PaneScroll>, k: nat)
    ensures
        forall|j: int|
            0 <= j < stack_views(ci, bx, g, panes, scrolls, k).len() ==> {
                let v = #[trigger] stack_views(ci, bx, g, panes, scrolls, k)[j];
                v.rect.x == bx.left && v.rect.w == bx.w && v.col == ci as usize
            },
    decreases k,
{
    if k > 0 {
        lemma_stack_views_span(ci, bx, g, panes, scrolls, (k - 1) as nat);
        let prev = stack_views(ci, bx, g, panes, scrolls, (k - 1) as nat);
        assert forall|j: int| 0 <= j < stack_views(ci, bx, g, panes, scrolls, k).len() implies {
            let v = #[trigger] stack_views(ci, bx, g, panes, scrolls, k)[j];
            v.rect.x == bx.left && v.rect.w == bx.w && v.col == ci as usize
        } by {
            if j < prev.len() {
                assert(stack_views(ci, bx, g, panes, scrolls, k)[j] == prev[j]);
            }
        }
    }
}

/// Pane content never spills past its column's frame or the screen edge:
/// with the frame inset, every view starts right of its column's left
/// boundary and ends at or before the column's right boundary and the
/// screen's last column.
pub proof fn content_stays_inside_its_column(
    ranges: Seq<(i32, i32)>,
    columns: Seq<Column>,
    scrolls: Seq<PaneScroll>,
    cols: u16,
    rows: u16,
    content_width: u16,
    chrome_rows: u16,
    n: nat,
)
    requires
        n <= ranges.len(),
        n <= usize::MAX,
    ensures
        forall|k: int|
            0 <= k < views_upto(ranges, columns, scrolls, cols, rows, content_width, true, chrome_rows, n).len() ==> {
                let v = #[trigger] views_upto(ranges, columns, scrolls, cols, rows, content_width, true, chrome_rows, n)[k];
                &&& v.col < n
                &&& ranges[v.col as int].0 + 1 <= v.rect.x
                &&& v.rect.x + v.rect.w <= ranges[v.col as int].1
                &&& v.rect.x + v.rect.w < cols
            },
    decreases n,
{
    if n > 0 {
        let ci = n - 1;
        content_stays_inside_its_column(ranges, columns, scrolls, cols, rows, content_width, chrome_rows, (n - 1) as nat);
        let prev = views_upto(ranges, columns, scrolls, cols, rows, content_width, true, chrome_rows, (n - 1) as nat);
        let cur = column_views(ranges, columns, scrolls, cols, rows, content_width, true, chrome_rows, ci);
        let all = views_upto(ranges, columns, scrolls, cols, rows, content_width, true, chrome_rows, n);
        match column_box_spec(ranges[ci].0, ranges[ci].1, true, cols, content_width) {
            Some(bx) => {
                if ci < columns.len() {
                    let panes = columns[ci].panes@;
                    lemma_stack_views_span(ci, bx, stack_geom(rows, chrome_rows, true, panes.len() as int), panes, scrolls, panes.len());
                }
                assert(ranges[ci].0 + 1 <= bx.left && bx.left + bx.w <= ranges[ci].1 && bx.left + bx.w < cols);
            },
            None => {},
        }
        assert forall|k: int| 0 <= k < all.len() implies {
            let v = #[trigger] all[k];
            &&& v.col < n
            &&& ranges[v.col as int].0 + 1 <= v.rect.x
            &&& v.rect.x + v.rect.w <= ranges[v.col as int].1
            &&& v.rect.x + v.rect.w < cols
        } by {
            if k < prev.len() {
                assert(all[k] == prev[k]);
            } else {
                assert(all[k] == cur[k - prev.len()]);
            }
        }
    }
}

/// The views with no chrome rows reserved.
pub fn focused_pane_views(
    ranges: &Vec<(i32, i32)>,
    columns: &Vec<Column>,
    scrolls: &Vec<PaneScroll>,
    cols: u16,
    rows: u16,
    content_width: u16,
    inset: bool,
) -> (out: Vec<PaneView>)
    requires
        stacks_fit(columns@),
    ensures
        out@ == views_upto(ranges@, columns@, scrolls@, cols, rows, content_width, inset, 0, ranges@.len()),
{
    focused_pane_views_with_chrome(ranges, columns, scrolls, cols, rows, content_width, inset, 0)
}

/// Whether the screen cell `(x, y)` lies in `r`.
pub open spec fn rect_contains(r: Rect, x: u16, y: u16) -> bool {
    r.x <= x < r.x + r.w && r.y <= y < r.y + r.h
}

/// The grid cell of `v` under the screen cell `(x, y)`, when `(x, y)` is
/// in `v`'s rect and maps inside its content.
pub open spec fn hit_spec(v: PaneView, x: u16, y: u16) -> Option<(u64, u16, u16)> {
    if rect_contains(v.rect, x, y) {
        let gx: int = (x - v.rect.x) + v.col_x0 + v.h_scroll;
        if gx < 0 || gx >= v.grid_cols {
            None
        } else {
            Some((v.pid, gx as u16, (y - v.rect.y) as u16))
        }
    } else {
        None
    }
}

/// The first hit among `views[from..]`.
pub open spec fn pane_at_from(views: Seq<PaneView>, x: u16, y: u16, from: int) -> Option<(u64, u16, u16)>
    decreases views.len() - from,
{
    if from < 0 || from >= views.len() {
        None
    } else {
        match hit_spec(views[from], x, y) {
            Some(h) => Some(h),
            None => pane_at_from(views, x, y, from + 1),
        }
    }
}

/// The pane whose on-screen rect contains `(x, y)`, plus the cell
/// coordinates inside that pane's grid.
pub fn pane_at(views: &Vec<PaneView>, x: u16, y: u16) -> (r: Option<(u64, u16, u16)>)
    ensures
        r == pane_at_from(views@, x, y, 0),
{
    let mut i: usize = 0;
    while i < views.len()
        invariant
            i <= views@.len(),
            pane_at_from(views@, x, y, 0) == pane_at_from(views@, x, y, i as int),
        decreases views.len() - i,
    {
        let v = views[i];
        let r = v.rect;
        let inside = x >= r.x && (x as u32) < r.x as u32 + r.w as u32 && y >= r.y && (y as u32) < r.y as u32 + r.h as u32;
        if inside {
            let gx: i64 = (x - r.x) as i64 + v.col_x0 as i64 + v.h_scroll as i64;
            if !(gx < 0 || gx >= v.grid_cols as i64) {
                return Some((v.pid, gx as u16, y - r.y));
            }
        }
        i = i + 1;
    }
    None
}

/// `v` clamped to `[lo, hi]`.
pub open spec fn clamp(v: int, lo: int, hi: int) -> int {
    if v < lo { lo } else if v > hi { hi } else { v }
}

/// The first view of pane `pid` among `views[from..]`.
pub open spec fn view_of_from(views: Seq<PaneView>, pid: u64, from: int) -> Option<PaneView>
    decreases views.len() - from,
{
    if from < 0 || from >= views.len() {
        None
    } else if views[from].pid == pid {
        Some(views[from])
    } else {
        view_of_from(views, pid, from + 1)
    }
}

/// `(x, y)` resolved inside `v`, a point outside its rect clamped to the
/// nearest edge cell and the grid column clamped to the content.
pub open spec fn clamped_point_spec(v: PaneView, x: u16, y: u16) -> (u64, u16, u16) {
    let r = v.rect;
    let sx = clamp(x as int, r.x as int, r.x + (if r.w >= 1 { r.w - 1 } else { 0 }));
    let sy = clamp(y as int, r.y as int, r.y + (if r.h >= 1 { r.h - 1 } else { 0 }));
    let gmax: int = if v.grid_cols >= 1 { v.grid_cols - 1 } else { 0 };
    let gx = clamp((sx - r.x) + v.col_x0 + v.h_scroll, 0, gmax);
    (v.pid, gx as u16, (sy - r.y) as u16)
}

/// The last cell of `r` on each axis is addressable.
pub open spec fn edges_fit(r: Rect) -> bool {
    r.x + (if r.w >= 1 { r.w - 1 } else { 0 }) <= u16::MAX && r.y + (if r.h >= 1 { r.h - 1 } else { 0 }) <= u16::MAX
}

/// Resolve `(x, y)` inside `pid`'s view, clamping a point that has wandered
/// outside the pane's rect to its nearest edge cell, so a drag that leaves
/// the pane still extends its selection.
pub fn clamped_pane_point(views: &Vec<PaneView>, pid: u64, x: u16, y: u16) -> (r: Option<(u64, u16, u16)>)
    requires
        forall|i: int| 0 <= i < views@.len() ==> #[trigger] edges_fit(views@[i].rect),
    ensures
        r == match view_of_from(views@, pid, 0) {
            Some(v) => Some(clamped_point_spec(v, x, y)),
            None => None,
        },
{
    let mut i: usize = 0;
    while i < views.len()
        invariant
            i <= views@.len(),
            forall|i: int| 0 <= i < views@.len() ==> #[trigger] edges_fit(views@[i].rect),
            view_of_from(views@, pid, 0) == view_of_from(views@, pid, i as int),
        decreases views.len() - i,
    {
        if views[i].pid == pid {
            let v = views[i];
            let r = v.rect;
            proof {
                assert(edges_fit(views@[i as int].rect));
            }
            let xhi: u16 = r.x + if r.w >= 1 { r.w - 1 } else { 0 };
            let yhi: u16 = r.y + if r.h >= 1 { r.h - 1 } else { 0 };
            let sx: u16 = if x < r.x { r.x } else if x > xhi { xhi } else { x };
            let sy: u16 = if y < r.y { r.y } else if y > yhi { yhi } else { y };
            let raw: i64 = (sx - r.x) as i64 + v.col_x0 as i64 + v.h_scroll as i64;
            let gmax: i64 = if v.grid_cols >= 1 { v.grid_cols as i64 - 1 } else { 0 };
            let gx: i64 = if raw < 0 { 0 } else if raw > gmax { gmax } else { raw };
            return Some((pid, gx as u16, sy - r.y));
        }
        i = i + 1;
    }
    None
}

/// The columns of a strip whose span overlaps the viewport window
/// `[start, start + cols)`: the index of the first and of the last,
/// scanning `ranges[..k]`.
pub open spec fn overlap_scan(ranges: Seq<(u32, u32)>, start: int, end: int, k: nat) -> (Option<usize>, usize)
    decreases k,
{
    if k == 0 {
        (None, 0usize)
    } else {
        let prev = overlap_scan(ranges, start, end, (k - 1) as nat);
        let r = ranges[k - 1];
        if r.1 > start && r.0 < end {
            (if prev.0 is None { Some((k - 1) as usize) } else { prev.0 }, (k - 1) as usize)
        } else {
            prev
        }
    }
}

/// The inclusive column-index range of a strip currently on screen, given
/// the strip's column spans and its scroll, or `None` when the whole strip
/// fits (the viewport *is* the strip).
pub open spec fn visible_range_spec(ranges: Seq<(u32, u32)>, scroll_x: i32, cols: u16) -> Option<(usize, usize)> {
    let total: int = if ranges.len() > 0 { ranges.last().1 as int } else { 0 };
    if total <= cols {
        None
    } else {
        let max_scroll = total - cols;
        let s0: int = if scroll_x >= 0 { scroll_x as int } else { 0 };
        let start = if s0 <= max_scroll { s0 } else { max_scroll };
        let sc = overlap_scan(ranges, start, start + cols, ranges.len());
        match sc.0 {
            Some(f) => Some((f, sc.1)),
            None => None,
        }
    }
}

/// The inclusive range of column indices of a strip that are on screen.
pub fn visible_column_range(ranges: &Vec<(u32, u32)>, scroll_x: i32, cols: u16) -> (r: Option<(usize, usize)>)
    ensures
        r == visible_range_spec(ranges@, scroll_x, cols),
{
    let n = ranges.len();
    let total: u32 = if n > 0 { ranges[n - 1].1 } else { 0 };
    if total <= cols as u32 {
        return None;
    }
    let max_scroll: u32 = total - cols as u32;
    let s0: u32 = if scroll_x >= 0 { scroll_x as u32 } else { 0 };
    let start: u32 = if s0 <= max_scroll { s0 } else { max_scroll };
    let end: u32 = start + cols as u32;
    let mut first: Option<usize> = None;
    let mut last: usize = 0;
    let mut i: usize = 0;
    while i < n
        invariant
            n == ranges@.len(),
            i <= n,
            (first, last) == overlap_scan(ranges@, start as int, end as int, i as nat),
        decreases n - i,
    {
        let (s, e) = ranges[i];
        if e > start && s < end {
            if first.is_none() {
                first = Some(i);
            }
            last = i;
        }
        i = i + 1;
    }
    match first {
        Some(f) => Some((f, last)),
        None => None,
    }
}

/// A click lands on the grid cell the pane shows there: inside a pane's
/// rect, the grid column under screen column `x` is the first column
/// `pane_window` reveals (the viewport offset plus the content scroll) plus
/// how far `x` is from the rect's left edge, and the grid row is the
/// distance from its top; a screen cell right of the content (past the
/// revealed window, or with nothing revealed at all) is no hit. The first
/// view listed that `(x, y)` hits is the one `pane_at` reports.
pub proof fn a_click_lands_on_the_cell_it_shows(views: Seq<PaneView>, x: u16, y: u16)
    requires
        views.len() > 0,
        rect_contains(views[0].rect, x, y),
    ensures
        ({
            let v = views[0];
            let dx = x - v.rect.x;
            match pane_window_spec(v.col_x0, v.h_scroll, v.rect.w, v.grid_cols) {
                Some((start, end)) => {
                    &&& dx < end - start ==> pane_at_from(views, x, y, 0) == Some(
                        (v.pid, (start + dx) as u16, (y - v.rect.y) as u16),
                    )
                    &&& dx >= end - start ==> hit_spec(v, x, y) is None
                },
                None => v.col_x0 + v.h_scroll >= 0 ==> hit_spec(v, x, y) is None,
            }
        }),
{
}

/// The window a pane reveals starts at the viewport offset plus the
/// content scroll, lies inside the content, and is as wide as the screen
/// cells allow: all `w` of them, or up to the content's end.
pub proof fn the_window_is_the_visible_slice_of_the_content(col_x0: u16, h_scroll: i32, w: u16, grid_cols: u16)
    ensures
        pane_window_spec(col_x0, h_scroll, w, grid_cols) matches Some((s, e)) ==> {
            &&& s == col_x0 + h_scroll
            &&& s < e <= grid_cols
            &&& e - s <= w
            &&& (e - s == w || e == grid_cols)
        },
        pane_window_spec(col_x0, h_scroll, w, grid_cols) is None ==> (col_x0 + h_scroll < 0 || col_x0 + h_scroll
            >= grid_cols || w == 0),
{
}

/// A drag resolved against its pane always lands on a real cell of it: a
/// grid row inside the pane's rect and a grid column inside its content;
/// and a point the pane's rect holds resolves exactly as a click there.
pub proof fn a_drag_stays_on_its_pane(v: PaneView, x: u16, y: u16)
    requires
        edges_fit(v.rect),
        v.rect.w >= 1 && v.rect.h >= 1,
        v.grid_cols >= 1,
    ensures
        clamped_point_spec(v, x, y).0 == v.pid,
        clamped_point_spec(v, x, y).1 < v.grid_cols,
        clamped_point_spec(v, x, y).2 < v.rect.h,
        hit_spec(v, x, y) matches Some(h) ==> clamped_point_spec(v, x, y) == h,
{
}

} // verus!
