//! The facts the TUI reads from the pane layout: strips of columns of
//! stacked panes, the focus, and each pane's status; and the decisions
//! made from them (which pane is focused, where a smart jump lands, what
//! the dashboard tallies).

use vstd::prelude::*;
use crate::status::{wants_attention, PaneStatus, status_glyph, status_glyph_for};
use crate::text::{decimal, push_decimal, string_of};

verus! {

/// A column: the panes stacked in it, top to bottom.
#[derive(Debug, Clone, PartialEq, Eq)]
pub struct Column {
    pub panes: Vec<u64>,
}

/// A strip (a row of the grid): its id, its name, its horizontal scroll,
/// and its columns left to right.
#[derive(Debug, Clone, PartialEq, Eq)]
pub struct Strip {
    pub id: u64,
    pub name: String,
    pub scroll_x: i32,
    pub columns: Vec<Column>,
}

/// Where focus is: the focused strip's id, and the column and stack
/// position within it.
#[derive(Debug, Clone, Copy, PartialEq, Eq, Structural)]
pub struct Focus {
    pub row: u64,
    pub column: usize,
    pub pane: usize,
}

/// A pane known to the layout, with its status.
#[derive(Debug, Clone, Copy, PartialEq, Eq, Structural)]
pub struct PaneInfo {
    pub id: u64,
    pub status: PaneStatus,
}

/// The layout as the TUI reads it.
#[derive(Debug, Clone, PartialEq, Eq)]
pub struct Layout {
    pub rows: Vec<Strip>,
    pub focus: Focus,
    pub panes: Vec<PaneInfo>,
}

/// The index of the first strip with id `id`, searching from `from`.
pub open spec fn row_index_from(rows: Seq<Strip>, id: u64, from: int) -> Option<int>
    decreases rows.len() - from,
{
    if from < 0 || from >= rows.len() {
        None
    } else if rows[from].id == id {
        Some(from)
    } else {
        row_index_from(rows, id, from + 1)
    }
}

/// The index of the focused strip.
pub open spec fn focused_row_index(l: Layout) -> Option<int> {
    row_index_from(l.rows@, l.focus.row, 0)
}

/// The focused pane: the pane at the focus position, when the focused
/// strip, column and stack position all exist.
pub open spec fn focused_pane_spec(l: Layout) -> Option<u64> {
    match focused_row_index(l) {
        Some(r) => {
            let cols = l.rows@[r].columns@;
            if l.focus.column < cols.len() && l.focus.pane < cols[l.focus.column as int].panes@.len() {
                Some(cols[l.focus.column as int].panes@[l.focus.pane as int])
            } else {
                None
            }
        },
        None => None,
    }
}

proof fn lemma_row_index_from(rows: Seq<Strip>, id: u64, from: int)
    requires
        0 <= from,
    ensures
        row_index_from(rows, id, from) matches Some(r) ==> from <= r < rows.len() && rows[r].id == id
            && forall|k: int| from <= k < r ==> rows[k].id != id,
        row_index_from(rows, id, from) is None ==> forall|k: int| from <= k < rows.len() ==> rows[k].id != id,
    decreases rows.len() - from,
{
    if from < rows.len() && rows[from].id != id {
        lemma_row_index_from(rows, id, from + 1);
    }
}

/// The index of the focused strip.
pub fn focused_row(l: &Layout) -> (r: Option<usize>)
    ensures
        match r {
            Some(i) => focused_row_index(*l) == Some(i as int) && i < l.rows@.len(),
            None => focused_row_index(*l) is None,
        },
{
    let mut i: usize = 0;
    while i < l.rows.len()
        invariant
            i <= l.rows@.len(),
            focused_row_index(*l) == row_index_from(l.rows@, l.focus.row, i as int),
        decreases l.rows.len() - i,
    {
        if l.rows[i].id == l.focus.row {
            return Some(i);
        }
        i = i + 1;
    }
    None
}

/// The currently focused pane id.
pub fn focused_pane(l: &Layout) -> (r: Option<u64>)
    ensures
        r == focused_pane_spec(*l),
{
    match focused_row(l) {
        Some(ri) => {
            let row = &l.rows[ri];
            if l.focus.column < row.columns.len() {
                let col = &row.columns[l.focus.column];
                if l.focus.pane < col.panes.len() {
                    return Some(col.panes[l.focus.pane]);
                }
            }
            None
        },
        None => None,
    }
}

/// The 1-based position of the focused strip in the stack (1 when no strip
/// has the focused id). Positions, not ids: ids only ever grow.
pub fn strip_number(l: &Layout) -> (n: usize)
    ensures
        n == match focused_row_index(*l) {
            Some(r) => r + 1,
            None => 1,
        },
{
    let n = l.rows.len();
    match focused_row(l) {
        Some(i) => i + 1,
        None => 1,
    }
}

/// The panes of a list of columns, in order.
pub open spec fn columns_panes(cols: Seq<Column>) -> Seq<u64>
    decreases cols.len(),
{
    if cols.len() == 0 {
        Seq::empty()
    } else {
        columns_panes(cols.drop_last()) + cols.last().panes@
    }
}

/// The panes of a list of strips in reading order: strips top-down,
/// columns left to right, stacks top-down.
pub open spec fn rows_panes(rows: Seq<Strip>) -> Seq<u64>
    decreases rows.len(),
{
    if rows.len() == 0 {
        Seq::empty()
    } else {
        rows_panes(rows.drop_last()) + columns_panes(rows.last().columns@)
    }
}

/// Every pane of the grid in reading order.
pub open spec fn reading_order(l: Layout) -> Seq<u64> {
    rows_panes(l.rows@)
}

/// Total number of panes in the grid.
pub fn layout_pane_count(l: &Layout) -> (n: usize)
    requires
        reading_order(*l).len() <= usize::MAX,
    ensures
        n == reading_order(*l).len(),
{
    let order = pane_order(l);
    order.len()
}

/// Append `v`'s elements to `out`.
fn push_ids(out: &mut Vec<u64>, v: &Vec<u64>)
    ensures
        final(out)@ == old(out)@ + v@,
{
    let mut i: usize = 0;
    while i < v.len()
        invariant
            i <= v@.len(),
            out@ == old(out)@ + v@.take(i as int),
        decreases v.len() - i,
    {
        out.push(v[i]);
        i = i + 1;
        proof {
            assert(v@.take(i as int) == v@.take(i - 1).push(v@[i - 1]));
        }
    }
    proof {
        assert(v@.take(i as int) == v@);
    }
}

/// Every pane of the grid in reading order.
pub fn pane_order(l: &Layout) -> (order: Vec<u64>)
    ensures
        order@ == reading_order(*l),
{
    let mut out: Vec<u64> = Vec::new();
    let mut r: usize = 0;
    while r < l.rows.len()
        invariant
            r <= l.rows@.len(),
            out@ == rows_panes(l.rows@.take(r as int)),
        decreases l.rows.len() - r,
    {
        let ghost before = out@;
        let cols = &l.rows[r].columns;
        let mut c: usize = 0;
        while c < cols.len()
            invariant
                c <= cols@.len(),
                out@ == before + columns_panes(cols@.take(c as int)),
            decreases cols.len() - c,
        {
            push_ids(&mut out, &cols[c].panes);
            c = c + 1;
            proof {
                assert(cols@.take(c as int).drop_last() == cols@.take(c - 1));
                assert(out@ =~= before + columns_panes(cols@.take(c as int)));
            }
        }
        r = r + 1;
        proof {
            assert(cols@.take(c as int) == cols@);
            assert(l.rows@.take(r as int).drop_last() == l.rows@.take(r - 1));
            assert(out@ =~= rows_panes(l.rows@.take(r as int)));
        }
    }
    proof {
        assert(l.rows@.take(r as int) == l.rows@);
    }
    out
}

/// The status the layout records for pane `id`: the first entry for it.
pub open spec fn status_in(ps: Seq<PaneInfo>, id: u64) -> Option<PaneStatus>
    decreases ps.len(),
{
    if ps.len() == 0 {
        None
    } else if ps[0].id == id {
        Some(ps[0].status)
    } else {
        status_in(ps.drop_first(), id)
    }
}

/// The status of pane `id`, if the layout knows it.
pub fn pane_status(l: &Layout, id: u64) -> (r: Option<PaneStatus>)
    ensures
        r == status_in(l.panes@, id),
{
    let mut i: usize = 0;
    proof {
        assert(l.panes@.skip(0) == l.panes@);
    }
    while i < l.panes.len()
        invariant
            i <= l.panes@.len(),
            status_in(l.panes@, id) == status_in(l.panes@.skip(i as int), id),
        decreases l.panes.len() - i,
    {
        proof {
            assert(l.panes@.skip(i as int).drop_first() == l.panes@.skip(i + 1));
        }
        if l.panes[i].id == id {
            return Some(l.panes[i].status);
        }
        i = i + 1;
    }
    None
}

/// How urgently a status wants the user: Failed before Idle before Done;
/// a Running pane is never a smart-jump target.
pub open spec fn urgency(s: PaneStatus) -> Option<u8> {
    match s {
        PaneStatus::Failed => Some(0u8),
        PaneStatus::Idle => Some(1u8),
        PaneStatus::Done => Some(2u8),
        PaneStatus::Running => None,
    }
}

/// Where the walk for a smart jump starts: just past the focused pane in
/// reading order (the start when there is none).
pub open spec fn jump_start(order: Seq<u64>, focused: Option<u64>) -> int {
    match focused {
        Some(f) => if exists|i: int| 0 <= i < order.len() && order[i] == f {
            (choose|i: int| 0 <= i < order.len() && order[i] == f && forall|j: int| 0 <= j < i ==> order[j] != f) + 1
        } else {
            0
        },
        None => 0,
    }
}

/// The pane `k` steps into the walk that starts at `start` (at most the
/// length) and wraps around the end once.
pub open spec fn walk_at(order: Seq<u64>, start: int, k: int) -> u64 {
    if start + k < order.len() {
        order[start + k]
    } else {
        order[start + k - order.len()]
    }
}

/// The urgency of the pane `k` steps into the walk, if it is a candidate:
/// not the focused pane, known to the layout, and not Running.
pub open spec fn candidate_rank(l: Layout, k: int) -> Option<u8> {
    let order = reading_order(l);
    let f = focused_pane_spec(l);
    let pid = walk_at(order, jump_start(order, f), k);
    if f == Some(pid) {
        None
    } else {
        match status_in(l.panes@, pid) {
            Some(s) => urgency(s),
            None => None,
        }
    }
}

/// Whether candidate `k` beats candidate `k2`: more urgent, or as urgent
/// and nearer in the walk.
pub open spec fn beats_or_ties(l: Layout, k: int, k2: int) -> bool {
    let r = candidate_rank(l, k)->0;
    let r2 = candidate_rank(l, k2)->0;
    r < r2 || (r == r2 && k <= k2)
}

/// The urgency of `pid` as a jump candidate, given the focused pane.
fn rank_of(l: &Layout, focused: Option<u64>, pid: u64) -> (r: Option<u8>)
    ensures
        r == (if focused == Some(pid) {
            None
        } else {
            match status_in(l.panes@, pid) {
                Some(s) => urgency(s),
                None => None,
            }
        }),
{
    if focused == Some(pid) {
        return None;
    }
    match pane_status(l, pid) {
        Some(PaneStatus::Failed) => Some(0u8),
        Some(PaneStatus::Idle) => Some(1u8),
        Some(PaneStatus::Done) => Some(2u8),
        _ => None,
    }
}

/// Pick the pane a smart jump (`⌥+g`) should land on: the next pane, in
/// reading order starting just past the focused one and wrapping, whose
/// status needs the user, Failed before Idle before Done, nearer first.
/// `None` when every other pane is working.
#[verifier::rlimit(40)]
pub fn smart_jump_target(l: &Layout) -> (r: Option<u64>)
    ensures
        ({
            let n = reading_order(*l).len() as int;
            let start = jump_start(reading_order(*l), focused_pane_spec(*l));
            match r {
                None => forall|k: int| 0 <= k < n ==> candidate_rank(*l, k) is None,
                Some(p) => exists|k: int|
                    0 <= k < n && candidate_rank(*l, k) is Some && walk_at(reading_order(*l), start, k) == p
                        && forall|k2: int| 0 <= k2 < n && #[trigger] candidate_rank(*l, k2) is Some ==> beats_or_ties(*l, k, k2),
            }
        }),
{
    let focused = focused_pane(l);
    let order = pane_order(l);
    let n = order.len();
    let ghost gorder = order@;
    let mut start: usize = 0;
    match focused {
        Some(f) => {
            let mut i: usize = 0;
            while i < n && order[i] != f
                invariant
                    n == order@.len(),
                    i <= n,
                    forall|j: int| 0 <= j < i ==> order@[j] != f,
                decreases n - i,
            {
                i = i + 1;
            }
            if i < n {
                start = i + 1;
                proof {
                    assert(exists|i: int| 0 <= i < gorder.len() && gorder[i] == f);
                    let c = choose|c: int| 0 <= c < gorder.len() && gorder[c] == f && forall|j: int| 0 <= j < c ==> gorder[j] != f;
                    assert(c == i) by {
                        if c < i {
                        } else if c > i {
                        }
                    }
                }
            } else {
                proof {
                    assert(!exists|i: int| 0 <= i < gorder.len() && gorder[i] == f);
                }
            }
        },
        None => {},
    }
    proof {
        assert(start == jump_start(gorder, focused_pane_spec(*l)));
    }
    let mut best: Option<(u8, usize, u64)> = None;
    let mut k: usize = 0;
    while k < n
        invariant
            n == gorder.len(),
            gorder == order@,
            gorder == reading_order(*l),
            focused == focused_pane_spec(*l),
            start == jump_start(gorder, focused),
            start <= n,
            k <= n,
            match best {
                None => forall|k2: int| 0 <= k2 < k ==> candidate_rank(*l, k2) is None,
                Some((br, bk, bp)) => {
                    &&& bk < k
                    &&& candidate_rank(*l, bk as int) == Some(br)
                    &&& walk_at(gorder, start as int, bk as int) == bp
                    &&& forall|k2: int| 0 <= k2 < k && #[trigger] candidate_rank(*l, k2) is Some ==> beats_or_ties(*l, bk as int, k2)
                },
            },
        decreases n - k,
    {
        let i: usize = if k < n - start { start + k } else { k - (n - start) };
        let pid = order[i];
        let rank = rank_of(l, focused, pid);
        proof {
            assert(pid == walk_at(gorder, start as int, k as int));
            assert(rank == candidate_rank(*l, k as int));
        }
        let ghost old_best = best;
        match rank {
            Some(rk) => {
                let better = match best {
                    None => true,
                    Some((br, bk, _)) => rk < br,
                };
                if better {
                    best = Some((rk, k, pid));
                }
            },
            None => {},
        }
        proof {
            match best {
                None => {
                    assert forall|k2: int| 0 <= k2 < k + 1 implies candidate_rank(*l, k2) is None by {
                        if k2 < k {
                        }
                    }
                },
                Some((br, bk, bp)) => {
                    assert forall|k2: int| 0 <= k2 < k + 1 && #[trigger] candidate_rank(*l, k2) is Some implies beats_or_ties(*l, bk as int, k2) by {
                        if k2 < k {
                            match old_best {
                                Some((obr, obk, _)) => {
                                    assert(beats_or_ties(*l, obk as int, k2));
                                },
                                None => {},
                            }
                        }
                    }
                },
            }
        }
        k = k + 1;
    }
    match best {
        Some((_, bk, bp)) => {
            proof {
                assert(candidate_rank(*l, bk as int) is Some);
            }
            Some(bp)
        },
        None => None,
    }
}

/// Whether any pane the layout knows wants the user (Idle or Failed).
pub fn has_attention(l: &Layout) -> (b: bool)
    ensures
        b == exists|i: int| 0 <= i < l.panes@.len() && wants_attention(#[trigger] l.panes@[i].status),
{
    let mut i: usize = 0;
    while i < l.panes.len()
        invariant
            i <= l.panes@.len(),
            forall|j: int| 0 <= j < i ==> !wants_attention(#[trigger] l.panes@[j].status),
        decreases l.panes.len() - i,
    {
        let s = l.panes[i].status;
        if matches!(s, PaneStatus::Idle | PaneStatus::Failed) {
            return true;
        }
        i = i + 1;
    }
    false
}

/// The most columns any strip has, and at least 1.
pub open spec fn widest_strip(rows: Seq<Strip>) -> nat
    decreases rows.len(),
{
    if rows.len() == 0 {
        1
    } else {
        let rest = widest_strip(rows.drop_last());
        let w = rows.last().columns@.len();
        if w > rest { w } else { rest }
    }
}

/// The most columns any single strip has (at least 1), so the dashboard
/// keeps its size as focus moves between strips.
pub fn layout_widest_strip(l: &Layout) -> (w: usize)
    ensures
        w == widest_strip(l.rows@),
{
    let mut w: usize = 1;
    let mut i: usize = 0;
    while i < l.rows.len()
        invariant
            i <= l.rows@.len(),
            w == widest_strip(l.rows@.take(i as int)),
        decreases l.rows.len() - i,
    {
        proof {
            assert(l.rows@.take(i + 1).drop_last() == l.rows@.take(i as int));
        }
        let c = l.rows[i].columns.len();
        if c > w {
            w = c;
        }
        i = i + 1;
    }
    proof {
        assert(l.rows@.take(i as int) == l.rows@);
    }
    w
}

/// How many of the layout's panes have status `s`.
pub open spec fn count_status(ps: Seq<PaneInfo>, s: PaneStatus) -> nat
    decreases ps.len(),
{
    if ps.len() == 0 {
        0
    } else {
        count_status(ps.drop_last(), s) + if ps.last().status == s { 1nat } else { 0 }
    }
}

/// One tally segment: ` <glyph><count>` for a status that has panes.
pub open spec fn tally_segment(ps: Seq<PaneInfo>, s: PaneStatus) -> Seq<(Seq<char>, Option<PaneStatus>)> {
    let n = count_status(ps, s);
    if n > 0 {
        seq![(seq![' ', status_glyph(s)] + decimal(n), Some(s))]
    } else {
        Seq::empty()
    }
}

/// The dashboard footer tally: the pane count, then one segment per
/// status that has any panes, in the order Running, Idle, Done, Failed.
pub open spec fn tally_spec(ps: Seq<PaneInfo>) -> Seq<(Seq<char>, Option<PaneStatus>)> {
    seq![(decimal(ps.len()), None::<PaneStatus>)] + tally_segment(ps, PaneStatus::Running)
        + tally_segment(ps, PaneStatus::Idle) + tally_segment(ps, PaneStatus::Done)
        + tally_segment(ps, PaneStatus::Failed)
}

/// The view of a tally.
pub open spec fn tally_view(v: Seq<(String, Option<PaneStatus>)>) -> Seq<(Seq<char>, Option<PaneStatus>)> {
    v.map_values(|e: (String, Option<PaneStatus>)| (e.0@, e.1))
}

pub proof fn lemma_count_status_bound(ps: Seq<PaneInfo>, s: PaneStatus)
    ensures
        count_status(ps, s) <= ps.len(),
    decreases ps.len(),
{
    if ps.len() > 0 {
        lemma_count_status_bound(ps.drop_last(), s);
    }
}

/// The number of the layout's panes with status `s`.
fn count_panes_with(ps: &Vec<PaneInfo>, s: PaneStatus) -> (n: usize)
    ensures
        n == count_status(ps@, s),
{
    let mut n: usize = 0;
    let mut i: usize = 0;
    while i < ps.len()
        invariant
            i <= ps@.len(),
            n == count_status(ps@.take(i as int), s),
        decreases ps.len() - i,
    {
        proof {
            assert(ps@.take(i + 1).drop_last() == ps@.take(i as int));
            lemma_count_status_bound(ps@.take(i as int), s);
        }
        if ps[i].status == s {
            n = n + 1;
        }
        i = i + 1;
    }
    proof {
        assert(ps@.take(i as int) == ps@);
    }
    n
}

/// Push the tally segment of status `s`, if it has panes.
fn push_segment(out: &mut Vec<(String, Option<PaneStatus>)>, ps: &Vec<PaneInfo>, s: PaneStatus)
    ensures
        tally_view(final(out)@) == tally_view(old(out)@) + tally_segment(ps@, s),
{
    let n = count_panes_with(ps, s);
    if n > 0 {
        let mut v: Vec<char> = Vec::new();
        v.push(' ');
        v.push(status_glyph_for(s));
        push_decimal(&mut v, n as u64);
        let t = string_of(&v);
        proof {
            assert(v@ =~= seq![' ', status_glyph(s)] + decimal(n as nat));
        }
        let ghost before = out@;
        out.push((t, Some(s)));
        proof {
            assert(tally_view(before.push((t, Some(s)))) =~= tally_view(before).push((t@, Some(s))));
            assert(out@ == before.push((t, Some(s))));
            assert(tally_view(out@) =~= tally_view(before) + tally_segment(ps@, s));
        }
    } else {
        proof {
            assert(tally_view(out@) =~= tally_view(out@) + tally_segment(ps@, s));
        }
    }
}

/// The status tally shown in the dashboard footer: the pane count, then one
/// `glyph count` segment per status that has any panes.
pub fn status_tally(l: &Layout) -> (out: Vec<(String, Option<PaneStatus>)>)
    ensures
        tally_view(out@) == tally_spec(l.panes@),
{
    let mut head: Vec<char> = Vec::new();
    push_decimal(&mut head, l.panes.len() as u64);
    let mut out: Vec<(String, Option<PaneStatus>)> = Vec::new();
    out.push((string_of(&head), None));
    proof {
        assert(tally_view(out@) =~= seq![(decimal(l.panes@.len()), None::<PaneStatus>)]);
    }
    push_segment(&mut out, &l.panes, PaneStatus::Running);
    push_segment(&mut out, &l.panes, PaneStatus::Idle);
    push_segment(&mut out, &l.panes, PaneStatus::Done);
    push_segment(&mut out, &l.panes, PaneStatus::Failed);
    out
}

/// A smart jump ranks a failed pane before one waiting for input, and that
/// before a finished one; a working pane is never a target, and neither is
/// the focused pane or a pane the layout does not know: every candidate is
/// another known pane that is failed, waiting or done.
pub proof fn failures_come_before_waiting_before_done(l: Layout, k: int)
    ensures
        urgency(PaneStatus::Failed) matches Some(f) && urgency(PaneStatus::Idle) matches Some(i) && urgency(
            PaneStatus::Done,
        ) matches Some(d) && f < i && i < d,
        urgency(PaneStatus::Running) is None,
        candidate_rank(l, k) is Some ==> ({
            let order = reading_order(l);
            let pid = walk_at(order, jump_start(order, focused_pane_spec(l)), k);
            &&& focused_pane_spec(l) != Some(pid)
            &&& status_in(l.panes@, pid) matches Some(s) && s != PaneStatus::Running
        }),
{
}

/// Every pane is counted under exactly one status: the four counts of the
/// tally add up to the number of panes.
pub proof fn the_tally_counts_every_pane_once(ps: Seq<PaneInfo>)
    ensures
        count_status(ps, PaneStatus::Running) + count_status(ps, PaneStatus::Idle) + count_status(ps, PaneStatus::Done)
            + count_status(ps, PaneStatus::Failed) == ps.len(),
    decreases ps.len(),
{
    if ps.len() > 0 {
        the_tally_counts_every_pane_once(ps.drop_last());
    }
}

/// The statuses that ask for the user are exactly the two most urgent
/// smart-jump targets: waiting for input and failed.
pub proof fn attention_is_the_two_most_urgent(s: PaneStatus)
    ensures
        wants_attention(s) <==> (urgency(s) matches Some(u) && u <= 1),
        wants_attention(s) <==> (s == PaneStatus::Idle || s == PaneStatus::Failed),
{
}

} // verus!
