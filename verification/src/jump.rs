//! The column-jump accumulator: the digits of a column number typed while
//! the modifier is held, committed on release, on timeout, or by the next
//! chord. Time is a monotonic clock reading in milliseconds.

use vstd::prelude::*;

verus! {

/// How long a pending number survives without a release event, in ms.
pub const JUMP_TIMEOUT_MS: u64 = 500;

/// The largest column number the accumulator will hold.
pub const JUMP_MAX: usize = 999;

/// Accumulates the digits of a column jump typed while the modifier is held.
#[derive(Debug)]
pub struct JumpAccum {
    /// The 1-based column number typed so far, if any.
    pub value: Option<usize>,
    /// When an un-committed number goes stale (ms). Refreshed by every digit.
    pub deadline: Option<u64>,
}

/// The state after typing digit `d` at time `now`: a zero starts nothing,
/// a digit extends the number typed so far, a number past the maximum is
/// refused (the state is unchanged), and an accepted digit restarts the
/// idle window.
pub open spec fn after_push(value: Option<usize>, deadline: Option<u64>, d: u32, now: u64) -> (Option<usize>, Option<u64>) {
    let next: int = match value {
        Some(v) => v * 10 + d,
        None => d as int,
    };
    if value is None && d == 0 {
        (value, deadline)
    } else if next > JUMP_MAX {
        (value, deadline)
    } else {
        (Some(next as usize), Some((now + JUMP_TIMEOUT_MS) as u64))
    }
}

/// The 0-based column index a typed 1-based number commits to.
pub open spec fn committed(value: Option<usize>) -> Option<usize> {
    match value {
        Some(v) => Some(if v == 0 { 0usize } else { (v - 1) as usize }),
        None => None,
    }
}

impl Default for JumpAccum {
    /// Nothing typed.
    fn default() -> (j: JumpAccum)
        ensures
            j.value is None,
            j.deadline is None,
            j.wf(),
    {
        JumpAccum { value: None, deadline: None }
    }
}

impl JumpAccum {
    /// Nothing typed.
    pub fn new() -> (j: JumpAccum)
        ensures
            j.value is None,
            j.deadline is None,
            j.wf(),
    {
        JumpAccum { value: None, deadline: None }
    }

    /// A number is held only between 1 and the maximum, and a number is
    /// pending exactly when it has a deadline.
    pub open spec fn wf(&self) -> bool {
        &&& self.value matches Some(v) ==> 1 <= v <= JUMP_MAX
        &&& self.value is Some <==> self.deadline is Some
    }

    /// Record one digit typed at `now`. `0` extends an existing number
    /// (`1 0` is 10) but starts nothing on its own, since there is no
    /// column 0; absurd addresses are refused rather than accumulated.
    pub fn push(&mut self, d: u32, now: u64)
        requires
            old(self).wf(),
            now + JUMP_TIMEOUT_MS <= u64::MAX,
        ensures
            final(self).wf(),
            (final(self).value, final(self).deadline) == after_push(old(self).value, old(self).deadline, d, now),
    {
        let next: u64 = match self.value {
            Some(v) => (v as u64) * 10 + (d as u64),
            None => {
                if d == 0 {
                    return;
                }
                d as u64
            },
        };
        if next > 999 {
            return;
        }
        self.value = Some(next as usize);
        self.deadline = Some(now + JUMP_TIMEOUT_MS);
    }

    /// Take the accumulated number as a 0-based column index, clearing
    /// the state.
    pub fn take(&mut self) -> (r: Option<usize>)
        ensures
            r == committed(old(self).value),
            final(self).value is None,
            final(self).deadline is None,
            final(self).wf(),
    {
        self.deadline = None;
        let v = self.value;
        self.value = None;
        match v {
            Some(v) => Some(if v == 0 { 0 } else { v - 1 }),
            None => None,
        }
    }

    /// Commit if the idle timeout has passed at `now`: the column index to
    /// focus, if any. Before the deadline (or with nothing pending) the
    /// state is unchanged.
    pub fn take_if_expired(&mut self, now: u64) -> (r: Option<usize>)
        requires
            old(self).wf(),
        ensures
            final(self).wf(),
            match old(self).deadline {
                Some(t) if now >= t => {
                    &&& r == committed(old(self).value)
                    &&& final(self).value is None
                    &&& final(self).deadline is None
                },
                _ => {
                    &&& r is None
                    &&& final(self).value == old(self).value
                    &&& final(self).deadline == old(self).deadline
                },
            },
    {
        match self.deadline {
            Some(t) => {
                if now >= t {
                    self.take()
                } else {
                    None
                }
            },
            None => None,
        }
    }

    /// The number being typed right now, if any.
    pub fn pending(&self) -> (r: Option<usize>)
        ensures
            r == self.value,
    {
        self.value
    }
}

/// The number the digits `ds` spell, most significant first.
pub open spec fn digits_value(ds: Seq<u32>) -> int
    decreases ds.len(),
{
    if ds.len() == 0 {
        0
    } else {
        digits_value(ds.drop_last()) * 10 + ds.last()
    }
}

/// The accumulator's state after the digits `ds`, all typed at `now`,
/// starting from nothing.
pub open spec fn after_digits(ds: Seq<u32>, now: u64) -> (Option<usize>, Option<u64>)
    decreases ds.len(),
{
    if ds.len() == 0 {
        (None, None)
    } else {
        let st = after_digits(ds.drop_last(), now);
        after_push(st.0, st.1, ds.last(), now)
    }
}

proof fn lemma_digits_value_nonneg(ds: Seq<u32>)
    ensures
        digits_value(ds) >= 0,
    decreases ds.len(),
{
    if ds.len() > 0 {
        lemma_digits_value_nonneg(ds.drop_last());
    }
}

proof fn lemma_digits_value_monotone(ds: Seq<u32>, k: int)
    requires
        0 <= k <= ds.len(),
        forall|i: int| 0 <= i < ds.len() ==> ds[i] <= 9,
    ensures
        digits_value(ds.take(k)) <= digits_value(ds),
        digits_value(ds.take(k)) >= 0,
    decreases ds.len(),
{
    lemma_digits_value_nonneg(ds);
    lemma_digits_value_nonneg(ds.take(k));
    if k == ds.len() {
        assert(ds.take(k) == ds);
    } else {
        let p = ds.drop_last();
        assert(p.take(k) == ds.take(k));
        lemma_digits_value_monotone(p, k);
        lemma_digits_value_monotone(p, p.len() as int);
        assert(p.take(p.len() as int) == p);
    }
}

/// Typing a column number digit by digit accumulates exactly that number:
/// when the first digit is not `0`, every entry is a digit, and the number
/// is within the maximum, the pending value is the number, which `take`
/// then commits as the 0-based index `number - 1`.
pub proof fn typed_digits_accumulate(ds: Seq<u32>, now: u64)
    requires
        ds.len() > 0,
        1 <= ds[0] <= 9,
        forall|i: int| 0 <= i < ds.len() ==> ds[i] <= 9,
        digits_value(ds) <= JUMP_MAX,
        now + JUMP_TIMEOUT_MS <= u64::MAX,
    ensures
        after_digits(ds, now).0 == Some(digits_value(ds) as usize),
        committed(after_digits(ds, now).0) == Some((digits_value(ds) - 1) as usize),
    decreases ds.len(),
{
    let p = ds.drop_last();
    if p.len() == 0 {
        assert(digits_value(p) == 0);
    } else {
        assert(p[0] == ds[0]);
        assert(forall|i: int| 0 <= i < p.len() ==> p[i] == ds[i]);
        lemma_digits_value_monotone(ds, p.len() as int);
        assert(ds.take(p.len() as int) == p);
        typed_digits_accumulate(p, now);
        lemma_digits_value_monotone(p, 1);
        assert(p.take(1) == seq![p[0]]);
        assert(digits_value(seq![p[0]]) == digits_value(Seq::<u32>::empty()) * 10 + p[0]) by {
            assert(seq![p[0]].drop_last() == Seq::<u32>::empty());
        }
    }
}

/// One operation on the accumulator, as the event loop performs them: a
/// digit typed at a time, a commit, or the idle check at a time.
pub enum JumpOp {
    Push(u32, u64),
    Take,
    Expire(u64),
}

/// The state (pending number, deadline) after one operation.
pub open spec fn jump_step(st: (Option<usize>, Option<u64>), op: JumpOp) -> (Option<usize>, Option<u64>) {
    match op {
        JumpOp::Push(d, now) => after_push(st.0, st.1, d, now),
        JumpOp::Take => (None, None),
        JumpOp::Expire(now) => match st.1 {
            Some(t) => if now >= t {
                (None, None)
            } else {
                st
            },
            None => st,
        },
    }
}

/// The state after the operations `ops`, starting from nothing typed.
pub open spec fn after_ops(ops: Seq<JumpOp>) -> (Option<usize>, Option<u64>)
    decreases ops.len(),
{
    if ops.len() == 0 {
        (None, None)
    } else {
        jump_step(after_ops(ops.drop_last()), ops.last())
    }
}

/// Whatever was typed, committed or timed out, a pending number is always
/// a real column address, between 1 and `JUMP_MAX`; and a digit that would
/// start at column 0 or push the number past the maximum is refused, leaving
/// both the number and its deadline exactly as they were.
pub proof fn a_pending_jump_is_always_an_address(ops: Seq<JumpOp>, d: u32, now: u64)
    ensures
        after_ops(ops).0 matches Some(v) ==> 1 <= v <= JUMP_MAX,
        ({
            let st = after_ops(ops);
            let next: int = match st.0 {
                Some(v) => v * 10 + d,
                None => d as int,
            };
            (st.0 is None && d == 0) || next > JUMP_MAX ==> after_push(st.0, st.1, d, now) == st
        }),
    decreases ops.len(),
{
    if ops.len() > 0 {
        a_pending_jump_is_always_an_address(ops.drop_last(), d, now);
    }
}

/// A state reachable by any operations holds a number exactly when it
/// has a deadline, and the number is a real column address.
pub open spec fn jump_wf(st: (Option<usize>, Option<u64>)) -> bool {
    &&& st.0 matches Some(v) ==> 1 <= v <= JUMP_MAX
    &&& st.0 is Some <==> st.1 is Some
}

/// Every reachable accumulator is well formed: a number is pending exactly
/// when it has a deadline.
pub proof fn reachable_accumulators_are_well_formed(ops: Seq<JumpOp>)
    ensures
        jump_wf(after_ops(ops)),
    decreases ops.len(),
{
    if ops.len() > 0 {
        reachable_accumulators_are_well_formed(ops.drop_last());
    }
}

/// A typed number commits on the idle check exactly once the timeout has
/// passed since the last digit that changed it: after a digit accepted at
/// `t`, the check at `now` commits the number (as its 0-based column) and
/// clears the state when `now >= t + JUMP_TIMEOUT_MS`, and changes nothing
/// before that.
pub proof fn a_jump_commits_after_its_timeout(ops: Seq<JumpOp>, d: u32, t: u64, now: u64)
    requires
        t + JUMP_TIMEOUT_MS <= u64::MAX,
        after_push(after_ops(ops).0, after_ops(ops).1, d, t) != after_ops(ops),
    ensures
        ({
            let pushed = after_ops(ops.push(JumpOp::Push(d, t)));
            &&& pushed.0 is Some
            &&& pushed.1 == Some((t + JUMP_TIMEOUT_MS) as u64)
            &&& jump_step(pushed, JumpOp::Expire(now)) == if now >= t + JUMP_TIMEOUT_MS {
                (None::<usize>, None::<u64>)
            } else {
                pushed
            }
        }),
{
    assert(ops.push(JumpOp::Push(d, t)).drop_last() =~= ops);
}

} // verus!
