//! The terminal protocol gwae speaks with the programs in its panes:
//! answering their capability queries, reading their OSC 133 status
//! markers, and relaying their window titles safely to the host.

use vstd::prelude::*;
use crate::status::PaneStatus;
use crate::text::{chars_of, string_of};

verus! {

/// Whether `pat` occurs in `s` starting at `i`.
pub open spec fn occurs_at(s: Seq<u8>, pat: Seq<u8>, i: int) -> bool {
    0 <= i && i + pat.len() <= s.len() && s.subrange(i, i + pat.len()) == pat
}

/// Whether `pat` occurs anywhere in `s`.
pub open spec fn contains_seq(s: Seq<u8>, pat: Seq<u8>) -> bool {
    exists|i: int| occurs_at(s, pat, i)
}

/// Whether `pat` occurs in `bytes`.
fn has_window(bytes: &[u8], pat: &[u8]) -> (found: bool)
    requires
        pat@.len() > 0,
    ensures
        found == contains_seq(bytes@, pat@),
{
    let n = bytes.len();
    let m = pat.len();
    if n < m {
        proof {
            assert forall|i: int| !occurs_at(bytes@, pat@, i) by {}
        }
        return false;
    }
    let mut i: usize = 0;
    while i <= n - m
        invariant
            n == bytes@.len(),
            m == pat@.len(),
            m <= n,
            i <= n - m + 1,
            forall|k: int| 0 <= k < i ==> !occurs_at(bytes@, pat@, k),
        decreases n - m + 1 - i,
    {
        let mut j: usize = 0;
        let mut same = true;
        while j < m
            invariant
                n == bytes@.len(),
                m == pat@.len(),
                i + m <= n,
                j <= m,
                same == (forall|k: int| 0 <= k < j ==> bytes@[i + k] == pat@[k]),
            decreases m - j,
        {
            if bytes[i + j] != pat[j] {
                same = false;
            }
            j = j + 1;
        }
        if same {
            proof {
                assert(bytes@.subrange(i as int, i + m) =~= pat@);
                assert(occurs_at(bytes@, pat@, i as int));
            }
            return true;
        }
        proof {
            assert(!occurs_at(bytes@, pat@, i as int)) by {
                if occurs_at(bytes@, pat@, i as int) {
                    assert forall|k: int| 0 <= k < m implies bytes@[i + k] == pat@[k] by {
                        assert(bytes@.subrange(i as int, i + m)[k] == bytes@[i + k]);
                    }
                }
            }
        }
        i = i + 1;
    }
    proof {
        assert forall|k: int| !occurs_at(bytes@, pat@, k) by {
            if 0 <= k < i {
            }
        }
    }
    false
}

/// `ESC [ c`: Primary Device Attributes with no parameter.
pub open spec fn da_query() -> Seq<u8> {
    seq![0x1bu8, 0x5b, 0x63]
}

/// `ESC [ p c` for the parameters 0, 1 and 2.
pub open spec fn da_query_param(p: u8) -> Seq<u8> {
    seq![0x1bu8, 0x5b, p, 0x63]
}

/// `ESC [ 5 n`: Device Status Report, operating status.
pub open spec fn dsr_status_query() -> Seq<u8> {
    seq![0x1bu8, 0x5b, 0x35, 0x6e]
}

/// `ESC [ 6 n`: Device Status Report, cursor position.
pub open spec fn dsr_cursor_query() -> Seq<u8> {
    seq![0x1bu8, 0x5b, 0x36, 0x6e]
}

/// `ESC [ ? 1 ; 2 c`: a VT100 with the advanced video option.
pub open spec fn da_reply() -> Seq<u8> {
    seq![0x1bu8, 0x5b, 0x3f, 0x31, 0x3b, 0x32, 0x63]
}

/// `ESC [ 0 n`: operating status OK.
pub open spec fn dsr_status_reply() -> Seq<u8> {
    seq![0x1bu8, 0x5b, 0x30, 0x6e]
}

/// `ESC [ 1 ; 1 R`: the cursor is at row 1, column 1.
pub open spec fn dsr_cursor_reply() -> Seq<u8> {
    seq![0x1bu8, 0x5b, 0x31, 0x3b, 0x31, 0x52]
}

/// The reply owed to a chunk of pane output: Device Attributes first, then
/// operating status, then cursor position; nothing when no query is present.
pub open spec fn reply_for(s: Seq<u8>) -> Option<Seq<u8>> {
    if contains_seq(s, da_query()) || contains_seq(s, da_query_param(0x30))
        || contains_seq(s, da_query_param(0x31)) || contains_seq(s, da_query_param(0x32)) {
        Some(da_reply())
    } else if contains_seq(s, dsr_status_query()) {
        Some(dsr_status_reply())
    } else if contains_seq(s, dsr_cursor_query()) {
        Some(dsr_cursor_reply())
    } else {
        None
    }
}

/// A pattern starting with `ESC` occurs only where an `ESC` is: in a
/// chunk whose only escape is at `e`, it can only start there.
proof fn lemma_only_escape(s: Seq<u8>, pat: Seq<u8>, e: int)
    requires
        pat.len() > 0,
        pat[0] == 0x1b,
        forall|j: int| 0 <= j < s.len() && j != e ==> s[j] != 0x1b,
        contains_seq(s, pat),
    ensures
        occurs_at(s, pat, e),
{
    let i = choose|i: int| occurs_at(s, pat, i);
    assert(s.subrange(i, i + pat.len())[0] == s[i]);
}

/// A chunk whose only escape is at `e`, followed by something other than
/// `c`, `0`, `1` or `2` two bytes on, asks no Device Attributes question.
proof fn lemma_no_da_query(s: Seq<u8>, e: int)
    requires
        forall|j: int| 0 <= j < s.len() && j != e ==> s[j] != 0x1b,
        0 <= e && e + 2 < s.len(),
        s[e + 2] != 0x63 && s[e + 2] != 0x30 && s[e + 2] != 0x31 && s[e + 2] != 0x32,
    ensures
        !contains_seq(s, da_query()),
        !contains_seq(s, da_query_param(0x30)),
        !contains_seq(s, da_query_param(0x31)),
        !contains_seq(s, da_query_param(0x32)),
{
    if contains_seq(s, da_query()) {
        lemma_only_escape(s, da_query(), e);
        assert(s.subrange(e, e + 3)[2] == s[e + 2]);
    }
    if contains_seq(s, da_query_param(0x30)) {
        lemma_only_escape(s, da_query_param(0x30), e);
        assert(s.subrange(e, e + 4)[2] == s[e + 2]);
    }
    if contains_seq(s, da_query_param(0x31)) {
        lemma_only_escape(s, da_query_param(0x31), e);
        assert(s.subrange(e, e + 4)[2] == s[e + 2]);
    }
    if contains_seq(s, da_query_param(0x32)) {
        lemma_only_escape(s, da_query_param(0x32), e);
        assert(s.subrange(e, e + 4)[2] == s[e + 2]);
    }
}

/// `a + q + b` has its only escape where `q` starts, when `q` holds just
/// that one.
proof fn lemma_lone_escape(a: Seq<u8>, q: Seq<u8>, b: Seq<u8>)
    requires
        forall|j: int| 0 <= j < a.len() ==> a[j] != 0x1b,
        forall|j: int| 0 <= j < b.len() ==> b[j] != 0x1b,
        forall|j: int| 1 <= j < q.len() ==> q[j] != 0x1b,
    ensures
        forall|j: int| 0 <= j < (a + q + b).len() && j != a.len() ==> (a + q + b)[j] != 0x1b,
{
    let s = a + q + b;
    assert forall|j: int| 0 <= j < s.len() && j != a.len() implies s[j] != 0x1b by {
        if j < a.len() {
            assert(s[j] == a[j]);
        } else if j < a.len() + q.len() {
            assert(s[j] == q[j - a.len()]);
        } else {
            assert(s[j] == b[j - a.len() - q.len()]);
        }
    }
}

/// A program that asks for Device Attributes (`ESC [ c`) gets `ESC [ ? 1 ;
/// 2 c`, wherever the question sits in its output.
pub proof fn device_attributes_are_always_answered(a: Seq<u8>, b: Seq<u8>)
    ensures
        reply_for(a + seq![0x1bu8, 0x5b, 0x63] + b) == Some(seq![0x1bu8, 0x5b, 0x3f, 0x31, 0x3b, 0x32, 0x63]),
{
    let q = a + seq![0x1bu8, 0x5b, 0x63] + b;
    assert(q.subrange(a.len() as int, a.len() as int + 3) =~= da_query());
    assert(occurs_at(q, da_query(), a.len() as int));
}

/// With no other escape around it, `ESC [ 5 n` (operating status) is
/// answered `ESC [ 0 n` and `ESC [ 6 n` (cursor position) `ESC [ 1 ; 1 R`;
/// output with no escape at all is never answered.
pub proof fn status_queries_get_their_answers(a: Seq<u8>, b: Seq<u8>)
    requires
        forall|j: int| 0 <= j < a.len() ==> a[j] != 0x1b,
        forall|j: int| 0 <= j < b.len() ==> b[j] != 0x1b,
    ensures
        reply_for(a + seq![0x1bu8, 0x5b, 0x35, 0x6e] + b) == Some(seq![0x1bu8, 0x5b, 0x30, 0x6e]),
        reply_for(a + seq![0x1bu8, 0x5b, 0x36, 0x6e] + b) == Some(seq![0x1bu8, 0x5b, 0x31, 0x3b, 0x31, 0x52]),
        reply_for(a) is None,
{
    let e = a.len() as int;
    let q5 = seq![0x1bu8, 0x5b, 0x35, 0x6e];
    let q6 = seq![0x1bu8, 0x5b, 0x36, 0x6e];
    let s5 = a + q5 + b;
    let s6 = a + q6 + b;
    lemma_lone_escape(a, q5, b);
    lemma_lone_escape(a, q6, b);
    assert(s5[e + 2] == 0x35);
    assert(s6[e + 2] == 0x36);
    lemma_no_da_query(s5, e);
    lemma_no_da_query(s6, e);
    assert(s5.subrange(e, e + 4) =~= dsr_status_query());
    assert(occurs_at(s5, dsr_status_query(), e));
    if contains_seq(s6, dsr_status_query()) {
        lemma_only_escape(s6, dsr_status_query(), e);
        assert(s6.subrange(e, e + 4)[2] == s6[e + 2]);
    }
    assert(s6.subrange(e, e + 4) =~= dsr_cursor_query());
    assert(occurs_at(s6, dsr_cursor_query(), e));
    let pats = seq![da_query(), da_query_param(0x30), da_query_param(0x31), da_query_param(0x32), dsr_status_query(), dsr_cursor_query()];
    assert forall|k: int| 0 <= k < 6 implies !contains_seq(a, #[trigger] pats[k]) by {
        let pat = pats[k];
        if contains_seq(a, pat) {
            let i = choose|i: int| occurs_at(a, pat, i);
            assert(a.subrange(i, i + pat.len())[0] == a[i]);
        }
    }
    assert(pats[0] == da_query());
    assert(pats[1] == da_query_param(0x30));
    assert(pats[2] == da_query_param(0x31));
    assert(pats[3] == da_query_param(0x32));
    assert(pats[4] == dsr_status_query());
    assert(pats[5] == dsr_cursor_query());
}

/// The view of an optional byte vector.
pub open spec fn opt_bytes(r: Option<Vec<u8>>) -> Option<Seq<u8>> {
    match r {
        Some(v) => Some(v@),
        None => None,
    }
}

/// Detect terminal capability/status queries from a child and produce a
/// reply sequence. Answers Device Attributes (DA) and Device Status Report
/// (DSR) so shells like fish don't warn that they "could not read a
/// response to the Primary Device Attribute query".
pub fn query_reply(bytes: &[u8]) -> (r: Option<Vec<u8>>)
    ensures
        opt_bytes(r) == reply_for(bytes@),
{
    let da: Vec<u8> = vec![0x1bu8, 0x5b, 0x63];
    let da0: Vec<u8> = vec![0x1bu8, 0x5b, 0x30, 0x63];
    let da1: Vec<u8> = vec![0x1bu8, 0x5b, 0x31, 0x63];
    let da2: Vec<u8> = vec![0x1bu8, 0x5b, 0x32, 0x63];
    proof {
        assert(da@ == da_query());
        assert(da0@ == da_query_param(0x30));
        assert(da1@ == da_query_param(0x31));
        assert(da2@ == da_query_param(0x32));
    }
    if has_window(bytes, da.as_slice()) || has_window(bytes, da0.as_slice())
        || has_window(bytes, da1.as_slice()) || has_window(bytes, da2.as_slice()) {
        let r: Vec<u8> = vec![0x1bu8, 0x5b, 0x3f, 0x31, 0x3b, 0x32, 0x63];
        proof {
            assert(r@ == da_reply());
        }
        return Some(r);
    }
    let dsr5: Vec<u8> = vec![0x1bu8, 0x5b, 0x35, 0x6e];
    proof {
        assert(dsr5@ == dsr_status_query());
    }
    if has_window(bytes, dsr5.as_slice()) {
        let r: Vec<u8> = vec![0x1bu8, 0x5b, 0x30, 0x6e];
        proof {
            assert(r@ == dsr_status_reply());
        }
        return Some(r);
    }
    let dsr6: Vec<u8> = vec![0x1bu8, 0x5b, 0x36, 0x6e];
    proof {
        assert(dsr6@ == dsr_cursor_query());
    }
    if has_window(bytes, dsr6.as_slice()) {
        let r: Vec<u8> = vec![0x1bu8, 0x5b, 0x31, 0x3b, 0x31, 0x52];
        proof {
            assert(r@ == dsr_cursor_reply());
        }
        return Some(r);
    }
    None
}

/// `ESC ] 1 3 3 ;` (an OSC 133 shell-integration marker) starts at `i`.
pub open spec fn marker_at(b: Seq<u8>, i: int) -> bool {
    &&& 0 <= i
    &&& i + 6 <= b.len()
    &&& b[i] == 0x1b
    &&& b[i + 1] == 0x5d
    &&& b[i + 2] == 0x31
    &&& b[i + 3] == 0x33
    &&& b[i + 4] == 0x33
    &&& b[i + 5] == 0x3b
}

/// An ASCII digit.
pub open spec fn is_digit(b: u8) -> bool {
    0x30 <= b <= 0x39
}

/// Every digit of the run of digits that `s` starts with is `0` (true when
/// `s` does not start with a digit).
pub open spec fn leading_digits_zero(s: Seq<u8>) -> bool {
    forall|t: int|
        0 <= t < s.len() && (forall|u: int| 0 <= u <= t ==> #[trigger] is_digit(s[u]))
            ==> s[t] == 0x30
}

/// The status that a marker whose payload is `rest` reports: `A` prompt
/// shown (Idle), `C` command started (Running), `D` command done (Done, or
/// Failed when a non-zero exit code follows as `;n`); any other payload,
/// `B` included, reports nothing.
pub open spec fn marker_status(rest: Seq<u8>) -> Option<PaneStatus> {
    if rest.len() == 0 {
        None
    } else if rest[0] == 0x41 {
        Some(PaneStatus::Idle)
    } else if rest[0] == 0x43 {
        Some(PaneStatus::Running)
    } else if rest[0] == 0x44 {
        if rest.len() > 1 && rest[1] == 0x3b && !leading_digits_zero(rest.subrange(2, rest.len() as int)) {
            Some(PaneStatus::Failed)
        } else {
            Some(PaneStatus::Done)
        }
    } else {
        None
    }
}

/// The scan from position `i` on, `acc` being the status reported so far:
/// markers are read left to right, a recognized marker is skipped as a
/// whole, and the last reporting marker wins.
pub open spec fn osc133_scan(b: Seq<u8>, i: nat, acc: Option<PaneStatus>) -> Option<PaneStatus>
    decreases b.len() - i,
{
    if i + 6 > b.len() {
        acc
    } else if marker_at(b, i as int) {
        let next = match marker_status(b.subrange((i + 6) as int, b.len() as int)) {
            Some(st) => Some(st),
            None => acc,
        };
        osc133_scan(b, i + 6, next)
    } else {
        osc133_scan(b, i + 1, acc)
    }
}

/// Whether a marker at `k` reports a status.
pub open spec fn reports_at(b: Seq<u8>, k: int) -> bool {
    marker_at(b, k) && marker_status(b.subrange(k + 6, b.len() as int)) is Some
}

/// The status of the last reporting marker that starts at `i` or later.
pub open spec fn last_report_from(b: Seq<u8>, i: nat) -> Option<PaneStatus>
    decreases b.len() - i,
{
    if i + 6 > b.len() {
        None
    } else {
        match last_report_from(b, i + 1) {
            Some(st) => Some(st),
            None => if marker_at(b, i as int) {
                marker_status(b.subrange((i + 6) as int, b.len() as int))
            } else {
                None
            },
        }
    }
}

/// Markers never overlap: the five bytes after a marker's escape are not
/// escapes.
proof fn lemma_markers_apart(b: Seq<u8>, k: int, m: int)
    requires
        marker_at(b, k),
        k < m < k + 6,
    ensures
        !marker_at(b, m),
{
}

/// Past a marker at `i`, nothing reports until `i + 6`.
proof fn lemma_skip_marker(b: Seq<u8>, i: nat, m: nat)
    requires
        marker_at(b, i as int),
        i < m <= i + 6,
    ensures
        last_report_from(b, m) == last_report_from(b, i + 6),
    decreases i + 6 - m,
{
    if m < i + 6 {
        lemma_skip_marker(b, i, m + 1);
        lemma_markers_apart(b, i as int, m as int);
    }
}

/// The scan from `i` gives the last reporting marker from `i` on, or what
/// it had so far when there is none.
proof fn lemma_scan_is_last_report(b: Seq<u8>, i: nat, acc: Option<PaneStatus>)
    ensures
        osc133_scan(b, i, acc) == match last_report_from(b, i) {
            Some(st) => Some(st),
            None => acc,
        },
    decreases b.len() - i,
{
    if i + 6 > b.len() {
    } else if marker_at(b, i as int) {
        let next = match marker_status(b.subrange((i + 6) as int, b.len() as int)) {
            Some(st) => Some(st),
            None => acc,
        };
        lemma_scan_is_last_report(b, i + 6, next);
        lemma_skip_marker(b, i, i + 1);
    } else {
        lemma_scan_is_last_report(b, i + 1, acc);
    }
}

/// A later reporting marker outranks every earlier one.
proof fn lemma_last_report_later(b: Seq<u8>, i: nat, j: nat)
    requires
        i <= j,
        last_report_from(b, j) is Some,
    ensures
        last_report_from(b, i) == last_report_from(b, j),
    decreases j - i,
{
    if i < j {
        lemma_last_report_later(b, i + 1, j);
    }
}

/// What follows the prefix `a` reports exactly as it does alone.
proof fn lemma_last_report_shift(a: Seq<u8>, b: Seq<u8>, q: nat)
    ensures
        last_report_from(a + b, a.len() + q) == last_report_from(b, q),
    decreases b.len() - q,
{
    let ab = a + b;
    if q + 6 > b.len() {
    } else {
        lemma_last_report_shift(a, b, q + 1);
        assert(marker_at(ab, (a.len() + q) as int) == marker_at(b, q as int));
        assert(ab.subrange((a.len() + q + 6) as int, ab.len() as int) =~= b.subrange((q + 6) as int, b.len() as int));
    }
}

/// `last_report_from` finds a status exactly when some marker from `i` on
/// reports one.
proof fn lemma_last_report_some(b: Seq<u8>, i: nat)
    ensures
        last_report_from(b, i) is Some <==> exists|k: int| i <= k && #[trigger] reports_at(b, k),
    decreases b.len() - i,
{
    if i + 6 > b.len() {
        assert forall|k: int| i <= k implies !#[trigger] reports_at(b, k) by {}
    } else {
        lemma_last_report_some(b, i + 1);
        if last_report_from(b, i + 1) is None && !reports_at(b, i as int) {
            assert forall|k: int| i <= k implies !#[trigger] reports_at(b, k) by {
                if k > i {
                    assert(!(exists|k2: int| i + 1 <= k2 && #[trigger] reports_at(b, k2)));
                }
            }
        }
        if reports_at(b, i as int) {
            assert(reports_at(b, i as int));
        }
    }
}

/// The last OSC 133 marker wins: output whose tail `b` reports a status
/// reports that status whatever came before it, and a chunk reports a
/// status exactly when some marker in it is `A`, `C` or `D`.
pub proof fn the_last_marker_wins(a: Seq<u8>, b: Seq<u8>)
    ensures
        osc133_scan(b, 0, None) is Some ==> osc133_scan(a + b, 0, None) == osc133_scan(b, 0, None),
        osc133_scan(b, 0, None) is Some <==> exists|k: int|
            0 <= k && marker_at(b, k) && k + 6 < b.len() && (b[k + 6] == 0x41 || b[k + 6] == 0x43 || b[k + 6]
                == 0x44),
{
    lemma_scan_is_last_report(b, 0, None);
    lemma_scan_is_last_report(a + b, 0, None);
    lemma_last_report_shift(a, b, 0);
    if last_report_from(b, 0) is Some {
        lemma_last_report_later(a + b, 0, a.len());
    }
    lemma_last_report_some(b, 0);
    assert forall|k: int| 0 <= k && marker_at(b, k) implies (#[trigger] reports_at(b, k) <==> (k + 6 < b.len() && (
    b[k + 6] == 0x41 || b[k + 6] == 0x43 || b[k + 6] == 0x44))) by {
        let rest = b.subrange(k + 6, b.len() as int);
        if rest.len() > 0 {
            assert(rest[0] == b[k + 6]);
        }
    }
    if osc133_scan(b, 0, None) is Some {
        let k = choose|k: int| 0 <= k && #[trigger] reports_at(b, k);
        assert(0 <= k && marker_at(b, k) && k + 6 < b.len() && (b[k + 6] == 0x41 || b[k + 6] == 0x43 || b[k + 6]
            == 0x44));
    }
    if exists|k: int|
        0 <= k && marker_at(b, k) && k + 6 < b.len() && (b[k + 6] == 0x41 || b[k + 6] == 0x43 || b[k + 6] == 0x44) {
        let k = choose|k: int|
            0 <= k && marker_at(b, k) && k + 6 < b.len() && (b[k + 6] == 0x41 || b[k + 6] == 0x43 || b[k + 6]
                == 0x44);
        assert(reports_at(b, k));
    }
}

/// The bytes `ESC ] 1 3 3 ;` that open an OSC 133 marker.
pub open spec fn osc133_opener() -> Seq<u8> {
    seq![0x1bu8, 0x5d, 0x31, 0x33, 0x33, 0x3b]
}

/// A chunk holding one marker and no further escape reports what that
/// marker says.
proof fn lemma_single_marker(tail: Seq<u8>)
    requires
        forall|j: int| 0 <= j < tail.len() ==> tail[j] != 0x1b,
    ensures
        osc133_scan(osc133_opener() + tail, 0, None) == marker_status(tail),
{
    let o = osc133_opener();
    let b = o + tail;
    lemma_scan_is_last_report(b, 0, None);
    lemma_last_report_some(b, 1);
    if last_report_from(b, 1) is Some {
        let k = choose|k: int| 1 <= k && #[trigger] reports_at(b, k);
        if k < 6 {
            assert(b[k] == o[k]);
        } else {
            assert(b[k] == tail[k - 6]);
        }
    }
    assert(marker_at(b, 0));
    assert(b.subrange(6, b.len() as int) =~= tail);
}

/// What a single marker means: a chunk holding one OSC 133 marker (its
/// payload `p` free of further escapes) reports `A` as waiting at a prompt
/// (Idle), `C` as a command running, `D` as done, and `D;n` with a
/// non-zero exit code `n` as failed; `D;0` is done, and `B` (or anything
/// else) reports nothing.
#[verifier::rlimit(40)]
pub proof fn each_marker_reports_its_meaning(p: Seq<u8>, d: u8)
    requires
        forall|j: int| 0 <= j < p.len() ==> p[j] != 0x1b,
    ensures
        osc133_scan(osc133_opener() + seq![0x41u8] + p, 0, None) == Some(PaneStatus::Idle),
        osc133_scan(osc133_opener() + seq![0x43u8] + p, 0, None) == Some(PaneStatus::Running),
        osc133_scan(osc133_opener() + seq![0x44u8], 0, None) == Some(PaneStatus::Done),
        !(p.len() > 0 && is_digit(p[0])) ==> osc133_scan(osc133_opener() + seq![0x44u8, 0x3b, 0x30] + p, 0, None)
            == Some(PaneStatus::Done),
        0x31 <= d <= 0x39 ==> osc133_scan(osc133_opener() + seq![0x44u8, 0x3b, d] + p, 0, None) == Some(
            PaneStatus::Failed,
        ),
        osc133_scan(osc133_opener() + seq![0x42u8] + p, 0, None) is None,
{
    let ta = seq![0x41u8] + p;
    let tc = seq![0x43u8] + p;
    let td = seq![0x44u8];
    let t0 = seq![0x44u8, 0x3b, 0x30] + p;
    let tf = seq![0x44u8, 0x3b, d] + p;
    let tb = seq![0x42u8] + p;
    assert(forall|j: int| 0 <= j < ta.len() ==> ta[j] != 0x1b) by {
        assert forall|j: int| 0 <= j < ta.len() implies ta[j] != 0x1b by {
            if j > 0 {
                assert(ta[j] == p[j - 1]);
            }
        }
    }
    assert(forall|j: int| 0 <= j < tc.len() ==> tc[j] != 0x1b) by {
        assert forall|j: int| 0 <= j < tc.len() implies tc[j] != 0x1b by {
            if j > 0 {
                assert(tc[j] == p[j - 1]);
            }
        }
    }
    assert(forall|j: int| 0 <= j < td.len() ==> td[j] != 0x1b);
    assert(forall|j: int| 0 <= j < t0.len() ==> t0[j] != 0x1b) by {
        assert forall|j: int| 0 <= j < t0.len() implies t0[j] != 0x1b by {
            if j > 2 {
                assert(t0[j] == p[j - 3]);
            }
        }
    }
    assert(forall|j: int| 0 <= j < tb.len() ==> tb[j] != 0x1b) by {
        assert forall|j: int| 0 <= j < tb.len() implies tb[j] != 0x1b by {
            if j > 0 {
                assert(tb[j] == p[j - 1]);
            }
        }
    }
    if 0x31 <= d <= 0x39 {
        assert(forall|j: int| 0 <= j < tf.len() ==> tf[j] != 0x1b) by {
            assert forall|j: int| 0 <= j < tf.len() implies tf[j] != 0x1b by {
                if j > 2 {
                    assert(tf[j] == p[j - 3]);
                }
            }
        }
        let rest = tf.subrange(2, tf.len() as int);
        assert(rest[0] == d);
        assert(is_digit(rest[0]) && rest[0] != 0x30);
        assert(!leading_digits_zero(rest));
    }
    let o = osc133_opener();
    lemma_single_marker(ta);
    assert(o + seq![0x41u8] + p =~= o + ta);
    lemma_single_marker(tc);
    assert(o + seq![0x43u8] + p =~= o + tc);
    lemma_single_marker(td);
    lemma_single_marker(t0);
    assert(o + seq![0x44u8, 0x3b, 0x30] + p =~= o + t0);
    lemma_single_marker(tb);
    assert(o + seq![0x42u8] + p =~= o + tb);
    if 0x31 <= d <= 0x39 {
        lemma_single_marker(tf);
        assert(o + seq![0x44u8, 0x3b, d] + p =~= o + tf);
    }
    if !(p.len() > 0 && is_digit(p[0])) {
        let rest = t0.subrange(2, t0.len() as int);
        assert(rest[0] == 0x30);
        assert forall|t: int| 0 <= t < rest.len() && (forall|u: int| 0 <= u <= t ==> #[trigger] is_digit(rest[u])) implies rest[t] == 0x30 by {
            if t >= 1 {
                assert(is_digit(rest[1]));
                assert(rest[1] == p[0]);
            }
        }
    }
}

/// Scan a PTY output chunk for OSC 133 shell-integration markers and return
/// the status implied by the *last* one present.
pub fn scan_osc133(bytes: &[u8]) -> (r: Option<PaneStatus>)
    ensures
        r == osc133_scan(bytes@, 0, None),
{
    let n = bytes.len();
    let mut status: Option<PaneStatus> = None;
    let mut i: usize = 0;
    while n >= 6 && i <= n - 6
        invariant
            n == bytes@.len(),
            osc133_scan(bytes@, 0, None) == osc133_scan(bytes@, i as nat, status),
        decreases n - i,
    {
        if bytes[i] == 0x1b && bytes[i + 1] == 0x5d && bytes[i + 2] == 0x31 && bytes[i + 3] == 0x33
            && bytes[i + 4] == 0x33 && bytes[i + 5] == 0x3b {
            let ghost rest = bytes@.subrange(i + 6, n as int);
            let mut found: Option<PaneStatus> = None;
            if i + 6 < n {
                let first = bytes[i + 6];
                if first == 0x41 {
                    found = Some(PaneStatus::Idle);
                } else if first == 0x43 {
                    found = Some(PaneStatus::Running);
                } else if first == 0x44 {
                    let mut code: u32 = 0;
                    if i + 7 < n && bytes[i + 7] == 0x3b {
                        let start = i + 8;
                        let mut j: usize = start;
                        while j < n && bytes[j] >= 0x30 && bytes[j] <= 0x39
                            invariant
                                n == bytes@.len(),
                                start <= j <= n,
                                forall|u: int| start <= u < j ==> is_digit(#[trigger] bytes@[u]),
                                code == 0 <==> (forall|u: int| start <= u < j ==> #[trigger] bytes@[u] == 0x30),
                            decreases n - j,
                        {
                            let d: u32 = (bytes[j] - 0x30) as u32;
                            let scaled: u32 = if code > 429496729 { 4294967295 } else { code * 10 };
                            code = scaled.saturating_add(d);
                            j = j + 1;
                        }
                        proof {
                            let digits = bytes@.subrange(start as int, n as int);
                            assert(rest.subrange(2, rest.len() as int) =~= digits);
                            assert((code == 0) == leading_digits_zero(digits)) by {
                                if code == 0 {
                                    assert forall|t: int|
                                        0 <= t < digits.len() && (forall|u: int| 0 <= u <= t ==> #[trigger] is_digit(digits[u]))
                                        implies digits[t] == 0x30 by {
                                        if start + t >= j {
                                            assert(is_digit(digits[j - start]));
                                        }
                                        assert(digits[t] == bytes@[start + t]);
                                    }
                                } else {
                                    let w = choose|u: int| start <= u < j && #[trigger] bytes@[u] != 0x30;
                                    let t = w - start;
                                    assert forall|u: int| 0 <= u <= t implies #[trigger] is_digit(digits[u]) by {
                                        assert(digits[u] == bytes@[start + u]);
                                    }
                                    assert(digits[t] == bytes@[w]);
                                }
                            }
                        }
                    }
                    found = Some(if code == 0 { PaneStatus::Done } else { PaneStatus::Failed });
                }
            }
            proof {
                assert(found == marker_status(rest));
            }
            match found {
                Some(st) => {
                    status = Some(st);
                },
                None => {},
            }
            i = i + 6;
        } else {
            i = i + 1;
        }
    }
    status
}

/// A character that may stand in a relayed window title: not a C0 control
/// and not DEL.
pub open spec fn title_char_ok(c: char) -> bool {
    c as u32 >= 0x20 && c != '\x7f'
}

/// The characters of `s` that may stand in a title, in order.
pub open spec fn printable_title(s: Seq<char>) -> Seq<char>
    decreases s.len(),
{
    if s.len() == 0 {
        Seq::empty()
    } else if title_char_ok(s.last()) {
        printable_title(s.drop_last()).push(s.last())
    } else {
        printable_title(s.drop_last())
    }
}

/// Every character kept is one that may stand in a title, and a title of
/// such characters is kept whole.
proof fn lemma_printable_title(s: Seq<char>)
    ensures
        forall|i: int| 0 <= i < printable_title(s).len() ==> title_char_ok(#[trigger] printable_title(s)[i]),
        printable_title(s).len() <= s.len(),
        (forall|i: int| 0 <= i < s.len() ==> title_char_ok(#[trigger] s[i])) ==> printable_title(s) == s,
    decreases s.len(),
{
    if s.len() > 0 {
        lemma_printable_title(s.drop_last());
        if forall|i: int| 0 <= i < s.len() ==> title_char_ok(#[trigger] s[i]) {
            assert forall|i: int| 0 <= i < s.drop_last().len() implies title_char_ok(#[trigger] s.drop_last()[i]) by {
                assert(s.drop_last()[i] == s[i]);
            }
            assert(title_char_ok(s[s.len() - 1]));
            assert(s.drop_last().push(s.last()) =~= s);
        }
    }
}

/// The longest title relayed to the host, in characters.
pub open spec fn max_title_len() -> nat {
    256
}

/// A title as relayed to the host: its printable characters, clipped to
/// the first 256.
pub open spec fn sanitized_title(s: Seq<char>) -> Seq<char> {
    let p = printable_title(s);
    if p.len() > max_title_len() {
        p.take(max_title_len() as int)
    } else {
        p
    }
}

/// Reading more of a title only ever extends what was kept of it.
proof fn lemma_printable_prefix(s: Seq<char>, k: int)
    requires
        0 <= k <= s.len(),
    ensures
        printable_title(s.take(k)).len() <= printable_title(s).len(),
        printable_title(s).take(printable_title(s.take(k)).len() as int) == printable_title(s.take(k)),
    decreases s.len(),
{
    if k == s.len() {
        assert(s.take(k) == s);
    } else {
        let p = s.drop_last();
        assert(p.take(k) == s.take(k));
        lemma_printable_prefix(p, k);
        let a = printable_title(p);
        let b = printable_title(s.take(k));
        if title_char_ok(s.last()) {
            assert(a.push(s.last()).take(b.len() as int) =~= a.take(b.len() as int));
        }
    }
}

/// Strip control characters that could escape an OSC title sequence and
/// clip the result to a reasonable window-title length, so a malicious
/// child title cannot run state-changing escapes on the host terminal.
pub fn sanitize_title(title: &str) -> (out: String)
    ensures
        out@ == sanitized_title(title@),
{
    let chars = chars_of(title);
    let n = chars.len();
    let mut out: Vec<char> = Vec::new();
    let mut i: usize = 0;
    while i < n && out.len() < 256
        invariant
            n == chars@.len(),
            chars@ == title@,
            i <= n,
            out@ == printable_title(chars@.take(i as int)),
            out.len() <= 256,
        decreases n - i,
    {
        let c = chars[i];
        proof {
            assert(chars@.take(i + 1).drop_last() == chars@.take(i as int));
        }
        if (c as u32) >= 0x20 && c != '\x7f' {
            out.push(c);
        }
        i = i + 1;
    }
    proof {
        lemma_printable_prefix(chars@, i as int);
        if i == n {
            assert(chars@.take(i as int) == chars@);
        }
    }
    string_of(&out)
}

/// The OSC 2 (window title) sequence, terminated by ST, that tells the host
/// terminal to show `title`; the title is sanitized first.
pub open spec fn title_sequence_spec(title: Seq<char>) -> Seq<char> {
    seq!['\x1b', ']', '2', ';'] + sanitized_title(title) + seq!['\x1b', '\\']
}

/// A relayed title cannot break out of its sequence: it holds no C0
/// control character and no DEL, it is at most 256 characters long, and
/// relaying it again changes nothing.
pub proof fn a_relayed_title_cannot_escape(s: Seq<char>)
    ensures
        forall|i: int| 0 <= i < sanitized_title(s).len() ==> title_char_ok(#[trigger] sanitized_title(s)[i]),
        sanitized_title(s).len() <= max_title_len(),
        sanitized_title(sanitized_title(s)) == sanitized_title(s),
{
    let t = sanitized_title(s);
    lemma_printable_title(s);
    assert forall|i: int| 0 <= i < t.len() implies title_char_ok(#[trigger] t[i]) by {
        assert(t[i] == printable_title(s)[i]);
    }
    lemma_printable_title(t);
}

/// The bytes-as-text that forward a pane's title to the host terminal.
pub fn title_sequence(title: &str) -> (seq: String)
    ensures
        seq@ == title_sequence_spec(title@),
{
    let clean = sanitize_title(title);
    let mut v: Vec<char> = Vec::new();
    v.push('\x1b');
    v.push(']');
    v.push('2');
    v.push(';');
    crate::text::push_str(&mut v, clean.as_str());
    v.push('\x1b');
    v.push('\\');
    proof {
        assert(v@ =~= title_sequence_spec(title@));
    }
    string_of(&v)
}

} // verus!
