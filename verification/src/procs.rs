//! The process tree under a pane: reading a `ps -Ao pid=,ppid=` listing
//! and walking every descendant of a pane's process, deepest first, so
//! that a teardown can signal children before their parents.

use vstd::prelude::*;
use crate::text::{char_is_ascii_digit, char_is_whitespace, chars_of, decimal, is_ascii_digit, is_white_space};

verus! {

/// The decimal value of a run of ASCII digits.
pub open spec fn digits_value(s: Seq<char>) -> nat
    decreases s.len(),
{
    if s.len() == 0 {
        0
    } else {
        10 * digits_value(s.drop_last()) + ((s.last() as u32) - 0x30) as nat
    }
}

/// Every character is an ASCII digit.
pub open spec fn all_digits(s: Seq<char>) -> bool {
    forall|i: int| 0 <= i < s.len() ==> is_ascii_digit(#[trigger] s[i])
}

/// A word as `u32`'s `FromStr` reads it: an optional `+`, then one or more
/// ASCII digits whose value fits in 32 bits.
pub open spec fn parse_u32_spec(s: Seq<char>) -> Option<u32> {
    let d = if s.len() > 0 && s[0] == '+' { s.drop_first() } else { s };
    if d.len() > 0 && all_digits(d) && digits_value(d) <= 0xffff_ffff {
        Some(digits_value(d) as u32)
    } else {
        None
    }
}

/// A longer run of digits is worth at least as much.
proof fn lemma_digits_value_grows(s: Seq<char>, i: int, j: int)
    requires
        0 <= i <= j <= s.len(),
        all_digits(s.take(j)),
    ensures
        digits_value(s.take(i)) <= digits_value(s.take(j)),
    decreases j - i,
{
    if i < j {
        assert(s.take(j).drop_last() =~= s.take(j - 1));
        assert(all_digits(s.take(j - 1))) by {
            assert forall|k: int| 0 <= k < s.take(j - 1).len() implies is_ascii_digit(#[trigger] s.take(j - 1)[k]) by {
                assert(s.take(j - 1)[k] == s.take(j)[k]);
            }
        }
        lemma_digits_value_grows(s, i, j - 1);
    }
}

/// Parse the characters `s[from..to]` as a `u32`.
pub fn parse_u32(s: &Vec<char>, from: usize, to: usize) -> (r: Option<u32>)
    requires
        from <= to <= s@.len(),
    ensures
        r == parse_u32_spec(s@.subrange(from as int, to as int)),
{
    let ghost w = s@.subrange(from as int, to as int);
    let mut start: usize = from;
    if start < to && s[start] == '+' {
        start = start + 1;
    }
    let ghost d = s@.subrange(start as int, to as int);
    assert(d =~= (if w.len() > 0 && w[0] == '+' { w.drop_first() } else { w }));
    if start >= to {
        return None;
    }
    let mut val: u64 = 0;
    let mut i: usize = start;
    while i < to
        invariant
            from <= start < to <= s@.len(),
            start <= i <= to,
            d == s@.subrange(start as int, to as int),
            w == s@.subrange(from as int, to as int),
            d == (if w.len() > 0 && w[0] == '+' { w.drop_first() } else { w }),
            all_digits(d.take(i - start)),
            val == digits_value(d.take(i - start)),
            val <= 0xffff_ffff,
        decreases to - i,
    {
        let c = s[i];
        let ghost k = i - start;
        if !char_is_ascii_digit(c) {
            proof {
                assert(!is_ascii_digit(d[k]));
            }
            return None;
        }
        proof {
            assert(d.take(k + 1).drop_last() =~= d.take(k));
            assert(d.take(k + 1).last() == c);
            assert(all_digits(d.take(k + 1))) by {
                assert forall|m: int| 0 <= m < d.take(k + 1).len() implies is_ascii_digit(#[trigger] d.take(k + 1)[m]) by {
                    if m < k {
                        assert(d.take(k + 1)[m] == d.take(k)[m]);
                    }
                }
            }
        }
        val = val * 10 + (c as u32 - 0x30) as u64;
        if val > 0xffff_ffff {
            proof {
                if all_digits(d) {
                    assert(d.take(d.len() as int) =~= d);
                    lemma_digits_value_grows(d, k + 1, d.len() as int);
                }
            }
            return None;
        }
        i = i + 1;
    }
    proof {
        assert(d.take(d.len() as int) =~= d);
    }
    Some(val as u32)
}


/// The first index at or after `k` that is not whitespace, or the end.
pub open spec fn skip_space(s: Seq<char>, k: int) -> int
    decreases s.len() - k,
{
    if k >= s.len() || !is_white_space(s[k]) {
        k
    } else {
        skip_space(s, k + 1)
    }
}

/// The first index at or after `k` that is whitespace, or the end.
pub open spec fn word_end(s: Seq<char>, k: int) -> int
    decreases s.len() - k,
{
    if k >= s.len() || is_white_space(s[k]) {
        k
    } else {
        word_end(s, k + 1)
    }
}

/// The first index at or after `k` holding a line feed, or the end.
pub open spec fn line_end(s: Seq<char>, k: int) -> int
    decreases s.len() - k,
{
    if k >= s.len() || s[k] == '\n' {
        k
    } else {
        line_end(s, k + 1)
    }
}

proof fn lemma_skip_space(s: Seq<char>, k: int)
    requires
        0 <= k <= s.len(),
    ensures
        k <= skip_space(s, k) <= s.len(),
        skip_space(s, k) < s.len() ==> !is_white_space(s[skip_space(s, k)]),
    decreases s.len() - k,
{
    if k < s.len() && is_white_space(s[k]) {
        lemma_skip_space(s, k + 1);
    }
}

proof fn lemma_word_end(s: Seq<char>, k: int)
    requires
        0 <= k <= s.len(),
    ensures
        k <= word_end(s, k) <= s.len(),
    decreases s.len() - k,
{
    if k < s.len() && !is_white_space(s[k]) {
        lemma_word_end(s, k + 1);
    }
}

proof fn lemma_line_end(s: Seq<char>, k: int)
    requires
        0 <= k <= s.len(),
    ensures
        k <= line_end(s, k) <= s.len(),
    decreases s.len() - k,
{
    if k < s.len() && s[k] != '\n' {
        lemma_line_end(s, k + 1);
    }
}

/// One line of the listing: its first two whitespace-separated words read
/// as a pid and its parent pid; nothing when either is missing or is not a
/// number.
pub open spec fn ps_line(s: Seq<char>) -> Option<(u32, u32)> {
    let a0 = skip_space(s, 0);
    let a1 = word_end(s, a0);
    let b0 = skip_space(s, a1);
    let b1 = word_end(s, b0);
    match (parse_u32_spec(s.subrange(a0, a1)), parse_u32_spec(s.subrange(b0, b1))) {
        (Some(pid), Some(ppid)) => Some((pid, ppid)),
        _ => None,
    }
}

/// The `(pid, ppid)` pairs of the listing's lines from index `k` on, in
/// order; lines are split at line feeds (a carriage return before one is
/// whitespace, and so part of no word).
pub open spec fn ps_pairs_from(s: Seq<char>, k: int) -> Seq<(u32, u32)>
    decreases s.len() + 1 - k,
    via ps_pairs_from_decreases
{
    if k < 0 || k >= s.len() {
        Seq::empty()
    } else {
        let e = line_end(s, k);
        let rest = ps_pairs_from(s, e + 1);
        match ps_line(s.subrange(k, e)) {
            Some(p) => seq![p] + rest,
            None => rest,
        }
    }
}

#[via_fn]
proof fn ps_pairs_from_decreases(s: Seq<char>, k: int) {
    if 0 <= k < s.len() {
        lemma_line_end(s, k);
    }
}

/// The first index of `s[from..to]` at or after `k` that is not whitespace.
fn scan_space(s: &Vec<char>, from: usize, to: usize, k: usize) -> (r: usize)
    requires
        from <= k <= to <= s@.len(),
    ensures
        r - from == skip_space(s@.subrange(from as int, to as int), k - from),
        k <= r <= to,
{
    let ghost line = s@.subrange(from as int, to as int);
    let mut i = k;
    while i < to && char_is_whitespace(s[i])
        invariant
            from <= k <= i <= to <= s@.len(),
            line == s@.subrange(from as int, to as int),
            skip_space(line, i - from) == skip_space(line, k - from),
        decreases to - i,
    {
        assert(line[i - from] == s@[i as int]);
        i = i + 1;
    }
    proof {
        if i < to {
            assert(line[i - from] == s@[i as int]);
        }
    }
    i
}

/// The first index of `s[from..to]` at or after `k` that is whitespace.
fn scan_word(s: &Vec<char>, from: usize, to: usize, k: usize) -> (r: usize)
    requires
        from <= k <= to <= s@.len(),
    ensures
        r - from == word_end(s@.subrange(from as int, to as int), k - from),
        k <= r <= to,
{
    let ghost line = s@.subrange(from as int, to as int);
    let mut i = k;
    while i < to && !char_is_whitespace(s[i])
        invariant
            from <= k <= i <= to <= s@.len(),
            line == s@.subrange(from as int, to as int),
            word_end(line, i - from) == word_end(line, k - from),
        decreases to - i,
    {
        assert(line[i - from] == s@[i as int]);
        i = i + 1;
    }
    proof {
        if i < to {
            assert(line[i - from] == s@[i as int]);
        }
    }
    i
}

/// Read line `s[from..to]` of the listing.
fn parse_ps_line(s: &Vec<char>, from: usize, to: usize) -> (r: Option<(u32, u32)>)
    requires
        from <= to <= s@.len(),
    ensures
        r == ps_line(s@.subrange(from as int, to as int)),
{
    let ghost line = s@.subrange(from as int, to as int);
    let a0 = scan_space(s, from, to, from);
    let a1 = scan_word(s, from, to, a0);
    let b0 = scan_space(s, from, to, a1);
    let b1 = scan_word(s, from, to, b0);
    proof {
        assert(line.subrange(a0 - from, a1 - from) =~= s@.subrange(a0 as int, a1 as int));
        assert(line.subrange(b0 - from, b1 - from) =~= s@.subrange(b0 as int, b1 as int));
    }
    match (parse_u32(s, a0, a1), parse_u32(s, b0, b1)) {
        (Some(pid), Some(ppid)) => Some((pid, ppid)),
        _ => None,
    }
}

/// Read a `ps -Ao pid=,ppid=` listing: the `(pid, ppid)` pair of every line
/// whose first two words are numbers, in order.
pub fn ps_pairs(text: &str) -> (r: Vec<(u32, u32)>)
    ensures
        r@ == ps_pairs_from(text@, 0),
{
    let s = chars_of(text);
    let mut out: Vec<(u32, u32)> = Vec::new();
    let mut k: usize = 0;
    while k < s.len()
        invariant
            s@ == text@,
            k <= s@.len(),
            out@ + ps_pairs_from(s@, k as int) == ps_pairs_from(s@, 0),
        decreases s@.len() - k,
    {
        let mut e = k;
        while e < s.len() && s[e] != '\n'
            invariant
                k <= e <= s@.len(),
                line_end(s@, e as int) == line_end(s@, k as int),
            decreases s@.len() - e,
        {
            e = e + 1;
        }
        let ghost before = out@;
        proof {
            assert(e as int == line_end(s@, e as int));
            assert(ps_pairs_from(s@, k as int) == (match ps_line(s@.subrange(k as int, e as int)) {
                Some(p) => seq![p] + ps_pairs_from(s@, e + 1),
                None => ps_pairs_from(s@, e + 1),
            }));
            assert(ps_pairs_from(s@, e + 1) == ps_pairs_from(s@, (if e < s@.len() { e + 1 } else { e as int })));
        }
        match parse_ps_line(&s, k, e) {
            Some(p) => {
                out.push(p);
                proof {
                    assert(out@ + ps_pairs_from(s@, e + 1) =~= before + ps_pairs_from(s@, k as int));
                }
            },
            None => {},
        }
        if e < s.len() {
            k = e + 1;
        } else {
            k = e;
        }
    }
    out
}


/// `parent` is the parent of `child` in the listing of `(pid, ppid)` pairs.
pub open spec fn parent_of(pairs: Seq<(u32, u32)>, parent: u32, child: u32) -> bool {
    exists|k: int| 0 <= k < pairs.len() && pairs[k] == (child, parent)
}

/// Each process of `path` is the parent of the next.
pub open spec fn is_chain(pairs: Seq<(u32, u32)>, path: Seq<u32>) -> bool {
    forall|i: int| 0 <= i < path.len() - 1 ==> #[trigger] parent_of(pairs, path[i], path[i + 1])
}

/// `c` descends from `root`: a chain of parents leads from `root` to it.
pub open spec fn descends(pairs: Seq<(u32, u32)>, root: u32, c: u32) -> bool {
    exists|path: Seq<u32>| path.len() >= 2 && path[0] == root && path.last() == c && is_chain(pairs, path)
}

/// Pid `r[i]` has a parent in the listing that is `root` or is listed
/// after it in `r`.
pub open spec fn before_its_parent(pairs: Seq<(u32, u32)>, root: u32, r: Seq<u32>, i: int) -> bool {
    exists|p: u32| #[trigger] parent_of(pairs, p, r[i]) && (p == root || exists|j: int| i < j < r.len() && r[j] == p)
}

/// Found pid `order[i]` is named on line `line[i]` of the listing, whose
/// parent is `root` (when `up[i]` is -1) or the pid found earlier at
/// `up[i]`.
spec fn found_via(ps: Seq<(u32, u32)>, root: u32, order: Seq<u32>, line: Seq<int>, up: Seq<int>, i: int) -> bool {
    &&& 0 <= line[i]
    &&& line[i] < ps.len()
    &&& ps[line[i]].0 == order[i]
    &&& -1 <= up[i]
    &&& up[i] < i
    &&& up[i] == -1 ==> ps[line[i]].1 == root
    &&& up[i] >= 0 ==> ps[line[i]].1 == order[up[i]]
}

/// Whether `v` holds `x`.
fn holds(v: &Vec<u32>, x: u32) -> (b: bool)
    ensures
        b == v@.contains(x),
{
    let mut i: usize = 0;
    while i < v.len()
        invariant
            i <= v@.len(),
            forall|j: int| 0 <= j < i ==> v@[j] != x,
        decreases v@.len() - i,
    {
        if v[i] == x {
            return true;
        }
        i = i + 1;
    }
    false
}

/// Distinct pids drawn from the listing are no more than its lines.
proof fn lemma_distinct_bound(o: Seq<u32>, pairs: Seq<(u32, u32)>)
    requires
        o.no_duplicates(),
        forall|c: u32| o.contains(c) ==> exists|k: int| 0 <= k < pairs.len() && #[trigger] pairs[k].0 == c,
    ensures
        o.len() <= pairs.len(),
{
    let f = pairs.map_values(|q: (u32, u32)| q.0);
    o.unique_seq_to_set();
    f.lemma_cardinality_of_set();
    assert(o.to_set().subset_of(f.to_set())) by {
        assert forall|x: u32| o.to_set().contains(x) implies f.to_set().contains(x) by {
            assert(o.contains(x));
            let k = choose|k: int| 0 <= k < pairs.len() && #[trigger] pairs[k].0 == x;
            assert(f[k] == x);
        }
    }
    vstd::set_lib::lemma_len_subset(o.to_set(), f.to_set());
}

/// When every listed child of a process in `seen` (or of `root`) is in
/// `seen` or is `root`, everything descending from `root` is in `seen`.
proof fn lemma_closed_holds_descendants(pairs: Seq<(u32, u32)>, root: u32, seen: Seq<u32>, path: Seq<u32>, i: int)
    requires
        forall|k: int|
            0 <= k < pairs.len() && (pairs[k].1 == root || seen.contains(pairs[k].1)) ==> #[trigger] pairs[k].0
                == root || seen.contains(pairs[k].0),
        path.len() >= 1,
        path[0] == root,
        is_chain(pairs, path),
        0 <= i < path.len(),
    ensures
        path[i] == root || seen.contains(path[i]),
    decreases i,
{
    if i > 0 {
        lemma_closed_holds_descendants(pairs, root, seen, path, i - 1);
        let m = i - 1;
        assert(parent_of(pairs, path[m], path[m + 1]));
        let k = choose|k: int| 0 <= k < pairs.len() && pairs[k] == (path[i], path[i - 1]);
        assert(pairs[k].0 == root || seen.contains(pairs[k].0));
    }
}

/// Every descendant of `root` in the listing, deepest first: each pid comes
/// before the parent through which it was found, none twice, and `root`
/// itself is not included.
pub fn descendants_of(pairs: &Vec<(u32, u32)>, root: u32) -> (r: Vec<u32>)
    ensures
        r@.no_duplicates(),
        forall|c: u32| #[trigger] r@.contains(c) <==> (c != root && descends(pairs@, root, c)),
        forall|i: int| 0 <= i < r@.len() ==> #[trigger] before_its_parent(pairs@, root, r@, i),
{
    let ghost ps = pairs@;
    let mut order: Vec<u32> = Vec::new();
    let mut stack: Vec<u32> = Vec::new();
    // For each found pid: the line that names its parent, and where that
    // parent stands in `order` (-1 for `root`).
    let ghost mut line: Seq<int> = Seq::empty();
    let ghost mut up: Seq<int> = Seq::empty();
    stack.push(root);
    assert(stack@[0] == root);
    while stack.len() > 0
        invariant
            ps == pairs@,
            order@.no_duplicates(),
            !order@.contains(root),
            order@.len() <= ps.len(),
            line.len() == order@.len(),
            up.len() == order@.len(),
            forall|i: int| 0 <= i < order@.len() ==> #[trigger] found_via(ps, root, order@, line, up, i),
            forall|c: u32| #[trigger] order@.contains(c) ==> descends(ps, root, c),
            forall|x: u32| #[trigger] stack@.contains(x) ==> x == root || order@.contains(x),
            forall|k: int|
                0 <= k < ps.len() && (ps[k].1 == root || order@.contains(ps[k].1)) && !stack@.contains(ps[k].1)
                    ==> #[trigger] ps[k].0 == root || order@.contains(ps[k].0),
        decreases ps.len() - order@.len(), stack@.len(),
    {
        let ghost s0 = stack@;
        let ghost o0 = order@;
        let p = stack.pop().unwrap();
        // Where `p` stands in `order`, if it is not `root`.
        proof {
            assert(s0[s0.len() - 1] == p);
            assert(s0 == stack@.push(p));
            assert(s0.contains(p));
            assert forall|x: u32| #[trigger] stack@.contains(x) implies x == root || order@.contains(x) by {
                let t = choose|t: int| 0 <= t < stack@.len() && stack@[t] == x;
                assert(s0[t] == x);
                assert(s0.contains(x));
            }
            assert forall|x: u32| #[trigger] s0.contains(x) && x != p implies stack@.contains(x) by {
                let t = choose|t: int| 0 <= t < s0.len() && s0[t] == x;
                assert(t < s0.len() - 1);
                assert(stack@[t] == x);
            }
        }
        let ghost pat: int = if p == root { -1 } else { choose|t: int| 0 <= t < o0.len() && o0[t] == p };
        let mut j: usize = 0;
        while j < pairs.len()
            invariant
                ps == pairs@,
                p == root ==> pat == -1,
                p != root ==> 0 <= pat < o0.len() && o0[pat] == p,
                j <= ps.len(),
                order@.len() >= o0.len(),
                order@.subrange(0, o0.len() as int) == o0,
                stack@.len() + 1 >= s0.len(),
                order@.len() > o0.len() || stack@.len() + 1 == s0.len(),
                order@.no_duplicates(),
                !order@.contains(root),
                order@.len() <= ps.len(),
                line.len() == order@.len(),
                up.len() == order@.len(),
                forall|i: int| 0 <= i < order@.len() ==> #[trigger] found_via(ps, root, order@, line, up, i),
                forall|c: u32| #[trigger] order@.contains(c) ==> descends(ps, root, c),
                forall|x: u32| #[trigger] stack@.contains(x) ==> x == root || order@.contains(x),
                forall|k: int|
                    0 <= k < ps.len() && (ps[k].1 == root || order@.contains(ps[k].1)) && !stack@.contains(ps[k].1)
                        && (ps[k].1 != p || k < j) ==> #[trigger] ps[k].0 == root || order@.contains(ps[k].0),
            decreases ps.len() - j,
        {
            let (c, pp) = pairs[j];
            if pp == p && c != root && !holds(&order, c) {
                let ghost ob = order@;
                let ghost sb = stack@;
                proof {
                    if p != root {
                        assert(order@[pat] == o0[pat]);
                    }
                    assert(parent_of(ps, p, c)) by {
                        assert(ps[j as int] == (c, p));
                    }
                    assert(descends(ps, root, c)) by {
                        if p == root {
                            let path = seq![root, c];
                            assert(is_chain(ps, path));
                            assert(path.last() == c);
                        } else {
                            assert(order@.contains(p));
                            let path = choose|path: Seq<u32>|
                                path.len() >= 2 && path[0] == root && path.last() == p && is_chain(ps, path);
                            let np = path.push(c);
                            assert forall|i: int| 0 <= i < np.len() - 1 implies #[trigger] parent_of(ps, np[i], np[i + 1]) by {
                                if i < path.len() - 1 {
                                    assert(np[i] == path[i] && np[i + 1] == path[i + 1]);
                                    assert(parent_of(ps, path[i], path[i + 1]));
                                } else {
                                    assert(np[i] == p && np[i + 1] == c);
                                }
                            }
                            assert(np.last() == c);
                            assert(np[0] == root);
                        }
                    }
                    assert(ob.push(c).no_duplicates()) by {
                        assert forall|a: int, b: int| 0 <= a < b < ob.push(c).len() implies ob.push(c)[a] != ob.push(c)[b] by {
                            if b == ob.len() {
                                assert(ob.contains(ob[a]));
                            } else {
                                assert(ob.push(c)[a] == ob[a] && ob.push(c)[b] == ob[b]);
                            }
                        }
                    }
                    assert forall|x: u32| ob.push(c).contains(x) implies exists|k: int| 0 <= k < ps.len() && #[trigger] ps[k].0 == x by {
                        let t = choose|t: int| 0 <= t < ob.push(c).len() && ob.push(c)[t] == x;
                        if t == ob.len() {
                            assert(ps[j as int].0 == x);
                        } else {
                            assert(ob[t] == x);
                            assert(found_via(ps, root, ob, line, up, t));
                        }
                    }
                    lemma_distinct_bound(ob.push(c), ps);
                }
                order.push(c);
                stack.push(c);
                proof {
                    let lb = line;
                    let ub = up;
                    line = line.push(j as int);
                    up = up.push(pat);
                    if p != root {
                        assert(order@[pat] == p);
                    }
                    assert forall|i: int| 0 <= i < order@.len() implies #[trigger] found_via(ps, root, order@, line, up, i) by {
                        if i < ob.len() {
                            assert(found_via(ps, root, ob, lb, ub, i));
                            assert(order@[i] == ob[i]);
                            assert(line[i] == lb[i] && up[i] == ub[i]);
                            if up[i] >= 0 {
                                assert(order@[up[i]] == ob[up[i]]);
                            }
                        }
                    }
                    assert forall|x: u32| #[trigger] order@.contains(x) implies descends(ps, root, x) by {
                        if x != c {
                            let t = choose|t: int| 0 <= t < order@.len() && order@[t] == x;
                            assert(ob[t] == x);
                            assert(ob.contains(x));
                        }
                    }
                    assert forall|x: u32| #[trigger] stack@.contains(x) implies x == root || order@.contains(x) by {
                        if x != c {
                            let t = choose|t: int| 0 <= t < stack@.len() && stack@[t] == x;
                            assert(sb[t] == x);
                            assert(sb.contains(x));
                            if x != root {
                                let u = choose|u: int| 0 <= u < ob.len() && ob[u] == x;
                                assert(order@[u] == x);
                            }
                        } else {
                            assert(order@[ob.len() as int] == c);
                        }
                    }
                    assert forall|k: int|
                        0 <= k < ps.len() && (ps[k].1 == root || order@.contains(ps[k].1)) && !stack@.contains(ps[k].1)
                            && (ps[k].1 != p || k < j + 1) implies #[trigger] ps[k].0 == root || order@.contains(ps[k].0) by {
                        let x = ps[k].1;
                        assert(stack@[stack@.len() - 1] == c);
                        assert(x != c);
                        if x != root {
                            let t = choose|t: int| 0 <= t < order@.len() && order@[t] == x;
                            assert(t < ob.len());
                            assert(ob[t] == x);
                        }
                        assert(!sb.contains(x)) by {
                            if sb.contains(x) {
                                let t = choose|t: int| 0 <= t < sb.len() && sb[t] == x;
                                assert(stack@[t] == x);
                            }
                        }
                        if k == j {
                            assert(order@[ob.len() as int] == c);
                        } else {
                            if ps[k].0 != root {
                                let t = choose|t: int| 0 <= t < ob.len() && ob[t] == ps[k].0;
                                assert(order@[t] == ps[k].0);
                            }
                        }
                    }
                    assert(order@.subrange(0, o0.len() as int) =~= o0) by {
                        assert(ob.subrange(0, o0.len() as int) == o0);
                    }
                }
            } else {
                proof {
                    if pp == p && c != root {
                        assert(order@.contains(c));
                    }
                }
            }
            j = j + 1;
        }
        proof {
            assert forall|c: u32| o0.contains(c) implies order@.contains(c) by {
                let t = choose|t: int| 0 <= t < o0.len() && o0[t] == c;
                assert(order@.subrange(0, o0.len() as int)[t] == c);
            }
        }
    }
    proof {
        assert forall|c: u32| c != root && descends(ps, root, c) implies #[trigger] order@.contains(c) by {
            let path = choose|path: Seq<u32>| path.len() >= 2 && path[0] == root && path.last() == c && is_chain(ps, path);
            lemma_closed_holds_descendants(ps, root, order@, path, path.len() - 1);
        }
    }
    let n = order.len();
    let mut r: Vec<u32> = Vec::new();
    let mut i: usize = n;
    while i > 0
        invariant
            n == order@.len(),
            i <= n,
            r@.len() == n - i,
            forall|t: int| 0 <= t < n - i ==> #[trigger] r@[t] == order@[n - 1 - t],
        decreases i,
    {
        i = i - 1;
        r.push(order[i]);
    }
    proof {
        let o = order@;
        assert(r@.len() == o.len());
        assert forall|a: int, b: int| 0 <= a < b < r@.len() implies r@[a] != r@[b] by {
            assert(r@[a] == o[n - 1 - a] && r@[b] == o[n - 1 - b]);
        }
        assert forall|c: u32| #[trigger] r@.contains(c) <==> o.contains(c) by {
            if r@.contains(c) {
                let t = choose|t: int| 0 <= t < r@.len() && r@[t] == c;
                assert(o[n - 1 - t] == c);
            }
            if o.contains(c) {
                let t = choose|t: int| 0 <= t < o.len() && o[t] == c;
                assert(r@[n - 1 - t] == c);
            }
        }
        assert forall|i: int| 0 <= i < r@.len() implies #[trigger] before_its_parent(pairs@, root, r@, i) by {
            let oi = n - 1 - i;
            assert(r@[i] == o[oi]);
            assert(found_via(ps, root, o, line, up, oi));
            let q = ps[line[oi]].1;
            assert(pairs@[line[oi]] == (r@[i], q));
            assert(parent_of(pairs@, q, r@[i]));
            if up[oi] >= 0 {
                let t = up[oi];
                assert(r@[n - 1 - t] == o[t]);
                assert(i < n - 1 - t < r@.len() && r@[n - 1 - t] == q);
            }
        }
    }
    r
}

/// Every descendant of `root` in a `ps -Ao pid=,ppid=` listing, deepest
/// first (see `descendants_of`).
pub fn descendants(listing: &str, root: u32) -> (r: Vec<u32>)
    ensures
        r@.no_duplicates(),
        forall|c: u32| #[trigger] r@.contains(c) <==> (c != root && descends(ps_pairs_from(listing@, 0), root, c)),
        forall|i: int|
            0 <= i < r@.len() ==> #[trigger] before_its_parent(ps_pairs_from(listing@, 0), root, r@, i),
{
    let pairs = ps_pairs(listing);
    descendants_of(&pairs, root)
}

proof fn lemma_digits_value_is_number(s: Seq<char>)
    ensures
        digits_value(s) == crate::text::digits_number(s),
    decreases s.len(),
{
    if s.len() > 0 {
        lemma_digits_value_is_number(s.drop_last());
    }
}

/// A process id reads back as the number it was written as: the decimal
/// rendering of any 32-bit number parses to that number, and a word with
/// a character that is not a digit (past an optional leading `+`) is no
/// number.
pub proof fn a_written_pid_reads_back(n: u32, w: Seq<char>, i: int)
    requires
        0 < i < w.len(),
        !crate::text::is_ascii_digit(w[i]),
    ensures
        parse_u32_spec(decimal(n as nat)) == Some(n),
        parse_u32_spec(w) is None,
{
    crate::text::decimal_spells_the_number(n as nat);
    lemma_digits_value_is_number(decimal(n as nat));
    let d = decimal(n as nat);
    assert(d[0] != '+');
    assert(all_digits(d));
    let e = if w.len() > 0 && w[0] == '+' { w.drop_first() } else { w };
    if w[0] == '+' {
        assert(e[i - 1] == w[i]);
    } else {
        assert(e[i] == w[i]);
    }
}

} // verus!
