//! Decisions about a session's panes and its terminal: what a new pane
//! runs, which panes to reap and spawn when the layout changes, when a
//! measured terminal size is adopted, and whether the host terminal shows
//! Kitty graphics.

use vstd::prelude::*;
use crate::shell::{shell_split, shell_words, string_views};
use crate::text::{chars_of, decimal, push_decimal, push_str, rfind, rfind_chars, string_of, trim, trim_chars};

verus! {

/// Rows reserved below the panes for chrome: none (the bottom status row
/// was removed; status lives in the centered overlays).
pub fn chrome_rows() -> (r: u16)
    ensures
        r == 0,
{
    0
}

/// The command an agent pane runs: this binary (quoted, so a path with
/// spaces survives `shell_split`) with its `agent` subcommand.
pub fn gateway_command(exe: &str) -> (cmd: String)
    ensures
        cmd@ == seq!['"'] + exe@ + "\" agent"@,
{
    let mut v: Vec<char> = Vec::new();
    v.push('"');
    push_str(&mut v, exe);
    push_str(&mut v, "\" agent");
    proof {
        assert(v@ =~= seq!['"'] + exe@ + "\" agent"@);
    }
    string_of(&v)
}

/// The argument vector a pane runs: the user's shell (`sh` when none is
/// set) for a blank command, the split command otherwise; an error when
/// that leaves nothing to run.
pub open spec fn argv_spec(cmd: Seq<char>, shell: Option<Seq<char>>) -> Result<Seq<Seq<char>>, Seq<char>> {
    let argv = if trim(cmd).len() == 0 {
        seq![match shell {
            Some(s) => s,
            None => seq!['s', 'h'],
        }]
    } else {
        shell_words(cmd)
    };
    if argv.len() == 0 {
        Err("empty command"@)
    } else {
        Ok(argv)
    }
}

/// The argument vector for a new pane running `cmd`, given the login
/// shell (`$SHELL`, when set).
pub fn spawn_argv(cmd: &str, shell: Option<&str>) -> (r: Result<Vec<String>, String>)
    ensures
        match r {
            Ok(v) => argv_spec(cmd@, match shell {
                Some(s) => Some(s@),
                None => None,
            }) == Ok::<Seq<Seq<char>>, Seq<char>>(string_views(v@)),
            Err(e) => argv_spec(cmd@, match shell {
                Some(s) => Some(s@),
                None => None,
            }) == Err::<Seq<Seq<char>>, Seq<char>>(e@),
        },
{
    let ghost sh_spec: Option<Seq<char>> = match shell {
        Some(s) => Some(s@),
        None => None,
    };
    let trimmed = trim_chars(&chars_of(cmd));
    let mut argv: Vec<String> = Vec::new();
    if trimmed.len() == 0 {
        let sh: String = match shell {
            Some(s) => string_of(&chars_of(s)),
            None => string_of(&chars_of("sh")),
        };
        proof {
            reveal_strlit("sh");
            assert(sh@ == match sh_spec {
                Some(s) => s,
                None => seq!['s', 'h'],
            });
        }
        argv.push(sh);
        proof {
            assert(string_views(argv@) =~= seq![sh@]);
        }
    } else {
        argv = shell_split(cmd);
    }
    proof {
        assert(string_views(argv@) == (if trim(cmd@).len() == 0 {
            seq![match sh_spec {
                Some(s) => s,
                None => seq!['s', 'h'],
            }]
        } else {
            shell_words(cmd@)
        }));
    }
    if argv.len() == 0 {
        proof {
            reveal_strlit("empty command");
        }
        return Err(string_of(&chars_of("empty command")));
    }
    Ok(argv)
}

/// The environment a pane's process gets on top of gwae's own: its pane id
/// as `GWAE_PANE`, and `TERM=xterm-256color`.
pub fn pane_env(id: u64) -> (env: Vec<(String, String)>)
    ensures
        env@.len() == 2,
        env@[0].0@ == "GWAE_PANE"@,
        env@[0].1@ == decimal(id as nat),
        env@[1].0@ == "TERM"@,
        env@[1].1@ == "xterm-256color"@,
{
    let mut digits: Vec<char> = Vec::new();
    push_decimal(&mut digits, id);
    proof {
        assert(digits@ =~= decimal(id as nat));
    }
    let mut env: Vec<(String, String)> = Vec::new();
    env.push((string_of(&chars_of("GWAE_PANE")), string_of(&digits)));
    env.push((string_of(&chars_of("TERM")), string_of(&chars_of("xterm-256color"))));
    env
}

/// Whether `x` occurs in `s`.
pub open spec fn seq_has(s: Seq<u64>, x: u64) -> bool {
    exists|i: int| 0 <= i < s.len() && s[i] == x
}

/// The panes to spawn: each wanted pane without a live process, once, in
/// the order the layout lists them (`wanted[..k]`).
pub open spec fn to_spawn(wanted: Seq<u64>, live: Seq<u64>, k: nat) -> Seq<u64>
    decreases k,
{
    if k == 0 {
        Seq::empty()
    } else {
        let prev = to_spawn(wanted, live, (k - 1) as nat);
        let p = wanted[k - 1];
        if seq_has(live, p) || seq_has(prev, p) {
            prev
        } else {
            prev.push(p)
        }
    }
}

/// The panes to reap: every live pane the layout no longer has
/// (`live[..k]`), in the order given.
pub open spec fn to_kill(wanted: Seq<u64>, live: Seq<u64>, k: nat) -> Seq<u64>
    decreases k,
{
    if k == 0 {
        Seq::empty()
    } else {
        let prev = to_kill(wanted, live, (k - 1) as nat);
        let p = live[k - 1];
        if seq_has(wanted, p) {
            prev
        } else {
            prev.push(p)
        }
    }
}

/// Whether `v` holds `x`.
fn vec_has(v: &Vec<u64>, x: u64) -> (b: bool)
    ensures
        b == seq_has(v@, x),
{
    let mut i: usize = 0;
    while i < v.len()
        invariant
            i <= v@.len(),
            forall|j: int| 0 <= j < i ==> v@[j] != x,
        decreases v.len() - i,
    {
        if v[i] == x {
            return true;
        }
        i = i + 1;
    }
    false
}

/// Reconcile the live panes with the layout: which live panes to reap
/// (the layout no longer has them) and which wanted panes to spawn (no
/// live process yet), each in order.
pub fn pane_sync_plan(wanted: &Vec<u64>, live: &Vec<u64>) -> (plan: (Vec<u64>, Vec<u64>))
    ensures
        plan.0@ == to_kill(wanted@, live@, live@.len()),
        plan.1@ == to_spawn(wanted@, live@, wanted@.len()),
{
    let mut kill: Vec<u64> = Vec::new();
    let mut i: usize = 0;
    while i < live.len()
        invariant
            i <= live@.len(),
            kill@ == to_kill(wanted@, live@, i as nat),
        decreases live.len() - i,
    {
        if !vec_has(wanted, live[i]) {
            kill.push(live[i]);
        }
        i = i + 1;
    }
    let mut spawn: Vec<u64> = Vec::new();
    let mut k: usize = 0;
    while k < wanted.len()
        invariant
            k <= wanted@.len(),
            spawn@ == to_spawn(wanted@, live@, k as nat),
        decreases wanted.len() - k,
    {
        let p = wanted[k];
        if !vec_has(live, p) && !vec_has(&spawn, p) {
            spawn.push(p);
        }
        k = k + 1;
    }
    (kill, spawn)
}

/// Whether `x` occurs among the first `k` entries of `s`.
pub open spec fn prefix_has(s: Seq<u64>, k: int, x: u64) -> bool {
    exists|i: int| 0 <= i < k && i < s.len() && s[i] == x
}

/// A pane is reaped exactly when it is live and no longer wanted.
proof fn lemma_to_kill(wanted: Seq<u64>, live: Seq<u64>, k: nat, p: u64)
    requires
        k <= live.len(),
    ensures
        seq_has(to_kill(wanted, live, k), p) <==> (prefix_has(live, k as int, p) && !seq_has(wanted, p)),
    decreases k,
{
    if k > 0 {
        let prev = to_kill(wanted, live, (k - 1) as nat);
        lemma_to_kill(wanted, live, (k - 1) as nat, p);
        let q = live[k - 1];
        if seq_has(to_kill(wanted, live, k), p) {
            let i = choose|i: int| 0 <= i < to_kill(wanted, live, k).len() && to_kill(wanted, live, k)[i] == p;
            if !seq_has(wanted, q) && i == prev.len() {
                assert(live[k - 1] == p);
            } else {
                assert(prev[i] == p);
            }
        }
        if prefix_has(live, k as int, p) && !seq_has(wanted, p) {
            let i = choose|i: int| 0 <= i < k && i < live.len() && live[i] == p;
            if i == k - 1 {
                assert(to_kill(wanted, live, k)[prev.len() as int] == p);
            } else {
                assert(prefix_has(live, k - 1, p));
                let j = choose|j: int| 0 <= j < prev.len() && prev[j] == p;
                assert(to_kill(wanted, live, k)[j] == p);
            }
        }
    }
}

/// A pane is spawned exactly when it is wanted and not live; none twice.
proof fn lemma_to_spawn(wanted: Seq<u64>, live: Seq<u64>, k: nat, p: u64)
    requires
        k <= wanted.len(),
    ensures
        seq_has(to_spawn(wanted, live, k), p) <==> (prefix_has(wanted, k as int, p) && !seq_has(live, p)),
        forall|i: int, j: int|
            0 <= i < j < to_spawn(wanted, live, k).len() ==> to_spawn(wanted, live, k)[i] != to_spawn(
                wanted,
                live,
                k,
            )[j],
    decreases k,
{
    if k > 0 {
        let prev = to_spawn(wanted, live, (k - 1) as nat);
        let cur = to_spawn(wanted, live, k);
        lemma_to_spawn(wanted, live, (k - 1) as nat, p);
        let q = wanted[k - 1];
        lemma_to_spawn(wanted, live, (k - 1) as nat, q);
        if seq_has(cur, p) {
            let i = choose|i: int| 0 <= i < cur.len() && cur[i] == p;
            if i == prev.len() {
                assert(wanted[k - 1] == p);
            } else {
                assert(prev[i] == p);
            }
        }
        if prefix_has(wanted, k as int, p) && !seq_has(live, p) {
            let i = choose|i: int| 0 <= i < k && i < wanted.len() && wanted[i] == p;
            if seq_has(prev, p) {
                let j = choose|j: int| 0 <= j < prev.len() && prev[j] == p;
                assert(cur[j] == p);
            } else {
                if i < k - 1 {
                    assert(prefix_has(wanted, k - 1, p));
                }
                assert(cur[prev.len() as int] == p);
            }
        }
        assert forall|i: int, j: int| 0 <= i < j < cur.len() implies cur[i] != cur[j] by {
            if j == prev.len() && cur.len() > prev.len() {
                assert(!seq_has(prev, q));
                assert(prev[i] == cur[i]);
            }
        }
    }
}

/// The reconciling plan leaves exactly the wanted panes: after reaping
/// `kill` and spawning `spawn`, a pane runs if and only if the layout
/// wants it; only live panes are reaped, no live pane is spawned again,
/// and no pane is spawned twice.
pub proof fn sync_plan_reconciles(wanted: Seq<u64>, live: Seq<u64>, p: u64)
    ensures
        ({
            let kill = to_kill(wanted, live, live.len());
            let spawn = to_spawn(wanted, live, wanted.len());
            &&& ((seq_has(live, p) && !seq_has(kill, p)) || seq_has(spawn, p)) <==> seq_has(wanted, p)
            &&& seq_has(kill, p) ==> seq_has(live, p)
            &&& seq_has(spawn, p) ==> !seq_has(live, p)
            &&& forall|i: int, j: int| 0 <= i < j < spawn.len() ==> spawn[i] != spawn[j]
        }),
{
    lemma_to_kill(wanted, live, live.len(), p);
    lemma_to_spawn(wanted, live, wanted.len(), p);
    if seq_has(live, p) {
        let i = choose|i: int| 0 <= i < live.len() && live[i] == p;
        assert(prefix_has(live, live.len() as int, p));
    }
    if seq_has(wanted, p) {
        let i = choose|i: int| 0 <= i < wanted.len() && wanted[i] == p;
        assert(prefix_has(wanted, wanted.len() as int, p));
    }
}

/// The size adopted from a measurement `(c, r)`: at least one column and
/// two rows.
pub open spec fn adopted(c: u16, r: u16) -> (u16, u16) {
    (if c >= 1 { c } else { 1 }, if r >= 2 { r } else { 2 })
}

/// Adopt a measured terminal size: the new `(cols, rows)` and whether it
/// differs from the one known so far.
pub fn adopt_size(cols: u16, rows: u16, measured_cols: u16, measured_rows: u16) -> (r: (u16, u16, bool))
    ensures
        (r.0, r.1) == adopted(measured_cols, measured_rows),
        r.2 == ((r.0, r.1) != (cols, rows)),
{
    let c: u16 = if measured_cols >= 1 { measured_cols } else { 1 };
    let rr: u16 = if measured_rows >= 2 { measured_rows } else { 2 };
    (c, rr, c != cols || rr != rows)
}

/// What `str::to_lowercase` returns for `s`: its characters under the
/// Unicode lowercase mapping.
pub uninterp spec fn unicode_lowercase(s: Seq<char>) -> Seq<char>;

/// `str::to_lowercase`. The mapping comes from the standard library's
/// Unicode tables (and folds some characters to several), so the contract
/// only names the result as a function of `s`; nothing more of it is
/// stated.
#[verifier::external_body]
fn to_lowercase(s: &str) -> (r: String)
    ensures
        r@ == unicode_lowercase(s@),
{
    s.to_lowercase()
}

/// Whether `pat` occurs in `s`.
pub open spec fn has_text(s: Seq<char>, pat: Seq<char>) -> bool {
    rfind(s, pat) is Some
}

fn contains_text(s: &Vec<char>, pat: &str) -> (b: bool)
    ensures
        b == has_text(s@, pat@),
{
    let p = chars_of(pat);
    rfind_chars(s, &p).is_some()
}

fn is_text(s: &Vec<char>, word: &str) -> (b: bool)
    ensures
        b == (s@ == word@),
{
    let w = chars_of(word);
    if s.len() != w.len() {
        proof {
            assert(s@.len() != word@.len());
        }
        return false;
    }
    let mut i: usize = 0;
    while i < s.len()
        invariant
            s@.len() == w@.len(),
            w@ == word@,
            i <= s@.len(),
            forall|k: int| 0 <= k < i ==> s@[k] == w@[k],
        decreases s.len() - i,
    {
        if s[i] != w[i] {
            proof {
                assert(s@[i as int] != w@[i as int]);
                assert(s@ != w@);
            }
            return false;
        }
        i = i + 1;
    }
    proof {
        assert(s@ =~= w@);
    }
    true
}

/// Whether the host terminal shows Kitty graphics: an explicit
/// `GWAE_KITTY_GRAPHICS` setting decides (`1`, `true`, `yes` or `on` mean
/// yes); otherwise Kitty's own window id, or a `TERM` naming kitty or
/// ghostty, or a `TERM_PROGRAM` naming kitty, ghostty or wezterm (case
/// folded).
pub open spec fn kitty_graphics_spec(setting: Option<Seq<char>>, kitty_window: bool, term: Seq<char>, term_program: Seq<char>) -> bool {
    match setting {
        Some(v) => {
            let t = trim(v);
            t == "1"@ || t == "true"@ || t == "yes"@ || t == "on"@
        },
        None => {
            let lt = unicode_lowercase(term);
            let lp = unicode_lowercase(term_program);
            kitty_window || has_text(lt, "kitty"@) || has_text(lt, "ghostty"@) || has_text(lp, "kitty"@)
                || has_text(lp, "ghostty"@) || has_text(lp, "wezterm"@)
        },
    }
}

/// Decide Kitty graphics support from the environment's values: the
/// override setting (when set), whether `KITTY_WINDOW_ID` is set, `TERM`
/// and `TERM_PROGRAM` (empty when unset).
pub fn kitty_graphics(setting: Option<&str>, kitty_window: bool, term: &str, term_program: &str) -> (b: bool)
    ensures
        b == kitty_graphics_spec(
            match setting {
                Some(v) => Some(v@),
                None => None,
            },
            kitty_window,
            term@,
            term_program@,
        ),
{
    match setting {
        Some(v) => {
            let t = trim_chars(&chars_of(v));
            return is_text(&t, "1") || is_text(&t, "true") || is_text(&t, "yes") || is_text(&t, "on");
        },
        None => {},
    }
    if kitty_window {
        return true;
    }
    let lt = chars_of(to_lowercase(term).as_str());
    if contains_text(&lt, "kitty") || contains_text(&lt, "ghostty") {
        return true;
    }
    let lp = chars_of(to_lowercase(term_program).as_str());
    contains_text(&lp, "kitty") || contains_text(&lp, "ghostty") || contains_text(&lp, "wezterm")
}

/// An agent pane's command runs this very binary, whatever spaces its
/// path holds: the gateway command splits back into the path and `agent`
/// (for a path without quote characters), and a blank command runs the
/// login shell, or `sh` when none is set.
pub proof fn the_gateway_command_runs_this_binary(exe: Seq<char>, shell: Option<Seq<char>>, blank: Seq<char>)
    requires
        exe.len() > 0,
        forall|j: int| 0 <= j < exe.len() ==> !crate::shell::is_quote(#[trigger] exe[j]),
        trim(blank).len() == 0,
    ensures
        argv_spec(seq!['"'] + exe + "\" agent"@, shell) == Ok::<Seq<Seq<char>>, Seq<char>>(seq![exe, "agent"@]),
        argv_spec(blank, shell) == Ok::<Seq<Seq<char>>, Seq<char>>(seq![
            match shell {
                Some(sh) => sh,
                None => "sh"@,
            },
        ]),
{
    reveal_strlit("\" agent");
    reveal_strlit("agent");
    reveal_strlit("sh");
    assert("sh"@ =~= seq!['s', 'h']);
    let word = "agent"@;
    assert(crate::shell::plain_word(word)) by {
        assert forall|j: int| 0 <= j < word.len() implies !crate::shell::is_quote(#[trigger] word[j])
            && !crate::text::is_white_space(word[j]) by {}
    }
    crate::shell::a_quoted_word_survives_the_split(exe, word);
    let cmd = seq!['"'] + exe + "\" agent"@;
    assert(cmd =~= seq!['"'] + exe + seq!['"', ' '] + word);
    assert(cmd[0] == '"');
    assert(trim(cmd).len() != 0) by {
        assert(!crate::text::is_white_space('"'));
        assert(crate::text::trim_front(cmd) == cmd);
        assert(cmd.last() == 't');
        assert(!crate::text::is_white_space('t'));
        assert(crate::text::trim_back(cmd) == cmd);
    }
}

} // verus!
