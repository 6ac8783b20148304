//! The one-line note the event loop shows (config reloads, copies, pastes,
//! the update notice): when it appears, where it is anchored, and when it
//! goes away.

use vstd::prelude::*;
use crate::view::Rect;
use crate::hud::{copy_note, copy_note_spec, first_line, first_line_spec, paste_confirmation, paste_confirmation_spec, paste_note, paste_note_spec};
use crate::text::{chars_of, decimal, push_decimal, push_str, string_of, sub_chars};

verus! {

/// How long a note stays up (ms).
pub const NOTE_LINGER_MS: u64 = 2500;

/// A note on screen: its text, when it expires (ms on the loop's clock),
/// and the pane rect it is anchored to (`None`: the screen's bottom-left).
#[derive(Debug, Clone, PartialEq, Eq)]
pub struct Note {
    pub text: String,
    pub until_ms: u64,
    pub anchor: Option<Rect>,
}

/// Whether a note still shows at `now_ms`.
pub open spec fn shows_at(n: Note, now_ms: u64) -> bool {
    now_ms < n.until_ms
}

/// Post `text` at `now_ms`, anchored to `anchor`, for the usual linger.
pub fn post(text: String, anchor: Option<Rect>, now_ms: u64) -> (n: Note)
    requires
        now_ms + NOTE_LINGER_MS <= u64::MAX,
    ensures
        n.text@ == text@,
        n.anchor == anchor,
        n.until_ms == now_ms + NOTE_LINGER_MS,
{
    Note { text, until_ms: now_ms + NOTE_LINGER_MS, anchor }
}

/// Expire the note at `now_ms`: it goes away once its time is up, and
/// otherwise stays exactly as it was.
pub fn expire(note: Option<Note>, now_ms: u64) -> (r: Option<Note>)
    ensures
        match note {
            Some(n) => if shows_at(n, now_ms) { r == Some(n) } else { r is None },
            None => r is None,
        },
{
    match note {
        Some(n) => if now_ms < n.until_ms { Some(n) } else { None },
        None => None,
    }
}

/// The update notice offered at `now_ms`: it is shown once per session,
/// only while nothing else is on screen (it is the least urgent thing to
/// say), unanchored, for three times the usual linger. The note on screen
/// afterwards, and whether the notice is still pending.
pub open spec fn offer_update_spec(note: Option<Note>, pending: bool, text: Option<String>, now_ms: u64) -> (
    Option<Note>,
    bool,
) {
    if pending && note is None && text is Some {
        (Some(Note { text: text->0, until_ms: (now_ms + 3 * NOTE_LINGER_MS) as u64, anchor: None }), false)
    } else {
        (note, pending)
    }
}

/// Offer the update notice (`text`, when the background check found one).
pub fn offer_update(note: Option<Note>, pending: bool, text: Option<String>, now_ms: u64) -> (r: (Option<Note>, bool))
    requires
        now_ms + 3 * NOTE_LINGER_MS <= u64::MAX,
    ensures
        r == offer_update_spec(note, pending, text, now_ms),
{
    if pending && note.is_none() {
        match text {
            Some(t) => {
                return (Some(Note { text: t, until_ms: now_ms + 3 * NOTE_LINGER_MS, anchor: None }), false);
            },
            None => {},
        }
    }
    (note, pending)
}

/// The update notice never covers another note, and once shown it is
/// never offered again: the next offer, whatever it brings, changes
/// nothing.
pub proof fn the_update_notice_yields_and_shows_once(
    shown: Note,
    pending: bool,
    text: Option<String>,
    now_ms: u64,
    first: String,
    later: Option<Note>,
    later_text: Option<String>,
    later_ms: u64,
)
    ensures
        offer_update_spec(Some(shown), pending, text, now_ms) == (Some(shown), pending),
        !offer_update_spec(None, true, Some(first), now_ms).1,
        offer_update_spec(later, offer_update_spec(None, true, Some(first), now_ms).1, later_text, later_ms) == (
            later,
            false,
        ),
{
}

/// What `{:?}` writes for a string: the string in double quotes with
/// `str::escape_debug` applied to its characters.
pub uninterp spec fn debug_str(s: Seq<char>) -> Seq<char>;

/// `<str as Debug>::fmt`, through `format!("{:?}", ..)`. The contract
/// names its result and states nothing of the escaping, which takes the
/// Unicode printable and grapheme-extend tables to describe.
#[verifier::external_body]
fn debug_quoted(s: &str) -> (r: String)
    ensures
        r@ == debug_str(s@),
{
    format!("{:?}", s)
}

/// Whether `pat` occurs in `s` at position `i`.
pub open spec fn occurs_at(s: Seq<char>, pat: Seq<char>, i: int) -> bool {
    0 <= i && i + pat.len() <= s.len() && s.subrange(i, i + pat.len()) == pat
}

/// Whether `pat` occurs anywhere in `s`.
pub open spec fn occurs_in(s: Seq<char>, pat: Seq<char>) -> bool {
    exists|i: int| occurs_at(s, pat, i)
}

/// Whether `pat` occurs in `v` at position `i`.
fn occurs_here(v: &Vec<char>, pat: &Vec<char>, i: usize) -> (b: bool)
    requires
        i + pat@.len() <= v@.len(),
    ensures
        b == occurs_at(v@, pat@, i as int),
{
    let n = v.len();
    let mut k: usize = 0;
    while k < pat.len()
        invariant
            n == v@.len(),
            i + pat@.len() <= v@.len(),
            k <= pat@.len(),
            forall|j: int| 0 <= j < k ==> v@[i + j] == pat@[j],
        decreases pat@.len() - k,
    {
        assert(i + k < v@.len());
        if v[i + k] != pat[k] {
            proof {
                assert(v@.subrange(i as int, i + pat@.len())[k as int] != pat@[k as int]);
            }
            return false;
        }
        k = k + 1;
    }
    proof {
        assert(v@.subrange(i as int, i + pat@.len()) =~= pat@);
    }
    true
}

/// Whether `pat` occurs in `v`.
fn occurs(v: &Vec<char>, pat: &Vec<char>) -> (b: bool)
    ensures
        b == occurs_in(v@, pat@),
{
    if pat.len() > v.len() {
        return false;
    }
    let last = v.len() - pat.len();
    let mut i: usize = 0;
    loop
        invariant
            last == v@.len() - pat@.len(),
            pat@.len() <= v@.len(),
            i <= last,
            forall|j: int| 0 <= j < i ==> !occurs_at(v@, pat@, j),
        decreases last - i,
    {
        if occurs_here(v, pat, i) {
            return true;
        }
        if i == last {
            return false;
        }
        i = i + 1;
    }
}

/// Whether a note reads as good news (drawn in the text color) rather than
/// a failure (drawn in the failed tint): it names no error and no unknown
/// theme.
pub open spec fn note_ok_spec(text: Seq<char>) -> bool {
    !occurs_in(text, "error"@) && !occurs_at(text, "unknown theme"@, 0)
}

/// Whether a note reads as good news.
pub fn note_is_ok(text: &str) -> (b: bool)
    ensures
        b == note_ok_spec(text@),
{
    let v = chars_of(text);
    let err = chars_of("error");
    let unknown = chars_of("unknown theme");
    let bad = occurs(&v, &err) || (unknown.len() <= v.len() && occurs_here(&v, &unknown, 0));
    !bad
}

/// The note shown when the configured spawn directory does not exist and
/// the panes opened in gwae's own working directory instead, for twice the
/// usual linger.
pub open spec fn bad_dir_text(err: Seq<char>) -> Seq<char> {
    "agent_dir: "@ + err + "; panes opened in gwae's cwd"@
}

/// The startup note for a spawn directory that does not exist.
pub fn bad_dir_note(err: &str, now_ms: u64) -> (n: Note)
    requires
        now_ms + 2 * NOTE_LINGER_MS <= u64::MAX,
    ensures
        n.text@ == bad_dir_text(err@),
        n.until_ms == now_ms + 2 * NOTE_LINGER_MS,
        n.anchor is None,
{
    let mut v: Vec<char> = Vec::new();
    push_str(&mut v, "agent_dir: ");
    push_str(&mut v, err);
    push_str(&mut v, "; panes opened in gwae's cwd");
    proof {
        assert(v@ =~= bad_dir_text(err@));
    }
    Note { text: string_of(&v), until_ms: now_ms + 2 * NOTE_LINGER_MS, anchor: None }
}

/// The note after the config file was re-read: the theme it names when
/// that is not a known one, else the theme now in use.
pub open spec fn reloaded_text(unknown: Option<Seq<char>>, theme_name: Seq<char>) -> Seq<char> {
    match unknown {
        Some(name) => "unknown theme "@ + debug_str(name),
        None => "config reloaded: "@ + theme_name,
    }
}

/// The note after the config file was re-read.
pub fn reloaded_note(unknown: Option<&str>, theme_name: &str) -> (out: String)
    ensures
        out@ == reloaded_text(
            match unknown {
                Some(n) => Some(n@),
                None => None,
            },
            theme_name@,
        ),
{
    let mut v: Vec<char> = Vec::new();
    match unknown {
        Some(name) => {
            push_str(&mut v, "unknown theme ");
            let q = debug_quoted(name);
            push_str(&mut v, q.as_str());
        },
        None => {
            push_str(&mut v, "config reloaded: ");
            push_str(&mut v, theme_name);
        },
    }
    proof {
        match unknown {
            Some(n) => assert(v@ =~= "unknown theme "@ + debug_str(n@)),
            None => assert(v@ =~= "config reloaded: "@ + theme_name@),
        }
    }
    string_of(&v)
}

/// `prefix` followed by the first line of `err`.
pub open spec fn failure_text(prefix: Seq<char>, err: Seq<char>) -> Seq<char> {
    prefix + first_line_spec(err)
}

/// The note when the config file could not be read back; the running
/// config is kept.
pub fn config_error_note(err: &str) -> (out: String)
    ensures
        out@ == failure_text("config error: "@, err@),
{
    let mut v: Vec<char> = Vec::new();
    push_str(&mut v, "config error: ");
    let line = first_line(err);
    push_str(&mut v, line.as_str());
    proof {
        assert(v@ =~= failure_text("config error: "@, err@));
    }
    string_of(&v)
}

/// The note when replacing the process with a rebuilt binary failed and
/// this image carries on.
pub fn reload_failed_note(err: &str) -> (out: String)
    ensures
        out@ == failure_text("hot reload failed: "@, err@),
{
    let mut v: Vec<char> = Vec::new();
    push_str(&mut v, "hot reload failed: ");
    let line = first_line(err);
    push_str(&mut v, line.as_str());
    proof {
        assert(v@ =~= failure_text("hot reload failed: "@, err@));
    }
    string_of(&v)
}

/// The note when a theme picked in the picker is kept: it holds for this
/// session, and says what to add to the config to keep it.
pub open spec fn theme_kept_text(name: Seq<char>) -> Seq<char> {
    "theme: "@ + name + " \u{2014} add `theme = \""@ + name + "\"` to keep it"@
}

/// The note when a theme picked in the picker is kept.
pub fn theme_kept_note(name: &str) -> (out: String)
    ensures
        out@ == theme_kept_text(name@),
{
    let mut v: Vec<char> = Vec::new();
    push_str(&mut v, "theme: ");
    push_str(&mut v, name);
    push_str(&mut v, " \u{2014} add `theme = \"");
    push_str(&mut v, name);
    push_str(&mut v, "\"` to keep it");
    proof {
        assert(v@ =~= theme_kept_text(name@));
    }
    string_of(&v)
}

/// The note when a spawn directory (`shown` as the user would write it) is
/// picked: for this session only, saved to the config, or kept for the
/// session because saving failed with `err`.
pub open spec fn spawn_dir_text(shown: Seq<char>, saved: Option<Result<(), Seq<char>>>) -> Seq<char> {
    match saved {
        None => "spawn dir: "@ + shown + " \u{2014} new panes start here"@,
        Some(Ok(())) => "spawn dir: "@ + shown + " (saved to config)"@,
        Some(Err(e)) => "spawn dir: "@ + shown + " (this session; save error: "@ + e + ")"@,
    }
}

/// The note when a spawn directory is picked.
pub fn spawn_dir_note(shown: &str, saved: Option<Result<(), String>>) -> (out: String)
    ensures
        out@ == spawn_dir_text(
            shown@,
            match saved {
                None => None,
                Some(Ok(())) => Some(Ok(())),
                Some(Err(e)) => Some(Err(e@)),
            },
        ),
{
    let mut v: Vec<char> = Vec::new();
    push_str(&mut v, "spawn dir: ");
    push_str(&mut v, shown);
    match &saved {
        None => push_str(&mut v, " \u{2014} new panes start here"),
        Some(Ok(())) => push_str(&mut v, " (saved to config)"),
        Some(Err(e)) => {
            push_str(&mut v, " (this session; save error: ");
            push_str(&mut v, e.as_str());
            push_str(&mut v, ")");
        },
    }
    proof {
        match saved {
            None => assert(v@ =~= "spawn dir: "@ + shown@ + " \u{2014} new panes start here"@),
            Some(Ok(())) => assert(v@ =~= "spawn dir: "@ + shown@ + " (saved to config)"@),
            Some(Err(e)) => assert(v@ =~= "spawn dir: "@ + shown@ + " (this session; save error: "@ + e@ + ")"@),
        }
    }
    string_of(&v)
}

/// The echo of a column number being typed under the modifier, so a
/// multi-digit jump is visible before it commits.
pub open spec fn jump_echo_text(mod_key: Seq<char>, n: nat) -> Seq<char> {
    mod_key + " \u{2192} column "@ + decimal(n)
}

/// The echo of a column number being typed.
pub fn jump_echo(mod_key: &str, n: usize) -> (out: String)
    ensures
        out@ == jump_echo_text(mod_key@, n as nat),
{
    let mut v: Vec<char> = Vec::new();
    push_str(&mut v, mod_key);
    push_str(&mut v, " \u{2192} column ");
    push_decimal(&mut v, n as u64);
    proof {
        assert(v@ =~= jump_echo_text(mod_key@, n as nat));
    }
    string_of(&v)
}

/// The question asked before a large explicit paste of `lines` lines goes
/// through: the same chord again confirms.
pub open spec fn paste_ask_text(lines: nat, chord: Seq<char>) -> Seq<char> {
    "paste "@ + decimal(lines) + " lines? "@ + chord + " again"@
}

/// A large explicit paste waiting for its confirming chord, and until when
/// (ms) the confirmation is taken.
#[derive(Debug, Clone, PartialEq, Eq)]
pub struct PendingPaste {
    pub text: String,
    pub until_ms: u64,
}

/// What an explicit paste does: deliver text to the focused pane, or hold
/// it and ask first.
#[derive(Debug, Clone, PartialEq, Eq)]
pub enum PasteStep {
    Deliver(String),
    Ask { note: String, pending: PendingPaste },
}

/// The text a pending paste still delivers at `now_ms`: the held text
/// while its confirmation window is open, nothing once it has lapsed.
pub fn confirmed_paste(pending: Option<PendingPaste>, now_ms: u64) -> (r: Option<String>)
    ensures
        match pending {
            Some(p) => if now_ms < p.until_ms { r == Some(p.text) } else { r is None },
            None => r is None,
        },
{
    match pending {
        Some(p) => if now_ms < p.until_ms { Some(p.text) } else { None },
        None => None,
    }
}

/// An explicit paste of clipboard `text` at `now_ms`, with `chord` the
/// paste chord as the user types it: text over `PASTE_CONFIRM_LINES` lines
/// or `PASTE_CONFIRM_BYTES` bytes is held for the usual linger and the
/// user asked to repeat the chord; anything smaller goes through.
pub fn paste_step(text: &str, now_ms: u64, chord: &str) -> (r: PasteStep)
    requires
        now_ms + NOTE_LINGER_MS <= u64::MAX,
    ensures
        match r {
            PasteStep::Deliver(t) => paste_confirmation_spec(text@, text.len() as nat) is None && t@ == text@,
            PasteStep::Ask { note, pending } => paste_confirmation_spec(text@, text.len() as nat) matches Some(n)
                && note@ == paste_ask_text(n as nat, chord@) && pending.text@ == text@ && pending.until_ms
                == now_ms + NOTE_LINGER_MS,
        },
{
    let owned = string_of(&chars_of(text));
    match paste_confirmation(text) {
        None => PasteStep::Deliver(owned),
        Some(lines) => {
            let mut v: Vec<char> = Vec::new();
            push_str(&mut v, "paste ");
            push_decimal(&mut v, lines);
            push_str(&mut v, " lines? ");
            push_str(&mut v, chord);
            push_str(&mut v, " again");
            proof {
                assert(v@ =~= paste_ask_text(lines as nat, chord@));
            }
            PasteStep::Ask { note: string_of(&v), pending: PendingPaste { text: owned, until_ms: now_ms + NOTE_LINGER_MS } }
        },
    }
}

/// The title mirrored to the host terminal: the focused pane's own title,
/// or `gwae` when it has set none.
pub open spec fn host_title_text(title: Seq<char>) -> Seq<char> {
    if title.len() == 0 {
        "gwae"@
    } else {
        title
    }
}

/// The title mirrored to the host terminal.
pub fn host_title(title: &str) -> (out: String)
    ensures
        out@ == host_title_text(title@),
{
    let v = chars_of(title);
    if v.len() == 0 {
        let mut g: Vec<char> = Vec::new();
        push_str(&mut g, "gwae");
        string_of(&g)
    } else {
        string_of(&v)
    }
}

/// A config file that could not be read back always reads as a failure.
pub proof fn a_config_error_never_reads_as_good_news(err: Seq<char>)
    ensures
        !note_ok_spec(failure_text("config error: "@, err)),
{
    reveal_strlit("config error: ");
    reveal_strlit("error");
    let t = failure_text("config error: "@, err);
    assert(t.subrange(7, 12) =~= "error"@);
    assert(occurs_at(t, "error"@, 7));
}

/// An unknown theme always reads as a failure.
pub proof fn an_unknown_theme_never_reads_as_good_news(name: Seq<char>, theme_name: Seq<char>)
    ensures
        !note_ok_spec(reloaded_text(Some(name), theme_name)),
{
    reveal_strlit("unknown theme ");
    reveal_strlit("unknown theme");
    let t = reloaded_text(Some(name), theme_name);
    assert(t.subrange(0, 13) =~= "unknown theme"@);
}

/// `s` without its trailing newlines: a pane's grid is padded to its full
/// height, and a wall of empty lines after the last output is never what
/// anyone means to copy.
pub open spec fn without_trailing_newlines(s: Seq<char>) -> Seq<char>
    decreases s.len(),
{
    if s.len() > 0 && s.last() == '\n' {
        without_trailing_newlines(s.drop_last())
    } else {
        s
    }
}

/// `text` without its trailing newlines.
pub fn trim_trailing_newlines(text: &str) -> (out: String)
    ensures
        out@ == without_trailing_newlines(text@),
{
    let v = chars_of(text);
    let mut n: usize = v.len();
    proof {
        assert(v@.take(n as int) =~= v@);
    }
    while n > 0 && v[n - 1] == '\n'
        invariant
            n <= v@.len(),
            without_trailing_newlines(v@.take(n as int)) == without_trailing_newlines(v@),
        decreases n,
    {
        proof {
            assert(v@.take(n as int).drop_last() =~= v@.take(n - 1));
        }
        n = n - 1;
    }
    let kept = sub_chars(&v, 0, n);
    proof {
        assert(kept@ =~= v@.take(n as int));
    }
    string_of(&kept)
}

/// Whether a keyboard copy takes the drag-selection (in pane `sel_pane`,
/// empty or not) rather than the whole focused pane `focused`: only a
/// non-empty selection in the focused pane counts, since a selection left
/// in another pane is not what copy means while focus is here.
pub open spec fn copies_selection_spec(sel: Option<(u64, bool)>, focused: u64) -> bool {
    match sel {
        Some((pane, empty)) => pane == focused && !empty,
        None => false,
    }
}

/// Whether a keyboard copy takes the drag-selection.
pub fn copies_selection(sel: Option<(u64, bool)>, focused: u64) -> (b: bool)
    ensures
        b == copies_selection_spec(sel, focused),
{
    match sel {
        Some((pane, empty)) => pane == focused && !empty,
        None => false,
    }
}

/// The note after a keyboard copy of `text`: nothing to copy when it is
/// empty, else how much was copied, or that the clipboard could not be
/// reached.
pub open spec fn copy_report_text(text: Seq<char>, copied: bool) -> Seq<char> {
    if text.len() == 0 {
        "nothing to copy"@
    } else if copied {
        copy_note_spec(text)
    } else {
        "clipboard unavailable"@
    }
}

/// The note after a keyboard copy.
pub fn copy_report(text: &str, copied: bool) -> (out: String)
    ensures
        out@ == copy_report_text(text@, copied),
{
    let v = chars_of(text);
    if v.len() == 0 {
        let mut m: Vec<char> = Vec::new();
        push_str(&mut m, "nothing to copy");
        string_of(&m)
    } else if copied {
        copy_note(text)
    } else {
        let mut m: Vec<char> = Vec::new();
        push_str(&mut m, "clipboard unavailable");
        string_of(&m)
    }
}

/// The note after an explicit paste of `text` that handed `written` bytes
/// to the focused pane: nothing to paste when none were, else what was
/// pasted (a one-line paste through this route is confirmed too, since
/// nothing else shows it happened).
pub open spec fn paste_report_text(written: nat, text: Seq<char>, bracketed: bool) -> Seq<char> {
    if written == 0 {
        "nothing to paste"@
    } else {
        paste_note_spec(text, bracketed)
    }
}

/// The note after an explicit paste.
pub fn paste_report(written: usize, text: &str, bracketed: bool) -> (out: String)
    ensures
        out@ == paste_report_text(written as nat, text@, bracketed),
{
    if written == 0 {
        let mut m: Vec<char> = Vec::new();
        push_str(&mut m, "nothing to paste");
        string_of(&m)
    } else {
        paste_note(text, bracketed)
    }
}

/// The note after the keep-awake toggle: keep-awake exists on macOS only;
/// there it is on for this session (saying so when the system did not grant
/// the assertion, with `availability` explaining why) or off again.
pub open spec fn keep_awake_text(macos: bool, on: bool, held: bool, availability: Seq<char>) -> Seq<char> {
    if !macos {
        "keep-awake is macOS-only"@
    } else if on {
        if held {
            "keep-awake on for this session (off again at next launch)"@
        } else {
            "keep-awake on (this session), assertion not held ("@ + availability + ")"@
        }
    } else {
        "keep-awake off"@
    }
}

/// The note after the keep-awake toggle, where `on` is the state it was
/// toggled to and `held` whether the system granted the assertion.
pub fn keep_awake_note(macos: bool, on: bool, held: bool, availability: &str) -> (out: String)
    ensures
        out@ == keep_awake_text(macos, on, held, availability@),
{
    let mut v: Vec<char> = Vec::new();
    if !macos {
        push_str(&mut v, "keep-awake is macOS-only");
    } else if on {
        if held {
            push_str(&mut v, "keep-awake on for this session (off again at next launch)");
        } else {
            push_str(&mut v, "keep-awake on (this session), assertion not held (");
            push_str(&mut v, availability);
            push_str(&mut v, ")");
        }
    } else {
        push_str(&mut v, "keep-awake off");
    }
    proof {
        assert(v@ =~= keep_awake_text(macos, on, held, availability@));
    }
    string_of(&v)
}

/// The notes carry what they are about: the bad directory's error, the
/// picked spawn directory, the kept theme's name and the typed column
/// number all appear in them; the host title is never empty.
pub proof fn notes_name_what_they_are_about(
    err: Seq<char>,
    shown: Seq<char>,
    saved: Option<Result<(), Seq<char>>>,
    name: Seq<char>,
    mod_key: Seq<char>,
    n: nat,
    title: Seq<char>,
)
    ensures
        bad_dir_text(err).subrange(11, 11 + err.len() as int) == err,
        spawn_dir_text(shown, saved).subrange(11, 11 + shown.len() as int) == shown,
        theme_kept_text(name).subrange(7, 7 + name.len() as int) == name,
        crate::text::digits_number(
            jump_echo_text(mod_key, n).subrange(mod_key.len() as int + 10, jump_echo_text(mod_key, n).len() as int),
        ) == n,
        host_title_text(title).len() > 0,
        title.len() > 0 ==> host_title_text(title) == title,
{
    reveal_strlit("agent_dir: ");
    reveal_strlit("spawn dir: ");
    reveal_strlit("theme: ");
    reveal_strlit(" \u{2192} column ");
    reveal_strlit("gwae");
    assert(bad_dir_text(err).subrange(11, 11 + err.len() as int) =~= err);
    assert(spawn_dir_text(shown, saved).subrange(11, 11 + shown.len() as int) =~= shown);
    assert(theme_kept_text(name).subrange(7, 7 + name.len() as int) =~= name);
    let j = jump_echo_text(mod_key, n);
    assert(j.subrange(mod_key.len() as int + 10, j.len() as int) =~= decimal(n));
    crate::text::decimal_spells_the_number(n);
}

} // verus!
