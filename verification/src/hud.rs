//! The text of the ⌥-hold dashboard and of the one-line toasts: tile
//! labels, shortened window titles, silence ages, copy/paste notes.

use vstd::prelude::*;
use crate::text::{
    chars_of, decimal, drop_control_chars, drop_controls, push_decimal, push_seq, push_str, rfind,
    rfind_chars, string_of, sub_chars, trim, trim_chars,
};

verus! {

/// `n` spaces.
pub open spec fn spaces(n: nat) -> Seq<char> {
    Seq::new(n, |i: int| ' ')
}

/// `a - b`, or zero when `b` exceeds `a`.
pub open spec fn sat_sub(a: int, b: int) -> nat {
    if a >= b { (a - b) as nat } else { 0 }
}

/// The jump marker: `▸` on the pane `⌥+g` would focus, a plain gap otherwise.
pub open spec fn jump_marker(target: bool) -> char {
    if target { '\u{25b8}' } else { ' ' }
}

/// The address a tile shows: the column address when it fits beside the
/// glyph, `+` ("there is more here") when it does not.
pub open spec fn tile_addr(w: nat, addr: Seq<char>) -> Seq<char> {
    if addr.len() < w { addr } else { seq!['+'] }
}

/// The title as a tile shows it in `room` cells: whole when it fits,
/// cut and marked with `…` when not, and nothing at all below three cells
/// (a name cut that short is noise).
pub open spec fn tile_title(title: Seq<char>, room: nat) -> Seq<char> {
    if room >= 3 && title.len() > 0 {
        if title.len() <= room {
            title
        } else {
            title.take(room - 1).push('\u{2026}')
        }
    } else {
        Seq::empty()
    }
}

/// Whether the age fits in the `rest0` cells left after glyph, address
/// and marker.
pub open spec fn shows_age(age: Seq<char>, rest0: nat) -> bool {
    age.len() > 0 && age.len() <= rest0
}

/// The cells left for the title: what the age (and one blank before it)
/// leaves of `rest0`.
pub open spec fn title_room(age: Seq<char>, rest0: nat) -> nat {
    if shows_age(age, rest0) { sat_sub(rest0 - age.len(), 1) } else { rest0 }
}

/// A tile wide enough for more than glyph and address: glyph, address,
/// marker, title, padding, and the age closing the tile.
pub open spec fn tile_body_spec(w: nat, a: Seq<char>, target: bool, title: Seq<char>, age: Seq<char>, glyph: char) -> Seq<char> {
    let rest0: nat = sat_sub(w as int, a.len() as int + 2);
    let age_s = if shows_age(age, rest0) { age } else { Seq::empty() };
    let s = seq![glyph] + a + seq![jump_marker(target)] + tile_title(title, title_room(age, rest0));
    (s + spaces(sat_sub(w as int, (s.len() + age_s.len()) as int)) + age_s).take(w as int)
}

/// One minimap tile's `w` cells of text: status glyph, address, jump
/// marker, title, age. The glyph and address always survive; the title is
/// dropped before the age; the text is always exactly `w` cells.
pub open spec fn tile_text_spec(w: nat, addr: Seq<char>, target: bool, title: Seq<char>, age: Seq<char>, glyph: char) -> Seq<char> {
    if w == 0 {
        Seq::empty()
    } else if w == 1 {
        seq![glyph]
    } else {
        let a = tile_addr(w, addr);
        if w <= a.len() + 1 {
            seq![glyph] + a
        } else {
            tile_body_spec(w, a, target, title, age, glyph)
        }
    }
}

/// A tile reads, left to right: its status glyph, its column address
/// (when it fits), the jump marker `▸` exactly on the pane a smart jump
/// would focus, the title (whole, or cut and ended with `…`), and the age
/// flush against the tile's right edge whenever the age fits; it is always
/// exactly `w` cells.
pub proof fn a_tile_reads_glyph_address_marker_title_age(
    w: nat,
    addr: Seq<char>,
    target: bool,
    title: Seq<char>,
    age: Seq<char>,
    glyph: char,
)
    requires
        addr.len() + 1 < w,
    ensures
        ({
            let t = tile_text_spec(w, addr, target, title, age, glyph);
            let n = addr.len() as int;
            &&& t.len() == w
            &&& t[0] == glyph
            &&& t.subrange(1, 1 + n) == addr
            &&& t[1 + n] == (if target { '\u{25b8}' } else { ' ' })
            &&& (age.len() > 0 && age.len() <= w - n - 2 ==> t.subrange(w - age.len(), w as int) == age)
        }),
{
    let a = addr;
    let rest0: nat = sat_sub(w as int, a.len() as int + 2);
    let age_s = if shows_age(age, rest0) { age } else { Seq::<char>::empty() };
    let tt = tile_title(title, title_room(age, rest0));
    assert(tt.len() <= title_room(age, rest0));
    let s = seq![glyph] + a + seq![jump_marker(target)] + tt;
    assert(s.len() + age_s.len() <= w);
    let pad = sat_sub(w as int, (s.len() + age_s.len()) as int);
    let full = s + spaces(pad) + age_s;
    assert(full.len() == w);
    assert(full.take(w as int) =~= full);
    assert(tile_text_spec(w, addr, target, title, age, glyph) == full);
    assert(full[0] == glyph);
    assert(full.subrange(1, 1 + a.len() as int) =~= a);
    assert(full[1 + a.len() as int] == jump_marker(target));
    if age.len() > 0 && age.len() <= w - a.len() - 2 {
        assert(full.subrange(w - age.len(), w as int) =~= age);
    }
}

/// Append `n` spaces to `out`.
pub fn push_spaces(out: &mut Vec<char>, n: usize)
    ensures
        final(out)@ == old(out)@ + spaces(n as nat),
{
    let mut i: usize = 0;
    while i < n
        invariant
            i <= n,
            out@ == old(out)@ + spaces(i as nat),
        decreases n - i,
    {
        out.push(' ');
        i = i + 1;
        proof {
            assert(spaces(i as nat) == spaces((i - 1) as nat).push(' '));
        }
    }
}

/// The first `n` characters of `v` (all of them when it is shorter).
fn take_chars(v: &Vec<char>, n: usize) -> (r: Vec<char>)
    ensures
        r@ == v@.take(if n <= v@.len() { n as int } else { v@.len() as int }),
{
    let m = if n <= v.len() { n } else { v.len() };
    sub_chars(v, 0, m)
}

#[verifier::rlimit(60)]
fn tile_body(w: usize, a: &Vec<char>, target: bool, title_v: &Vec<char>, age_v: &Vec<char>, glyph: char) -> (out: Vec<char>)
    requires
        w > a@.len() + 1,
    ensures
        out@ == tile_body_spec(w as nat, a@, target, title_v@, age_v@, glyph),
        out@.len() == w,
{
    let sep = if target { '\u{25b8}' } else { ' ' };
    let rest0: usize = w - a.len() - 2;
    let shows = age_v.len() > 0 && age_v.len() <= rest0;
    let rest: usize = if shows {
        if rest0 - age_v.len() >= 1 { rest0 - age_v.len() - 1 } else { 0 }
    } else {
        rest0
    };
    proof {
        assert(shows == shows_age(age_v@, rest0 as nat));
        assert(rest as nat == title_room(age_v@, rest0 as nat));
    }
    let mid: Vec<char> = if rest >= 3 && title_v.len() > 0 {
        if title_v.len() <= rest {
            title_v.clone()
        } else {
            let mut m = take_chars(title_v, rest - 1);
            m.push('\u{2026}');
            m
        }
    } else {
        Vec::new()
    };
    proof {
        assert(mid@ =~= tile_title(title_v@, rest as nat));
    }
    let mut out: Vec<char> = Vec::new();
    out.push(glyph);
    push_seq(&mut out, a);
    out.push(sep);
    push_seq(&mut out, &mid);
    let ghost s = out@;
    let age_len: usize = if shows { age_v.len() } else { 0 };
    let used = out.len() + age_len;
    let pad: usize = w - used;
    push_spaces(&mut out, pad);
    if shows {
        push_seq(&mut out, age_v);
    }
    proof {
        let age_s = if shows { age_v@ } else { Seq::<char>::empty() };
        assert(s =~= seq![glyph] + a@ + seq![jump_marker(target)] + tile_title(title_v@, rest as nat));
        assert(out@ =~= s + spaces(pad as nat) + age_s);
        assert(out@.take(w as int) =~= out@);
    }
    out
}

/// Render one minimap tile's `w` cells of text.
pub fn tile_text(w: u16, addr: &str, target: bool, title: &str, age: &str, glyph: char) -> (out: String)
    ensures
        out@ == tile_text_spec(w as nat, addr@, target, title@, age@, glyph),
        out@.len() == w,
{
    let w = w as usize;
    let mut out: Vec<char> = Vec::new();
    if w == 0 {
        return string_of(&out);
    }
    if w == 1 {
        out.push(glyph);
        proof {
            assert(out@ =~= seq![glyph]);
        }
        return string_of(&out);
    }
    let addr_v = chars_of(addr);
    let a: Vec<char> = if addr_v.len() < w { addr_v } else { vec!['+'] };
    proof {
        assert(a@ == tile_addr(w as nat, addr@));
    }
    let alen = a.len();
    if w <= alen + 1 {
        out.push(glyph);
        push_seq(&mut out, &a);
        proof {
            assert(out@ =~= seq![glyph] + a@);
        }
        return string_of(&out);
    }
    let title_v = chars_of(title);
    let age_v = chars_of(age);
    let body = tile_body(w, &a, target, &title_v, &age_v, glyph);
    string_of(&body)
}

/// A window title reduced to what identifies the pane: the part after the
/// last `": "` (shell titles are `user@host: ~/dir`), then its last path
/// segment unless that is empty, without control characters, trimmed.
pub open spec fn short_title_spec(raw: Seq<char>) -> Seq<char> {
    let t = trim(raw);
    let after = match rfind(t, seq![':', ' ']) {
        Some(i) => trim(t.subrange(i + 2, t.len() as int)),
        None => trim(t),
    };
    let base = match rfind(after, seq!['/']) {
        Some(i) => if i + 1 < after.len() {
            after.subrange(i + 1, after.len() as int)
        } else {
            after
        },
        None => after,
    };
    trim(drop_controls(base))
}

/// Reduce a window title to something that fits on a minimap tile.
pub fn short_title(raw: &str) -> (out: String)
    ensures
        out@ == short_title_spec(raw@),
{
    let raw_v = chars_of(raw);
    let t = trim_chars(&raw_v);
    let colon: Vec<char> = vec![':', ' '];
    proof {
        assert(colon@ =~= seq![':', ' ']);
    }
    let found = rfind_chars(&t, &colon);
    let tl = t.len();
    assert(colon@.len() == 2);
    let after = match found {
        Some(i) => {
            assert(i + colon@.len() <= t@.len());
            let r = sub_chars(&t, i + 2, tl);
            trim_chars(&r)
        },
        None => trim_chars(&t),
    };
    let slash: Vec<char> = vec!['/'];
    proof {
        assert(slash@ =~= seq!['/']);
    }
    let found_slash = rfind_chars(&after, &slash);
    let al = after.len();
    assert(slash@.len() == 1);
    let base = match found_slash {
        Some(i) => {
            assert(i + slash@.len() <= after@.len());
            if i + 1 < al {
                sub_chars(&after, i + 1, al)
            } else {
                after
            }
        },
        None => after,
    };
    let clean = drop_control_chars(&base);
    let out = trim_chars(&clean);
    string_of(&out)
}

/// A compact age: seconds under a minute, then minutes, then hours
/// (clamped at 99), so it is two or three cells wide.
pub open spec fn age_label_spec(secs: nat) -> Seq<char> {
    if secs < 60 {
        decimal(secs).push('s')
    } else if secs < 3600 {
        decimal(secs / 60).push('m')
    } else {
        decimal(if secs / 3600 <= 99 { secs / 3600 } else { 99 }).push('h')
    }
}

/// Compact age for a pane silent for `secs` seconds.
pub fn age_label(secs: u64) -> (out: String)
    ensures
        out@ == age_label_spec(secs as nat),
{
    let mut v: Vec<char> = Vec::new();
    if secs < 60 {
        push_decimal(&mut v, secs);
        v.push('s');
    } else if secs < 3600 {
        push_decimal(&mut v, secs / 60);
        v.push('m');
    } else {
        let h = secs / 3600;
        push_decimal(&mut v, if h <= 99 { h } else { 99 });
        v.push('h');
    }
    proof {
        assert(v@ =~= age_label_spec(secs as nat));
    }
    string_of(&v)
}

proof fn lemma_decimal_small(n: nat)
    requires
        n < 100,
    ensures
        1 <= decimal(n).len() <= 2,
{
    if n >= 10 {
        assert(decimal(n) == decimal(n / 10).push(crate::text::digit_char(n % 10)));
        assert(decimal(n / 10).len() == 1);
    } else {
        assert(decimal(n) == seq![crate::text::digit_char(n)]);
    }
}

/// An age label reads in the largest whole unit that has passed: under a
/// minute it counts seconds, under an hour it counts the whole minutes
/// that have passed (`n` minutes for any age from `60 n` up to `60 n + 59`
/// seconds, so never `0m`), and from an hour on the whole hours, at least
/// one and at most 99; it is never wider than three cells.
pub proof fn an_age_reads_in_its_largest_whole_unit(secs: nat)
    ensures
        secs < 60 ==> age_label_spec(secs) == decimal(secs).push('s'),
        60 <= secs < 3600 ==> exists|n: nat|
            1 <= n <= 59 && 60 * n <= secs < 60 * (n + 1) && age_label_spec(secs) == #[trigger] decimal(n).push('m'),
        secs >= 3600 ==> exists|n: nat|
            1 <= n <= 99 && (n < 99 ==> 3600 * n <= secs < 3600 * (n + 1)) && (n == 99 ==> secs >= 3600 * 99)
                && age_label_spec(secs) == #[trigger] decimal(n).push('h'),
        age_label_spec(secs).len() <= 3,
{
    if secs < 60 {
        lemma_decimal_small(secs);
    } else if secs < 3600 {
        let n = secs / 60;
        lemma_decimal_small(n);
        assert(decimal(n).push('m') == age_label_spec(secs));
    } else {
        let h = secs / 3600;
        let n: nat = if h <= 99 { h } else { 99 };
        lemma_decimal_small(n);
        assert(decimal(n).push('h') == age_label_spec(secs));
    }
}

/// The number of `'\n'` characters in `s`.
pub open spec fn count_newlines(s: Seq<char>) -> nat
    decreases s.len(),
{
    if s.len() == 0 {
        0
    } else {
        count_newlines(s.drop_last()) + if s.last() == '\n' { 1nat } else { 0 }
    }
}

/// How many lines `str::lines` yields: one per line terminator, plus one
/// for a last line that has none.
pub open spec fn line_count(s: Seq<char>) -> nat {
    count_newlines(s) + if s.len() > 0 && s.last() != '\n' { 1nat } else { 0 }
}

proof fn lemma_count_newlines_bound(s: Seq<char>)
    ensures
        count_newlines(s) <= s.len(),
    decreases s.len(),
{
    if s.len() > 0 {
        lemma_count_newlines_bound(s.drop_last());
    }
}

/// The number of lines of `v`.
fn count_lines(v: &Vec<char>) -> (n: u64)
    ensures
        n == line_count(v@),
{
    let mut n: u64 = 0;
    let mut i: usize = 0;
    while i < v.len()
        invariant
            i <= v@.len(),
            n == count_newlines(v@.take(i as int)),
            n <= i,
        decreases v.len() - i,
    {
        proof {
            assert(v@.take(i + 1).drop_last() == v@.take(i as int));
        }
        if v[i] == '\n' {
            n = n + 1;
        }
        i = i + 1;
    }
    proof {
        assert(v@.take(i as int) == v@);
    }
    if v.len() > 0 && v[v.len() - 1] != '\n' {
        proof {
            lemma_count_newlines_bound(v@.drop_last());
            assert(count_newlines(v@) == count_newlines(v@.drop_last()));
        }
        n = n + 1;
    }
    n
}

/// The toast after a drag-copy: lines when several, characters otherwise.
pub open spec fn copy_note_spec(text: Seq<char>) -> Seq<char> {
    let lines = line_count(text);
    if lines > 1 {
        seq!['c', 'o', 'p', 'i', 'e', 'd', ' '] + decimal(lines) + seq![' ', 'l', 'i', 'n', 'e', 's']
    } else {
        let n = text.len();
        seq!['c', 'o', 'p', 'i', 'e', 'd', ' '] + decimal(n) + seq![' ', 'c', 'h', 'a', 'r']
            + if n == 1 { Seq::empty() } else { seq!['s'] }
    }
}

proof fn lemma_count_newlines_concat(a: Seq<char>, b: Seq<char>)
    ensures
        count_newlines(a + b) == count_newlines(a) + count_newlines(b),
    decreases b.len(),
{
    if b.len() == 0 {
        assert(a + b =~= a);
    } else {
        lemma_count_newlines_concat(a, b.drop_last());
        assert((a + b).drop_last() =~= a + b.drop_last());
    }
}

/// Lines are what the newlines separate: a text without a newline is one
/// line (none when empty), and putting a newline between two texts gives
/// the first text's lines, ended, followed by the second's.
pub proof fn lines_are_separated_by_newlines(a: Seq<char>, b: Seq<char>)
    ensures
        (forall|j: int| 0 <= j < a.len() ==> a[j] != '\n') ==> line_count(a) == (if a.len() > 0 { 1nat } else { 0 }),
        line_count(a + seq!['\n'] + b) == count_newlines(a) + 1 + line_count(b),
{
    if forall|j: int| 0 <= j < a.len() ==> a[j] != '\n' {
        lemma_no_newlines(a);
        if a.len() > 0 {
            assert(a.last() == a[a.len() - 1]);
        }
    }
    lemma_count_newlines_concat(a + seq!['\n'], b);
    lemma_count_newlines_concat(a, seq!['\n']);
    assert(count_newlines(seq!['\n']) == 1) by {
        let one = seq!['\n'];
        assert(one.drop_last() =~= Seq::<char>::empty());
        assert(count_newlines(one.drop_last()) == 0);
        assert(one.len() == 1 && one.last() == '\n');
        reveal_with_fuel(count_newlines, 2);
    }
    let s = a + seq!['\n'] + b;
    if b.len() > 0 {
        assert(s.last() == b.last());
    } else {
        assert(s =~= a + seq!['\n']);
        assert(s.last() == '\n');
    }
}

proof fn lemma_no_newlines(a: Seq<char>)
    requires
        forall|j: int| 0 <= j < a.len() ==> a[j] != '\n',
    ensures
        count_newlines(a) == 0,
    decreases a.len(),
{
    if a.len() > 0 {
        assert(a.last() == a[a.len() - 1]);
        lemma_no_newlines(a.drop_last());
    }
}

/// A copy is reported in the unit the user thinks in: a text of several
/// lines as `copied N lines`, anything else by its characters, `copied 1
/// char` for one and `copied N chars` otherwise.
pub proof fn a_copy_is_reported_in_lines_or_chars(t: Seq<char>)
    ensures
        line_count(t) > 1 ==> copy_note_spec(t) == "copied "@ + decimal(line_count(t)) + " lines"@,
        line_count(t) <= 1 && t.len() == 1 ==> copy_note_spec(t) == "copied 1 char"@,
        line_count(t) <= 1 && t.len() != 1 ==> copy_note_spec(t) == "copied "@ + decimal(t.len()) + " chars"@,
{
    reveal_strlit("copied ");
    reveal_strlit(" lines");
    reveal_strlit("copied 1 char");
    reveal_strlit(" chars");
    if line_count(t) > 1 {
        assert(copy_note_spec(t) =~= "copied "@ + decimal(line_count(t)) + " lines"@);
    } else if t.len() == 1 {
        assert(decimal(1) == seq!['1']);
        assert(copy_note_spec(t) =~= "copied 1 char"@);
    } else {
        assert(copy_note_spec(t) =~= "copied "@ + decimal(t.len()) + " chars"@);
    }
}

/// A paste is reported by its line count, with a warning appended when the
/// child did not ask for bracketed paste, since then its newlines run as
/// commands.
pub proof fn a_paste_is_reported_with_its_risk(t: Seq<char>)
    ensures
        paste_note_spec(t, true) == "pasted "@ + decimal(line_count(t)) + " lines"@,
        paste_note_spec(t, false) == "pasted "@ + decimal(line_count(t)) + " lines \u{b7} no bracket, newlines run"@,
{
    reveal_strlit("pasted ");
    reveal_strlit(" lines");
    reveal_strlit(" lines \u{b7} no bracket, newlines run");
    reveal_strlit(" \u{b7} no bracket, newlines run");
    assert(paste_note_spec(t, true) =~= "pasted "@ + decimal(line_count(t)) + " lines"@);
    assert(paste_note_spec(t, false) =~= "pasted "@ + decimal(line_count(t)) + " lines \u{b7} no bracket, newlines run"@);
}

/// The toast shown after a successful copy: how much was taken, in lines
/// when multi-line, characters otherwise.
pub fn copy_note(text: &str) -> (out: String)
    ensures
        out@ == copy_note_spec(text@),
{
    let v = chars_of(text);
    let lines = count_lines(&v);
    let mut out: Vec<char> = Vec::new();
    push_str(&mut out, "copied ");
    proof {
        reveal_strlit("copied ");
    }
    if lines > 1 {
        push_decimal(&mut out, lines);
        push_str(&mut out, " lines");
        proof {
            reveal_strlit(" lines");
        }
    } else {
        let n = v.len() as u64;
        push_decimal(&mut out, n);
        push_str(&mut out, " char");
        proof {
            reveal_strlit(" char");
        }
        if n != 1 {
            out.push('s');
        }
    }
    proof {
        assert(out@ =~= copy_note_spec(text@));
    }
    string_of(&out)
}

/// The toast after a multi-line paste; without bracketed paste the
/// newlines really are Returns, and the note says so.
pub open spec fn paste_note_spec(text: Seq<char>, bracketed: bool) -> Seq<char> {
    let head = seq!['p', 'a', 's', 't', 'e', 'd', ' '] + decimal(line_count(text)) + seq![' ', 'l', 'i', 'n', 'e', 's'];
    if bracketed {
        head
    } else {
        head + " \u{b7} no bracket, newlines run"@
    }
}

/// The toast shown after a multi-line paste.
pub fn paste_note(text: &str, bracketed: bool) -> (out: String)
    ensures
        out@ == paste_note_spec(text@, bracketed),
{
    let v = chars_of(text);
    let lines = count_lines(&v);
    let mut out: Vec<char> = Vec::new();
    push_str(&mut out, "pasted ");
    push_decimal(&mut out, lines);
    push_str(&mut out, " lines");
    proof {
        reveal_strlit("pasted ");
        reveal_strlit(" lines");
    }
    if !bracketed {
        push_str(&mut out, " \u{b7} no bracket, newlines run");
    }
    proof {
        assert(out@ =~= paste_note_spec(text@, bracketed));
    }
    string_of(&out)
}

/// Above this many lines, an explicit paste asks before it goes through.
pub const PASTE_CONFIRM_LINES: usize = 8;

/// Above this many bytes, an explicit paste asks before it goes through.
pub const PASTE_CONFIRM_BYTES: usize = 2048;

/// Whether an explicit paste of `s` (`bytes` long in UTF-8) asks first,
/// and if so the line count it names.
pub open spec fn paste_confirmation_spec(s: Seq<char>, bytes: nat) -> Option<u64> {
    if line_count(s) > PASTE_CONFIRM_LINES || bytes > PASTE_CONFIRM_BYTES {
        Some(line_count(s) as u64)
    } else {
        None
    }
}

/// Whether an explicit paste of `text` asks first, and if so the line
/// count it names: more than `PASTE_CONFIRM_LINES` lines or more than
/// `PASTE_CONFIRM_BYTES` bytes is what a forgotten whole-file clipboard
/// looks like, and a paste into an agent's prompt cannot be taken back.
pub fn paste_confirmation(text: &str) -> (r: Option<u64>)
    ensures
        r == paste_confirmation_spec(text@, text.len() as nat),
{
    let v = chars_of(text);
    let lines = count_lines(&v);
    if lines > PASTE_CONFIRM_LINES as u64 || text.len() > PASTE_CONFIRM_BYTES {
        Some(lines)
    } else {
        None
    }
}

/// How long the whole screen must be quiet before the input poll relaxes (ms).
pub const IDLE_AFTER_MS: u64 = 750;

/// The relaxed poll interval used once idle (ms).
pub const IDLE_POLL_MS: u64 = 30;

/// The poll interval: the configured rate clamped to 1..=50 ms while
/// anything is happening, and no faster than the idle rate once the screen
/// has been quiet for `IDLE_AFTER_MS`.
pub open spec fn poll_interval_spec(configured_ms: u64, since_activity_ms: u64) -> u64 {
    let base: u64 = if configured_ms < 1 { 1 } else if configured_ms > 50 { 50 } else { configured_ms };
    if since_activity_ms < IDLE_AFTER_MS {
        base
    } else if base >= IDLE_POLL_MS {
        base
    } else {
        IDLE_POLL_MS
    }
}

/// The configured rate, clamped to 1..=50 ms.
pub open spec fn clamped_rate(configured_ms: u64) -> u64 {
    if configured_ms < 1 { 1 } else if configured_ms > 50 { 50 } else { configured_ms }
}

/// Typing is never slowed by the idle backoff: while anything happened in
/// the last `IDLE_AFTER_MS` the loop polls at exactly the configured rate.
/// The backoff is a floor, never a ceiling: an idle loop waits at least as
/// long as configured and no longer than the slower of the configured and
/// idle rates, so it only ever reduces wakeups; no wait exceeds 50 ms.
pub proof fn the_idle_backoff_never_slows_typing(configured_ms: u64, since_activity_ms: u64)
    ensures
        since_activity_ms < IDLE_AFTER_MS ==> poll_interval_spec(configured_ms, since_activity_ms) == clamped_rate(
            configured_ms,
        ),
        poll_interval_spec(configured_ms, since_activity_ms) >= clamped_rate(configured_ms),
        since_activity_ms >= IDLE_AFTER_MS ==> poll_interval_spec(configured_ms, since_activity_ms) >= IDLE_POLL_MS,
        poll_interval_spec(configured_ms, since_activity_ms) <= (if clamped_rate(configured_ms) >= IDLE_POLL_MS {
            clamped_rate(configured_ms)
        } else {
            IDLE_POLL_MS
        }),
        poll_interval_spec(configured_ms, since_activity_ms) <= 50,
{
}

/// How long to block waiting for input this iteration, in ms.
pub fn input_poll_interval(configured_ms: u64, since_activity_ms: u64) -> (ms: u64)
    ensures
        ms == poll_interval_spec(configured_ms, since_activity_ms),
{
    let base: u64 = if configured_ms < 1 {
        1
    } else if configured_ms > 50 {
        50
    } else {
        configured_ms
    };
    if since_activity_ms < IDLE_AFTER_MS {
        base
    } else if base >= IDLE_POLL_MS {
        base
    } else {
        IDLE_POLL_MS
    }
}

/// The first line of `s` (everything before the first `'\n'`), trimmed.
pub open spec fn first_line_spec(s: Seq<char>) -> Seq<char> {
    match first_newline(s) {
        Some(i) => trim(s.take(i)),
        None => trim(s),
    }
}

/// The position of the first `'\n'` in `s`.
pub open spec fn first_newline(s: Seq<char>) -> Option<int> {
    if exists|i: int| 0 <= i < s.len() && s[i] == '\n' {
        Some(choose|i: int| 0 <= i < s.len() && s[i] == '\n' && forall|j: int| 0 <= j < i ==> s[j] != '\n')
    } else {
        None
    }
}

/// The first line of a multi-line error, for one-line status display.
pub fn first_line(s: &str) -> (out: String)
    ensures
        out@ == first_line_spec(s@),
{
    let v = chars_of(s);
    let mut i: usize = 0;
    while i < v.len() && v[i] != '\n'
        invariant
            i <= v@.len(),
            forall|j: int| 0 <= j < i ==> v@[j] != '\n',
        decreases v.len() - i,
    {
        i = i + 1;
    }
    let line = sub_chars(&v, 0, i);
    let out = trim_chars(&line);
    proof {
        if i < v.len() {
            assert(v@[i as int] == '\n');
            let k = choose|k: int| 0 <= k < v@.len() && v@[k] == '\n' && forall|j: int| 0 <= j < k ==> v@[j] != '\n';
            assert(k == i) by {
                if k < i {
                } else if k > i {
                }
            }
            assert(line@ == v@.take(i as int));
        } else {
            assert(line@ == v@);
        }
    }
    string_of(&out)
}

/// The key-hint line under the dashboard, spelled with the platform's
/// modifier name (`⌥` on macOS, `Alt` elsewhere).
pub open spec fn hud_hint_spec(mod_key: Seq<char>) -> Seq<char> {
    mod_key + "1-9 col \u{b7} "@ + mod_key + "g attention \u{b7} "@ + mod_key + "hjkl move \u{b7} "@ + mod_key
        + "/ keys"@
}

/// The key-hint line under the dashboard.
pub fn hud_hint(mod_key: &str) -> (out: String)
    ensures
        out@ == hud_hint_spec(mod_key@),
{
    let mut v: Vec<char> = Vec::new();
    push_str(&mut v, mod_key);
    push_str(&mut v, "1-9 col \u{b7} ");
    push_str(&mut v, mod_key);
    push_str(&mut v, "g attention \u{b7} ");
    push_str(&mut v, mod_key);
    push_str(&mut v, "hjkl move \u{b7} ");
    push_str(&mut v, mod_key);
    push_str(&mut v, "/ keys");
    proof {
        assert(v@ =~= hud_hint_spec(mod_key@));
    }
    string_of(&v)
}

} // verus!
