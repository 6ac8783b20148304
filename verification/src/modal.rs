//! Keys while an overlay owns the keyboard: the force-quit disclaimer, the
//! spawn-directory picker and the theme picker. While one is up no key
//! reaches a pane; each key either edits the overlay, closes it, or
//! commits its choice.

use vstd::prelude::*;
use crate::keys::{handle_key, key_command, opt_cmd, Cmd, CmdView, KeyCode, KeyEvent};
use crate::pickers::{step_spec, DirPicker};
use crate::text::{chars_of, string_of};

verus! {

/// Whether a key commits the force quit: only the quit chord again, or
/// Enter. Any other key cancels, so a stray key can never quit by
/// accident.
pub fn quit_confirm_commits(ev: &KeyEvent) -> (b: bool)
    ensures
        b == (key_command(*ev) == Some(CmdView::Quit) || ev.code == KeyCode::Enter),
{
    let c = handle_key(ev);
    let quit = match c {
        Some(Cmd::Quit) => true,
        _ => false,
    };
    proof {
        assert(quit == (opt_cmd(c) == Some(CmdView::Quit)));
    }
    quit || match ev.code {
        KeyCode::Enter => true,
        _ => false,
    }
}

/// What a key does to an open picker.
#[derive(Debug, Clone, Copy, PartialEq, Eq, Structural)]
pub enum PickerKey {
    /// The picker stays open (its filter or highlight may have changed).
    Stay,
    /// Close without choosing.
    Cancel,
    /// Close, taking the highlighted entry (if any): for this session, or
    /// also saved to the config file.
    Take { save: bool },
}

/// The macOS character for ⌥+s when Option is not mapped to Meta.
pub open spec fn option_s() -> char {
    '\u{df}'
}

/// The picker after a key, and what the key does, with `shown` entries
/// matching the filter when it was pressed: arrows move the highlight
/// (wrapping), Escape cancels, Backspace drops the filter's last
/// character, Enter takes the entry for the session and ⌥+s saves it too,
/// and any other character without Alt or Control types into the filter;
/// every edit of the filter puts the highlight back on the first entry.
pub open spec fn dir_key_spec(p: DirPicker, ev: KeyEvent, shown: int) -> (Seq<char>, int, PickerKey) {
    let q = p.query@;
    let alt = ev.modifiers.alt;
    let ctrl = ev.modifiers.control;
    match ev.code {
        KeyCode::Up => (q, step_spec(p.sel as int, -1, shown), PickerKey::Stay),
        KeyCode::Down => (q, step_spec(p.sel as int, 1, shown), PickerKey::Stay),
        KeyCode::Esc => (q, p.sel as int, PickerKey::Cancel),
        KeyCode::Backspace => (if q.len() > 0 { q.drop_last() } else { q }, 0, PickerKey::Stay),
        KeyCode::Enter => (q, p.sel as int, PickerKey::Take { save: false }),
        KeyCode::Char(c) => if c == 's' && alt {
            (q, p.sel as int, PickerKey::Take { save: true })
        } else if c == option_s() {
            (q, p.sel as int, PickerKey::Take { save: true })
        } else if !alt && !ctrl {
            (q.push(c), 0, PickerKey::Stay)
        } else {
            (q, p.sel as int, PickerKey::Stay)
        },
        _ => (q, p.sel as int, PickerKey::Stay),
    }
}

impl DirPicker {
    /// Apply a key to the open picker, `shown` entries matching its filter.
    pub fn key(&mut self, ev: &KeyEvent, shown: usize) -> (r: PickerKey)
        requires
            old(self).sel < i32::MAX,
            shown <= i32::MAX,
        ensures
            ({
                let (q, sel, k) = dir_key_spec(*old(self), *ev, shown as int);
                final(self).query@ == q && final(self).sel == sel && r == k
            }),
    {
        let alt = ev.modifiers.alt;
        let ctrl = ev.modifiers.control;
        match ev.code {
            KeyCode::Up => {
                self.step(-1, shown);
                PickerKey::Stay
            },
            KeyCode::Down => {
                self.step(1, shown);
                PickerKey::Stay
            },
            KeyCode::Esc => PickerKey::Cancel,
            KeyCode::Backspace => {
                let mut q = chars_of(self.query.as_str());
                q.pop();
                proof {
                    assert(self.query@.len() > 0 ==> q@ =~= self.query@.drop_last());
                }
                self.query = string_of(&q);
                self.sel = 0;
                PickerKey::Stay
            },
            KeyCode::Enter => PickerKey::Take { save: false },
            KeyCode::Char(c) => {
                if c == 's' && alt {
                    PickerKey::Take { save: true }
                } else if c == '\u{df}' {
                    PickerKey::Take { save: true }
                } else if !alt && !ctrl {
                    let mut q = chars_of(self.query.as_str());
                    q.push(c);
                    self.query = string_of(&q);
                    self.sel = 0;
                    PickerKey::Stay
                } else {
                    PickerKey::Stay
                }
            },
            _ => PickerKey::Stay,
        }
    }
}

/// What a key does to the open theme picker.
#[derive(Debug, Clone, Copy, PartialEq, Eq, Structural)]
pub enum ThemeKey {
    /// Preview the theme at this index (the one already shown when the key
    /// does nothing).
    Preview(usize),
    /// Close, keeping the previewed theme.
    Keep,
    /// Close, restoring the configured theme.
    Restore,
}

/// The index one step back through `n` themes, wrapping.
pub open spec fn theme_prev(sel: int, n: int) -> int {
    (sel + n - 1) % n
}

/// The index one step on through `n` themes, wrapping.
pub open spec fn theme_next(sel: int, n: int) -> int {
    (sel + 1) % n
}

/// What a key does to the theme picker showing theme `sel` of `n`: the
/// arrows, `h`/`k` and their ⌥ characters step back, the arrows, `l`/`j`
/// and theirs step on (wrapping), Enter, ⌥+t and its character keep the
/// previewed theme, Escape restores the configured one, and any other key
/// leaves the preview as it is.
pub open spec fn theme_key_spec(sel: int, n: int, ev: KeyEvent) -> ThemeKey {
    match ev.code {
        KeyCode::Left | KeyCode::Up => ThemeKey::Preview(theme_prev(sel, n) as usize),
        KeyCode::Right | KeyCode::Down => ThemeKey::Preview(theme_next(sel, n) as usize),
        KeyCode::Enter => ThemeKey::Keep,
        KeyCode::Esc => ThemeKey::Restore,
        KeyCode::Char(c) => if c == 'h' || c == 'k' || c == '\u{2d9}' || c == '\u{2da}' {
            ThemeKey::Preview(theme_prev(sel, n) as usize)
        } else if c == 'l' || c == 'j' || c == '\u{ac}' || c == '\u{2206}' {
            ThemeKey::Preview(theme_next(sel, n) as usize)
        } else if c == '\u{2020}' || (c == 't' && ev.modifiers.alt) {
            ThemeKey::Keep
        } else {
            ThemeKey::Preview(sel as usize)
        },
        _ => ThemeKey::Preview(sel as usize),
    }
}

/// Apply a key to the theme picker showing theme `sel` of `n`.
pub fn theme_key(sel: usize, n: usize, ev: &KeyEvent) -> (r: ThemeKey)
    requires
        sel < n,
        n <= 0xffff,
    ensures
        r == theme_key_spec(sel as int, n as int, *ev),
        r matches ThemeKey::Preview(i) ==> i < n,
{
    let prev = (sel + n - 1) % n;
    let next = (sel + 1) % n;
    match ev.code {
        KeyCode::Left | KeyCode::Up => ThemeKey::Preview(prev),
        KeyCode::Right | KeyCode::Down => ThemeKey::Preview(next),
        KeyCode::Enter => ThemeKey::Keep,
        KeyCode::Esc => ThemeKey::Restore,
        KeyCode::Char(c) => {
            if c == 'h' || c == 'k' || c == '\u{2d9}' || c == '\u{2da}' {
                ThemeKey::Preview(prev)
            } else if c == 'l' || c == 'j' || c == '\u{ac}' || c == '\u{2206}' {
                ThemeKey::Preview(next)
            } else if c == '\u{2020}' || (c == 't' && ev.modifiers.alt) {
                ThemeKey::Keep
            } else {
                ThemeKey::Preview(sel)
            }
        },
        _ => ThemeKey::Preview(sel),
    }
}

/// Stepping back and then on through the themes returns to the theme that
/// was shown, and every step stays among the `n` themes.
pub proof fn theme_steps_undo_each_other(sel: int, n: int)
    requires
        0 <= sel < n,
    ensures
        0 <= theme_prev(sel, n) < n,
        0 <= theme_next(sel, n) < n,
        theme_next(theme_prev(sel, n), n) == sel,
        theme_prev(theme_next(sel, n), n) == sel,
{
    vstd::arithmetic::div_mod::lemma_mod_bound(sel + n - 1, n);
    vstd::arithmetic::div_mod::lemma_mod_bound(sel + 1, n);
    if sel == 0 {
        vstd::arithmetic::div_mod::lemma_small_mod((n - 1) as nat, n as nat);
        vstd::arithmetic::div_mod::lemma_mod_self_0(n);
    } else {
        vstd::arithmetic::div_mod::lemma_mod_add_multiples_vanish(sel - 1, n);
        vstd::arithmetic::div_mod::lemma_small_mod((sel - 1) as nat, n as nat);
        vstd::arithmetic::div_mod::lemma_small_mod(sel as nat, n as nat);
    }
    if sel + 1 < n {
        vstd::arithmetic::div_mod::lemma_small_mod((sel + 1) as nat, n as nat);
        vstd::arithmetic::div_mod::lemma_mod_add_multiples_vanish(sel, n);
        vstd::arithmetic::div_mod::lemma_small_mod(sel as nat, n as nat);
    } else {
        vstd::arithmetic::div_mod::lemma_mod_self_0(n);
        vstd::arithmetic::div_mod::lemma_small_mod((n - 1) as nat, n as nat);
    }
}

/// In the theme picker, Left/Up and Right/Down step through the themes in
/// opposite directions (one back, one on, wrapping around the list), Enter
/// keeps the previewed theme and Escape restores the configured one.
pub proof fn theme_arrows_step_opposite_ways(sel: int, n: int, m: crate::keys::Modifiers, caps: bool)
    requires
        0 <= sel < n,
    ensures
        ({
            let k = |c: KeyCode| theme_key_spec(sel, n, KeyEvent { code: c, modifiers: m, caps_lock: caps });
            &&& k(KeyCode::Left) == ThemeKey::Preview((if sel == 0 { n - 1 } else { sel - 1 }) as usize)
            &&& k(KeyCode::Up) == k(KeyCode::Left)
            &&& k(KeyCode::Right) == ThemeKey::Preview((if sel == n - 1 { 0 } else { sel + 1 }) as usize)
            &&& k(KeyCode::Down) == k(KeyCode::Right)
            &&& k(KeyCode::Enter) == ThemeKey::Keep
            &&& k(KeyCode::Esc) == ThemeKey::Restore
        }),
{
    assert((sel + n - 1) % n == (if sel == 0 { n - 1 } else { sel - 1 })) by {
        if sel == 0 {
            vstd::arithmetic::div_mod::lemma_small_mod((n - 1) as nat, n as nat);
        } else {
            vstd::arithmetic::div_mod::lemma_mod_add_multiples_vanish(sel - 1, n);
            vstd::arithmetic::div_mod::lemma_small_mod((sel - 1) as nat, n as nat);
        }
    }
    assert((sel + 1) % n == (if sel == n - 1 { 0 } else { sel + 1 })) by {
        if sel == n - 1 {
            vstd::arithmetic::div_mod::lemma_mod_self_0(n);
        } else {
            vstd::arithmetic::div_mod::lemma_small_mod((sel + 1) as nat, n as nat);
        }
    }
}

/// The force-quit disclaimer commits on Enter and on the quit chord again,
/// and Escape always cancels it.
pub proof fn escape_cancels_and_enter_quits(m: crate::keys::Modifiers, caps: bool)
    ensures
        ({
            let esc = KeyEvent { code: KeyCode::Esc, modifiers: m, caps_lock: caps };
            let enter = KeyEvent { code: KeyCode::Enter, modifiers: m, caps_lock: caps };
            &&& !(key_command(esc) == Some(CmdView::Quit) || esc.code == KeyCode::Enter)
            &&& (key_command(enter) == Some(CmdView::Quit) || enter.code == KeyCode::Enter)
        }),
{
}

} // verus!
