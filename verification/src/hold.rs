//! Whether Alt (Option) counts as held, which is what reveals the
//! dashboard. Terminals that speak the Kitty keyboard protocol report the
//! bare modifier going down and up; others only ever show chords, so any
//! Alt chord keeps the hold alive for a short window instead.

use vstd::prelude::*;
use crate::keys::{is_alt_modifier, KeyCode, KeyEvent, ModifierKey};

verus! {

/// How long an Alt chord keeps the hold alive when no bare Alt is
/// reported (ms): short, so a tap of `⌥+h` does not leave the dashboard
/// up after the key is released; repeats refresh it while the key is held.
pub const CHORD_HOLD_MS: u64 = 180;

/// The characters macOS types for the Option chords gwae binds when Option
/// is not mapped to Meta (`˙ ∆ ˚ ¬ … œ © Ó Ô  Ò ƒ ∂ ∑ ∫ ÷ ¿ Ú`).
pub open spec fn is_option_glyph(c: char) -> bool {
    c == '\u{2d9}' || c == '\u{2206}' || c == '\u{2da}' || c == '\u{ac}' || c == '\u{2026}' || c == '\u{153}'
        || c == '\u{a9}' || c == '\u{d3}' || c == '\u{d4}' || c == '\u{f8ff}' || c == '\u{d2}' || c == '\u{192}'
        || c == '\u{2202}' || c == '\u{2211}' || c == '\u{222b}' || c == '\u{f7}' || c == '\u{bf}' || c == '\u{da}'
}

/// Whether a key press is an Alt chord: Alt held, or one of the Option
/// glyphs.
pub open spec fn is_alt_chord(ev: KeyEvent) -> bool {
    ev.modifiers.alt || match ev.code {
        KeyCode::Char(c) => is_option_glyph(c),
        _ => false,
    }
}

/// Whether a key press is an Alt chord.
pub fn alt_chord(ev: &KeyEvent) -> (b: bool)
    ensures
        b == is_alt_chord(*ev),
{
    if ev.modifiers.alt {
        return true;
    }
    match ev.code {
        KeyCode::Char(c) => c == '\u{2d9}' || c == '\u{2206}' || c == '\u{2da}' || c == '\u{ac}' || c == '\u{2026}'
            || c == '\u{153}' || c == '\u{a9}' || c == '\u{d3}' || c == '\u{d4}' || c == '\u{f8ff}' || c == '\u{d2}'
            || c == '\u{192}' || c == '\u{2202}' || c == '\u{2211}' || c == '\u{222b}' || c == '\u{f7}' || c == '\u{bf}'
            || c == '\u{da}',
        _ => false,
    }
}

/// Whether the event is the bare Alt key itself.
pub open spec fn is_bare_alt(ev: KeyEvent) -> bool {
    ev.code == KeyCode::Modifier(ModifierKey::LeftAlt) || ev.code == KeyCode::Modifier(ModifierKey::RightAlt)
}

/// The hold: whether a bare Alt is down, and until when (ms on the loop's
/// clock) the last Alt chord keeps it alive.
#[derive(Debug, Clone, Copy, PartialEq, Eq, Structural)]
pub struct AltHold {
    pub bare: bool,
    pub chord_until: Option<u64>,
}

/// Whether Alt counts as held.
pub open spec fn held(h: AltHold) -> bool {
    h.bare || h.chord_until is Some
}

/// The hold after a key press (or repeat) at `now_ms`: a bare Alt holds
/// until released; any other Alt chord opens (or refreshes) the chord
/// window; other keys leave it alone.
pub open spec fn press_spec(h: AltHold, ev: KeyEvent, now_ms: u64) -> AltHold {
    if is_bare_alt(ev) {
        AltHold { bare: true, ..h }
    } else if is_alt_chord(ev) {
        AltHold { chord_until: Some((now_ms + CHORD_HOLD_MS) as u64), ..h }
    } else {
        h
    }
}

/// The hold after a key release: releasing a bare Alt that was down ends
/// the hold outright, chord window included, since the physical key is up;
/// any other release changes nothing.
pub open spec fn release_spec(h: AltHold, ev: KeyEvent) -> AltHold {
    if is_bare_alt(ev) && h.bare {
        AltHold { bare: false, chord_until: None }
    } else {
        h
    }
}

/// The hold at `now_ms`: the chord window closes once its time is up.
pub open spec fn tick_spec(h: AltHold, now_ms: u64) -> AltHold {
    match h.chord_until {
        Some(t) => if now_ms >= t {
            AltHold { chord_until: None, ..h }
        } else {
            h
        },
        None => h,
    }
}

impl AltHold {
    /// Nothing held.
    pub fn new() -> (h: AltHold)
        ensures
            !held(h),
            h.chord_until is None,
    {
        AltHold { bare: false, chord_until: None }
    }

    /// Whether Alt counts as held.
    pub fn is_held(&self) -> (b: bool)
        ensures
            b == held(*self),
    {
        self.bare || self.chord_until.is_some()
    }

    /// Track a key press (or repeat) at `now_ms`. Returns whether the
    /// screen needs a repaint: a bare Alt going down, or any Alt chord.
    pub fn press(&mut self, ev: &KeyEvent, now_ms: u64) -> (repaint: bool)
        requires
            now_ms + CHORD_HOLD_MS <= u64::MAX,
        ensures
            *final(self) == press_spec(*old(self), *ev, now_ms),
            repaint == ((is_bare_alt(*ev) && !old(self).bare) || (!is_bare_alt(*ev) && is_alt_chord(*ev))),
    {
        if is_alt_modifier(ev) {
            let fresh = !self.bare;
            self.bare = true;
            fresh
        } else if alt_chord(ev) {
            self.chord_until = Some(now_ms + CHORD_HOLD_MS);
            true
        } else {
            false
        }
    }

    /// Track a key release. Returns whether it ended a bare hold, which is
    /// when a column number typed under Alt commits.
    pub fn release(&mut self, ev: &KeyEvent) -> (ended: bool)
        ensures
            *final(self) == release_spec(*old(self), *ev),
            ended == (is_bare_alt(*ev) && old(self).bare),
    {
        if is_alt_modifier(ev) && self.bare {
            self.bare = false;
            self.chord_until = None;
            true
        } else {
            false
        }
    }

    /// Close the chord window once its time is up at `now_ms`.
    pub fn tick(&mut self, now_ms: u64)
        ensures
            *final(self) == tick_spec(*old(self), now_ms),
    {
        match self.chord_until {
            Some(t) => if now_ms >= t {
                self.chord_until = None;
            },
            None => {},
        }
    }
}

/// Releasing a bare Alt that was down always hides the dashboard, whatever
/// chords came before it.
pub proof fn a_released_alt_is_never_held(h: AltHold, ev: KeyEvent)
    requires
        is_bare_alt(ev),
        h.bare,
    ensures
        !held(release_spec(h, ev)),
{
}

/// Without a bare Alt report, a chord pressed at `now_ms` keeps Alt held
/// exactly until `CHORD_HOLD_MS` later: held at every moment before that,
/// and let go at the first tick after.
pub proof fn a_chord_holds_for_its_window(h: AltHold, ev: KeyEvent, now_ms: u64, later: u64)
    requires
        !h.bare,
        !is_bare_alt(ev),
        is_alt_chord(ev),
        now_ms + CHORD_HOLD_MS <= u64::MAX,
    ensures
        held(tick_spec(press_spec(h, ev, now_ms), later)) <==> later < now_ms + CHORD_HOLD_MS,
{
}

/// A key that is neither Alt nor an Alt chord never changes the hold.
pub proof fn other_keys_leave_the_hold_alone(h: AltHold, ev: KeyEvent, now_ms: u64)
    requires
        !is_bare_alt(ev),
        !is_alt_chord(ev),
    ensures
        press_spec(h, ev, now_ms) == h,
        release_spec(h, ev) == h,
{
}

} // verus!
