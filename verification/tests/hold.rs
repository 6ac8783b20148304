use gwae::hold::{alt_chord, AltHold, CHORD_HOLD_MS};
use gwae::keys::{KeyCode, KeyEvent, ModifierKey, Modifiers};

fn bare_alt() -> KeyEvent {
    KeyEvent::new(KeyCode::Modifier(ModifierKey::LeftAlt), Modifiers::of(false, false, true))
}

#[test]
fn chords_and_option_glyphs_count_as_alt() {
    assert!(alt_chord(&KeyEvent::new(KeyCode::Char('h'), Modifiers::of(false, false, true))));
    assert!(alt_chord(&KeyEvent::new(KeyCode::Char('\u{2d9}'), Modifiers::none())), "⌥h typed as ˙");
    assert!(alt_chord(&KeyEvent::new(KeyCode::Char('\u{f8ff}'), Modifiers::none())));
    assert!(!alt_chord(&KeyEvent::new(KeyCode::Char('h'), Modifiers::none())));
    assert!(!alt_chord(&KeyEvent::new(KeyCode::Enter, Modifiers::of(false, true, false))));
}

#[test]
fn a_bare_alt_holds_until_released() {
    let mut h = AltHold::new();
    assert!(!h.is_held());
    assert!(h.press(&bare_alt(), 0), "going down repaints");
    assert!(h.is_held());
    assert!(!h.press(&bare_alt(), 10), "a repeat of a held Alt changes nothing");
    h.tick(10_000);
    assert!(h.is_held(), "a bare hold does not time out");
    assert!(h.release(&bare_alt()));
    assert!(!h.is_held());
    assert!(!h.release(&bare_alt()), "a second release ends nothing");
}

#[test]
fn a_chord_holds_for_its_window_only() {
    let mut h = AltHold::new();
    let chord = KeyEvent::new(KeyCode::Char('l'), Modifiers::of(false, false, true));
    assert!(h.press(&chord, 1000));
    assert_eq!(h.chord_until, Some(1000 + CHORD_HOLD_MS));
    h.tick(1000 + CHORD_HOLD_MS - 1);
    assert!(h.is_held());
    h.tick(1000 + CHORD_HOLD_MS);
    assert!(!h.is_held());
    // A plain key neither holds nor repaints.
    assert!(!h.press(&KeyEvent::new(KeyCode::Char('x'), Modifiers::none()), 2000));
    assert!(!h.is_held());
}

#[test]
fn releasing_a_bare_alt_drops_the_chord_window_too() {
    let mut h = AltHold::new();
    h.press(&bare_alt(), 0);
    h.press(&KeyEvent::new(KeyCode::Char('h'), Modifiers::of(false, false, true)), 5);
    assert!(h.chord_until.is_some());
    assert!(h.release(&bare_alt()));
    assert_eq!(h.chord_until, None);
    assert!(!h.is_held());
}
