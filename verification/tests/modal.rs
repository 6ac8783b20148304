use gwae::keys::{KeyCode, KeyEvent, Modifiers};
use gwae::modal::{quit_confirm_commits, theme_key, PickerKey, ThemeKey};
use gwae::pickers::DirPicker;

fn key(code: KeyCode, m: Modifiers) -> KeyEvent {
    KeyEvent::new(code, m)
}
fn none() -> Modifiers {
    Modifiers::none()
}
fn alt() -> Modifiers {
    Modifiers::of(false, false, true)
}
fn ctrl() -> Modifiers {
    Modifiers::of(false, true, false)
}

#[test]
fn only_the_quit_chord_or_enter_commits_a_force_quit() {
    assert!(quit_confirm_commits(&key(KeyCode::Char('Q'), Modifiers::of(true, false, true))));
    assert!(quit_confirm_commits(&key(KeyCode::Enter, none())));
    for stray in [
        key(KeyCode::Char('y'), none()),
        key(KeyCode::Esc, none()),
        key(KeyCode::Char('q'), alt()),
        key(KeyCode::Char(' '), none()),
        key(KeyCode::Left, alt()),
    ] {
        assert!(!quit_confirm_commits(&stray), "{stray:?} must cancel");
    }
}

fn picker(query: &str, sel: usize) -> DirPicker {
    DirPicker { query: query.to_string(), sel }
}

#[test]
fn the_dir_picker_filters_moves_and_takes() {
    let mut p = picker("gw", 2);
    assert_eq!(p.key(&key(KeyCode::Char('a'), none()), 5), PickerKey::Stay);
    assert_eq!((p.query.as_str(), p.sel), ("gwa", 0));
    assert_eq!(p.key(&key(KeyCode::Up, none()), 3), PickerKey::Stay);
    assert_eq!(p.sel, 2, "up from the top wraps to the bottom");
    assert_eq!(p.key(&key(KeyCode::Down, none()), 3), PickerKey::Stay);
    assert_eq!(p.sel, 0);
    assert_eq!(p.key(&key(KeyCode::Backspace, none()), 3), PickerKey::Stay);
    assert_eq!(p.query, "gw");
    let mut empty = picker("", 1);
    assert_eq!(empty.key(&key(KeyCode::Backspace, none()), 3), PickerKey::Stay);
    assert_eq!((empty.query.as_str(), empty.sel), ("", 0));
    // `s` is a filter character; only ⌥+s (or its macOS character) saves.
    assert_eq!(p.key(&key(KeyCode::Char('s'), none()), 3), PickerKey::Stay);
    assert_eq!(p.query, "gws");
    assert_eq!(p.key(&key(KeyCode::Char('s'), alt()), 3), PickerKey::Take { save: true });
    assert_eq!(p.key(&key(KeyCode::Char('\u{df}'), none()), 3), PickerKey::Take { save: true });
    assert_eq!(p.key(&key(KeyCode::Enter, none()), 3), PickerKey::Take { save: false });
    assert_eq!(p.key(&key(KeyCode::Esc, none()), 3), PickerKey::Cancel);
    // Chords do not type.
    assert_eq!(p.key(&key(KeyCode::Char('x'), ctrl()), 3), PickerKey::Stay);
    assert_eq!(p.query, "gws");
}

#[test]
fn the_theme_picker_steps_keeps_and_restores() {
    assert_eq!(theme_key(0, 4, &key(KeyCode::Left, none())), ThemeKey::Preview(3));
    assert_eq!(theme_key(3, 4, &key(KeyCode::Char('j'), none())), ThemeKey::Preview(0));
    assert_eq!(theme_key(1, 4, &key(KeyCode::Char('k'), none())), ThemeKey::Preview(0));
    assert_eq!(theme_key(1, 4, &key(KeyCode::Enter, none())), ThemeKey::Keep);
    assert_eq!(theme_key(1, 4, &key(KeyCode::Char('t'), alt())), ThemeKey::Keep);
    assert_eq!(theme_key(1, 4, &key(KeyCode::Char('t'), none())), ThemeKey::Preview(1));
    assert_eq!(theme_key(1, 4, &key(KeyCode::Esc, none())), ThemeKey::Restore);
    // Back then on returns to where it was.
    for sel in 0..4 {
        let ThemeKey::Preview(b) = theme_key(sel, 4, &key(KeyCode::Up, none())) else { panic!() };
        let ThemeKey::Preview(f) = theme_key(b, 4, &key(KeyCode::Down, none())) else { panic!() };
        assert_eq!(f, sel);
    }
}
