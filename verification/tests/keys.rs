use gwae::keys::{
    handle_key, key_bytes, mouse_role, sgr_mouse_report, Action, Cmd, KeyCode, KeyEvent,
    ModifierKey, Modifiers, MouseButton, MouseEvent, MouseEventKind, MouseRole,
};

fn none() -> Modifiers {
    Modifiers::none()
}
fn alt() -> Modifiers {
    Modifiers::of(false, false, true)
}
fn shift() -> Modifiers {
    Modifiers::of(true, false, false)
}
fn alt_shift() -> Modifiers {
    Modifiers::of(true, false, true)
}
fn key(code: KeyCode, m: Modifiers) -> KeyEvent {
    KeyEvent::new(code, m)
}
fn caps(code: KeyCode, m: Modifiers) -> KeyEvent {
    KeyEvent::with_caps_lock(code, m, true)
}

#[test]
fn handle_key_option_semicolon_spawns_agent() {
    let ev = key(KeyCode::Char('\u{2026}'), none());
    assert_eq!(handle_key(&ev), Some(Cmd::Act(Action::SpawnAgent)));
    let ev = key(KeyCode::Char(';'), alt());
    assert_eq!(handle_key(&ev), Some(Cmd::Act(Action::SpawnAgent)));
}

#[test]
fn handle_key_option_shift_semicolon_spawns_an_agent_row() {
    let ev = key(KeyCode::Char('\u{da}'), none());
    assert_eq!(handle_key(&ev), Some(Cmd::Act(Action::SpawnAgentRow)));
    let ev = key(KeyCode::Char(':'), alt());
    assert_eq!(handle_key(&ev), Some(Cmd::Act(Action::SpawnAgentRow)));
    let ev = key(KeyCode::Char(';'), alt_shift());
    assert_eq!(handle_key(&ev), Some(Cmd::Act(Action::SpawnAgentRow)));
}

#[test]
fn option_a_and_option_x_belong_to_the_pane_again() {
    for c in ['a', 'x'] {
        let ev = key(KeyCode::Char(c), alt());
        assert_eq!(
            handle_key(&ev),
            Some(Cmd::Input(key_bytes(&ev))),
            "⌥+{c} should be forwarded, not claimed"
        );
    }
}

#[test]
fn alt_up_down_is_the_keyboard_route_into_scrollback() {
    assert_eq!(
        handle_key(&key(KeyCode::Up, alt())),
        Some(Cmd::ScrollBack(3)),
        "no way back into scrollback"
    );
    assert_eq!(handle_key(&key(KeyCode::Down, alt())), Some(Cmd::ScrollBack(-3)));
    assert_eq!(handle_key(&key(KeyCode::Up, alt_shift())), Some(Cmd::ScrollBack(20)));
    assert_eq!(handle_key(&key(KeyCode::PageUp, alt())), Some(Cmd::ScrollBack(20)));
    assert_eq!(handle_key(&key(KeyCode::PageDown, alt())), Some(Cmd::ScrollBack(-20)));
    assert!(matches!(handle_key(&key(KeyCode::Up, none())), Some(Cmd::Input(_))));
    assert!(matches!(handle_key(&key(KeyCode::PageUp, none())), Some(Cmd::Input(_))));
    assert_eq!(handle_key(&key(KeyCode::Left, alt())), Some(Cmd::ScrollPane(-1)));
}

#[test]
fn handle_key_alt_q_kills_pane() {
    let ev = key(KeyCode::Char('q'), alt());
    assert_eq!(handle_key(&ev), Some(Cmd::Act(Action::KillPane)));
    let ev = key(KeyCode::Char('\u{153}'), none());
    assert_eq!(handle_key(&ev), Some(Cmd::Act(Action::KillPane)));
}

#[test]
fn handle_key_option_shift_hjkl_moves_pane() {
    for (c, act) in [
        ('h', Action::MovePaneLeft),
        ('j', Action::MovePaneDown),
        ('k', Action::MovePaneUp),
        ('l', Action::MovePaneRight),
    ] {
        let ev = key(KeyCode::Char(c), alt_shift());
        assert_eq!(handle_key(&ev), Some(Cmd::Act(act)));
        let up = c.to_ascii_uppercase();
        let ev = key(KeyCode::Char(up), alt());
        assert_eq!(handle_key(&ev), Some(Cmd::Act(act)));
    }
    for (g, act) in [
        ('\u{d3}', Action::MovePaneLeft),
        ('\u{d4}', Action::MovePaneDown),
        ('\u{f8ff}', Action::MovePaneUp),
        ('\u{d2}', Action::MovePaneRight),
    ] {
        let ev = key(KeyCode::Char(g), shift());
        assert_eq!(handle_key(&ev), Some(Cmd::Act(act)));
    }
}

#[test]
fn caps_lock_does_not_trigger_shift_chords() {
    let ev = caps(KeyCode::Char('H'), alt());
    assert_eq!(handle_key(&ev), Some(Cmd::Act(Action::FocusLeft)));
    let ev = caps(KeyCode::Char('H'), alt());
    assert_eq!(handle_key(&ev), Some(Cmd::Act(Action::FocusLeft)));
}

#[test]
fn kitty_shifted_key_with_shift_cleared_is_still_a_move() {
    let ev = key(KeyCode::Char('H'), alt());
    assert_eq!(handle_key(&ev), Some(Cmd::Act(Action::MovePaneLeft)));
    let ev = key(KeyCode::Char('K'), alt());
    assert_eq!(handle_key(&ev), Some(Cmd::Act(Action::MovePaneUp)));
}

#[test]
fn alt_shift_letter_is_forwarded_not_swallowed_as_the_unshifted_chord() {
    for ev in [
        key(KeyCode::Char('S'), alt_shift()),
        key(KeyCode::Char('S'), alt()),
        key(KeyCode::Char('s'), alt_shift()),
    ] {
        assert_eq!(
            handle_key(&ev),
            Some(Cmd::Input(b"\x1bS".to_vec())),
            "{ev:?} should be forwarded to the pane"
        );
    }
    let ev = key(KeyCode::Char('s'), alt());
    assert_eq!(handle_key(&ev), Some(Cmd::Act(Action::SplitBelow)));
    let ev = caps(KeyCode::Char('S'), alt());
    assert_eq!(handle_key(&ev), Some(Cmd::Act(Action::SplitBelow)));
    let ev = key(KeyCode::Char('Q'), alt_shift());
    assert_eq!(handle_key(&ev), Some(Cmd::Quit));
}

#[test]
fn shift_and_caps_typed_text_passes_through_as_shifted() {
    let ev = key(KeyCode::Char('A'), none());
    assert_eq!(handle_key(&ev), Some(Cmd::Input(b"A".to_vec())));
    let ev = key(KeyCode::Char('!'), none());
    assert_eq!(handle_key(&ev), Some(Cmd::Input(b"!".to_vec())));
    let ev = caps(KeyCode::Char('A'), none());
    assert_eq!(handle_key(&ev), Some(Cmd::Input(b"A".to_vec())));
}

#[test]
fn bare_modifier_never_sends_input_to_pane() {
    for code in [
        KeyCode::Modifier(ModifierKey::LeftAlt),
        KeyCode::Modifier(ModifierKey::RightAlt),
        KeyCode::Modifier(ModifierKey::LeftShift),
        KeyCode::Modifier(ModifierKey::RightShift),
        KeyCode::Modifier(ModifierKey::LeftControl),
        KeyCode::Modifier(ModifierKey::RightControl),
        KeyCode::Modifier(ModifierKey::LeftSuper),
        KeyCode::Modifier(ModifierKey::RightSuper),
    ] {
        let mods = if matches!(
            code,
            KeyCode::Modifier(ModifierKey::LeftAlt) | KeyCode::Modifier(ModifierKey::RightAlt)
        ) {
            alt()
        } else {
            none()
        };
        let ev = key(code, mods);
        assert_eq!(
            handle_key(&ev),
            Some(Cmd::Nop),
            "bare modifier {code:?} must not become pane input"
        );
    }
}

#[test]
fn copy_and_paste_are_symmetric_chords_on_both_input_paths() {
    assert_eq!(handle_key(&key(KeyCode::Char('c'), alt())), Some(Cmd::Copy));
    assert_eq!(handle_key(&key(KeyCode::Char('v'), alt())), Some(Cmd::Paste));
    assert_eq!(handle_key(&key(KeyCode::Char('\u{e7}'), none())), Some(Cmd::Copy));
    assert_eq!(handle_key(&key(KeyCode::Char('\u{221a}'), none())), Some(Cmd::Paste));
    assert_eq!(handle_key(&key(KeyCode::Char('y'), alt())), Some(Cmd::Copy));
    assert!(matches!(handle_key(&key(KeyCode::Char('c'), none())), Some(Cmd::Input(_))));
    assert!(matches!(handle_key(&key(KeyCode::Char('v'), none())), Some(Cmd::Input(_))));
}

#[test]
fn alt_digit_is_a_jump_digit_not_an_immediate_jump() {
    let ev = key(KeyCode::Char('4'), alt());
    assert_eq!(handle_key(&ev), Some(Cmd::JumpDigit(4)));
    for d in 0..=9u32 {
        let c = char::from_digit(d, 10).unwrap();
        let ev = key(KeyCode::Char(c), alt());
        assert_eq!(handle_key(&ev), Some(Cmd::JumpDigit(d)), "digit {d}");
    }
}

#[test]
fn alt_slash_toggles_the_cheat_sheet_hud() {
    let ev = key(KeyCode::Char('/'), alt());
    assert!(matches!(handle_key(&ev), Some(Cmd::ToggleHud)));
    let ev = key(KeyCode::Char('\u{f7}'), none());
    assert!(matches!(handle_key(&ev), Some(Cmd::ToggleHud)));
    let ev = key(KeyCode::Char('?'), alt_shift());
    assert!(matches!(handle_key(&ev), Some(Cmd::ToggleHud)));
    let ev = key(KeyCode::Char('\u{bf}'), none());
    assert!(matches!(handle_key(&ev), Some(Cmd::ToggleHud)));
    let ev = key(KeyCode::Char('?'), shift());
    assert!(matches!(handle_key(&ev), Some(Cmd::Input(_))));
    let ev = key(KeyCode::Char('/'), none());
    assert!(matches!(handle_key(&ev), Some(Cmd::Input(_))));
}

#[test]
fn left_drag_selects_but_a_reporting_child_keeps_its_mouse() {
    let plain = none();
    for kind in [
        MouseEventKind::Down(MouseButton::Left),
        MouseEventKind::Drag(MouseButton::Left),
        MouseEventKind::Up(MouseButton::Left),
    ] {
        assert_eq!(mouse_role(kind, plain, false), MouseRole::Select);
        assert_eq!(mouse_role(kind, plain, true), MouseRole::Forward);
        assert_eq!(mouse_role(kind, shift(), true), MouseRole::Select);
    }
    assert_eq!(mouse_role(MouseEventKind::ScrollUp, plain, false), MouseRole::Local);
    assert_eq!(mouse_role(MouseEventKind::ScrollUp, plain, true), MouseRole::Forward);
    assert_eq!(mouse_role(MouseEventKind::ScrollUp, shift(), true), MouseRole::Forward);
    assert_eq!(
        mouse_role(MouseEventKind::Drag(MouseButton::Right), plain, false),
        MouseRole::Local
    );
}

#[test]
fn sgr_mouse_report_encodes_wheel_and_buttons() {
    let ev = |kind| MouseEvent { kind, column: 0, row: 0, modifiers: none() };
    assert_eq!(
        sgr_mouse_report(&ev(MouseEventKind::ScrollUp), 4, 2).unwrap(),
        b"\x1b[<64;5;3M".to_vec()
    );
    assert_eq!(
        sgr_mouse_report(&ev(MouseEventKind::ScrollDown), 0, 0).unwrap(),
        b"\x1b[<65;1;1M".to_vec()
    );
    assert_eq!(
        sgr_mouse_report(&ev(MouseEventKind::Up(MouseButton::Left)), 0, 0).unwrap(),
        b"\x1b[<0;1;1m".to_vec()
    );
    let shifted = MouseEvent {
        kind: MouseEventKind::Down(MouseButton::Left),
        column: 0,
        row: 0,
        modifiers: shift(),
    };
    assert_eq!(sgr_mouse_report(&shifted, 0, 0).unwrap(), b"\x1b[<4;1;1M".to_vec());
}

#[test]
fn sgr_mouse_report_adds_every_modifier_and_drag_bit() {
    let ev = MouseEvent {
        kind: MouseEventKind::Drag(MouseButton::Right),
        column: 0,
        row: 0,
        modifiers: Modifiers::of(true, true, true),
    };
    // 2 + 32 drag + 4 shift + 8 alt + 16 control.
    assert_eq!(sgr_mouse_report(&ev, 119, 40).unwrap(), b"\x1b[<62;120;41M".to_vec());
}

#[test]
fn key_bytes_encode_meta_ctrl_and_named_keys() {
    assert_eq!(key_bytes(&key(KeyCode::Backspace, alt())), b"\x1b\x7f".to_vec());
    assert_eq!(key_bytes(&key(KeyCode::Char('c'), Modifiers::of(false, true, false))), vec![3u8]);
    assert_eq!(
        key_bytes(&key(KeyCode::Char('c'), Modifiers::of(false, true, true))),
        vec![0x1bu8, 3]
    );
    assert_eq!(key_bytes(&key(KeyCode::Char('1'), Modifiers::of(false, true, false))), b"^1\n".to_vec());
    assert_eq!(key_bytes(&key(KeyCode::Esc, alt())), vec![0x1bu8]);
    assert_eq!(key_bytes(&key(KeyCode::Char('\u{e9}'), none())), "\u{e9}".as_bytes().to_vec());
    assert_eq!(key_bytes(&key(KeyCode::PageDown, none())), b"\x1b[6~".to_vec());
    assert_eq!(key_bytes(&key(KeyCode::BackTab, alt())), b"\x1b\x1b[Z".to_vec());
    assert_eq!(key_bytes(&key(KeyCode::F(5), none())), Vec::<u8>::new());
}

#[test]
fn alt_enter_opens_columns_and_strips() {
    assert_eq!(handle_key(&key(KeyCode::Enter, alt())), Some(Cmd::Act(Action::NewColumn)));
    assert_eq!(handle_key(&key(KeyCode::Enter, alt_shift())), Some(Cmd::Act(Action::NewRow)));
    assert_eq!(handle_key(&key(KeyCode::Right, alt_shift())), Some(Cmd::ScrollPane(16)));
    assert_eq!(handle_key(&key(KeyCode::Char('['), alt())), Some(Cmd::Scroll(-200)));
    assert_eq!(handle_key(&key(KeyCode::Char(']'), alt())), Some(Cmd::Scroll(200)));
    assert_eq!(handle_key(&key(KeyCode::Esc, none())), Some(Cmd::Nop));
    assert_eq!(handle_key(&key(KeyCode::Char('t'), alt())), Some(Cmd::ThemePick(0)));
    assert_eq!(handle_key(&key(KeyCode::Char('d'), alt())), Some(Cmd::DirPick));
    assert_eq!(handle_key(&key(KeyCode::Char('g'), alt())), Some(Cmd::SmartJump));
}

#[test]
fn the_documented_chords_reach_their_verbs() {
    let act = |c: KeyCode, m: Modifiers| handle_key(&key(c, m));
    assert_eq!(act(KeyCode::Char('h'), alt()), Some(Cmd::Act(Action::FocusLeft)));
    assert_eq!(act(KeyCode::Char('j'), alt()), Some(Cmd::Act(Action::FocusDown)));
    assert_eq!(act(KeyCode::Char('k'), alt()), Some(Cmd::Act(Action::FocusUp)));
    assert_eq!(act(KeyCode::Char('l'), alt()), Some(Cmd::Act(Action::FocusRight)));
    assert_eq!(act(KeyCode::Char('H'), alt_shift()), Some(Cmd::Act(Action::MovePaneLeft)));
    assert_eq!(act(KeyCode::Char('L'), alt_shift()), Some(Cmd::Act(Action::MovePaneRight)));
    assert_eq!(act(KeyCode::Enter, alt()), Some(Cmd::Act(Action::NewColumn)));
    assert_eq!(act(KeyCode::Enter, alt_shift()), Some(Cmd::Act(Action::NewRow)));
    assert_eq!(act(KeyCode::Char('s'), alt()), Some(Cmd::Act(Action::SplitBelow)));
    assert_eq!(act(KeyCode::Char(';'), alt()), Some(Cmd::Act(Action::SpawnAgent)));
    assert_eq!(act(KeyCode::Char(';'), alt_shift()), Some(Cmd::Act(Action::SpawnAgentRow)));
    assert_eq!(act(KeyCode::Char('r'), alt()), Some(Cmd::Act(Action::CycleWidth)));
    assert_eq!(act(KeyCode::Char('f'), alt()), Some(Cmd::Act(Action::ToggleFullWidth)));
    assert_eq!(act(KeyCode::Char('q'), alt()), Some(Cmd::Act(Action::KillPane)));
    assert_eq!(act(KeyCode::Char('q'), alt_shift()), Some(Cmd::Quit));
    assert_eq!(act(KeyCode::Char('d'), alt()), Some(Cmd::DirPick));
    assert_eq!(act(KeyCode::Char('g'), alt()), Some(Cmd::SmartJump));
    assert_eq!(act(KeyCode::Char('['), alt()), Some(Cmd::Scroll(-200)));
    assert_eq!(act(KeyCode::Char(']'), alt()), Some(Cmd::Scroll(200)));
    assert_eq!(act(KeyCode::Up, alt()), Some(Cmd::ScrollBack(3)));
    assert_eq!(act(KeyCode::Down, alt()), Some(Cmd::ScrollBack(-3)));
    assert_eq!(act(KeyCode::Char('/'), alt()), Some(Cmd::ToggleHud));
}

#[test]
fn alt_b_splits_below_and_alt_w_toggles_keep_awake() {
    assert_eq!(handle_key(&key(KeyCode::Char('b'), alt())), Some(Cmd::Act(Action::SplitBelow)));
    assert_eq!(handle_key(&key(KeyCode::Char('\u{222b}'), none())), Some(Cmd::Act(Action::SplitBelow)), "∫ is ⌥b");
    assert_eq!(handle_key(&key(KeyCode::Char('w'), alt())), Some(Cmd::ToggleKeepAwake));
    assert_eq!(handle_key(&key(KeyCode::Char('\u{2211}'), none())), Some(Cmd::ToggleKeepAwake), "∑ is ⌥w");
    assert!(matches!(handle_key(&key(KeyCode::Char('b'), none())), Some(Cmd::Input(_))));
    assert!(matches!(handle_key(&key(KeyCode::Char('W'), alt_shift())), Some(Cmd::Input(_))), "shifted goes to the pane");
}
