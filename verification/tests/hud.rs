use gwae::hud::{
    age_label, copy_note, first_line, hud_hint, input_poll_interval, paste_confirmation, paste_note, short_title,
    tile_text, IDLE_AFTER_MS, IDLE_POLL_MS,
};

#[test]
fn tui_tile_text_degrades_in_a_fixed_order_as_the_tile_narrows() {
    // Widest: glyph, address, jump marker, title and age all fit.
    let wide = tile_text(16, "2", true, "jcode", "4m", '!');
    assert_eq!(wide.chars().count(), 16, "always exactly the tile width");
    assert!(wide.starts_with("!2\u{25b8}jcode"), "got {wide:?}");
    assert!(wide.ends_with("4m"), "age closes the tile, got {wide:?}");
    // No jump marker when this is not the smart-jump target.
    let plain = tile_text(16, "2", false, "jcode", "4m", '!');
    assert!(plain.starts_with("!2 jcode"), "got {plain:?}");
    // Narrower: the name is cut, but marked, and the age survives.
    let cut = tile_text(11, "2", false, "jcode-main", "4m", '!');
    assert_eq!(cut.chars().count(), 11);
    assert!(cut.ends_with("4m"), "age kept, got {cut:?}");
    assert!(cut.starts_with("!2"), "glyph and address kept, got {cut:?}");
    assert!(cut.contains('\u{2026}'), "the cut is marked, got {cut:?}");
    // Narrower still: the title goes entirely rather than shrinking to noise.
    let mid = tile_text(6, "2", false, "jcode", "4m", '!');
    assert_eq!(mid.chars().count(), 6);
    assert_eq!(mid, "!2  4m", "glyph, address, gap, age");
    assert!(!mid.contains('j'), "no one-letter names, got {mid:?}");
    // Narrow enough that even the age cannot fit: the glyph is last out.
    let tight = tile_text(4, "2", false, "jcode", "4m", '!');
    assert_eq!(tight.chars().count(), 4);
    assert!(tight.starts_with("!2"), "glyph outlives everything: {tight:?}");
    assert!(!tight.contains("4m"), "age dropped when it cannot fit");
    // Two cells: glyph + address. One cell: the status alone.
    assert_eq!(tile_text(2, "2", true, "jcode", "4m", '!'), "!2");
    assert_eq!(tile_text(1, "2", true, "jcode", "4m", '!'), "!");
    // Two-digit columns fit when there is room and degrade to `+` when not.
    assert!(tile_text(4, "10", false, "", "", '\u{bb}').starts_with("\u{bb}10"));
    assert_eq!(tile_text(2, "10", false, "", "", '\u{bb}'), "\u{bb}+");
    // Whatever the width, the tile is exactly that many cells.
    for w in 1..=24u16 {
        for (t, a) in [("", ""), ("jcode", "4m"), ("a-very-long-name", "59s")] {
            assert_eq!(
                tile_text(w, "12", true, t, a, '\u{bb}').chars().count(),
                w as usize,
                "width {w} with {t:?}/{a:?}"
            );
        }
    }
}

#[test]
fn tui_short_title_keeps_the_part_that_identifies_the_pane() {
    assert_eq!(short_title("justin@mac: ~/git/gwae"), "gwae");
    assert_eq!(short_title("jcode"), "jcode");
    assert_eq!(short_title("  cargo test  "), "cargo test");
    // A trailing slash must not leave an empty label.
    assert_eq!(short_title("~/git/gwae/"), "~/git/gwae/");
    // Control characters never reach the frame buffer.
    assert_eq!(short_title("ev\u{7}il\u{1b}"), "evil");
    assert_eq!(short_title(""), "");
}

#[test]
fn tui_age_label_is_two_or_three_cells_at_every_scale() {
    assert_eq!(age_label(7), "7s");
    assert_eq!(age_label(59), "59s");
    assert_eq!(age_label(60), "1m");
    assert_eq!(age_label(4 * 60 + 30), "4m");
    assert_eq!(age_label(3600), "1h");
    // Absurd ages clamp rather than widening the tile.
    assert_eq!(age_label(3600 * 500), "99h");
    for d in [1u64, 59, 60, 3599, 3600, 3600 * 500] {
        assert!(age_label(d).chars().count() <= 3);
    }
}

#[test]
fn a_busy_session_polls_at_the_configured_rate() {
    for ms in [1u64, 2, 8, 50] {
        assert_eq!(input_poll_interval(ms, 0), ms, "fresh activity at {ms}ms");
        // Still tight just before the idle threshold.
        assert_eq!(input_poll_interval(ms, IDLE_AFTER_MS - 1), ms);
    }
}

#[test]
fn an_idle_session_backs_off_to_far_fewer_wakeups() {
    let idle = input_poll_interval(2, IDLE_AFTER_MS);
    assert_eq!(idle, IDLE_POLL_MS);
    let busy = input_poll_interval(2, 0);
    assert!(
        idle * 1000 >= busy * 1000 * 10,
        "idle backoff {idle:?} must be >=10x the busy interval {busy:?}"
    );
    // Still fast enough to repaint within one frame at 30 fps.
    assert!(idle <= 33, "{idle:?} too sluggish");
}

#[test]
fn the_backoff_never_polls_more_often_than_configured() {
    let cfg = 50;
    assert_eq!(input_poll_interval(cfg, 60_000), cfg);
    // Out-of-range config values are still clamped the way they were.
    assert_eq!(input_poll_interval(0, 0), 1);
    assert_eq!(input_poll_interval(9999, 0), 50);
}

#[test]
fn paste_note_warns_when_the_child_cannot_bracket() {
    assert_eq!(paste_note("a\nb\nc", true), "pasted 3 lines");
    assert!(paste_note("a\nb\nc", false).contains("newlines run"));
}

#[test]
fn copy_note_counts_lines_or_characters() {
    assert_eq!(copy_note("hello"), "copied 5 chars");
    assert_eq!(copy_note("x"), "copied 1 char");
    assert_eq!(copy_note("a\nb\nc"), "copied 3 lines");
}

#[test]
fn copy_note_counts_a_trailing_newline_as_ending_a_line_not_starting_one() {
    assert_eq!(copy_note("a\nb\n"), "copied 2 lines");
    assert_eq!(copy_note(""), "copied 0 chars");
    assert_eq!(paste_note("a\r\nb", true), "pasted 2 lines");
    assert_eq!(
        paste_note("one", false),
        "pasted 1 lines \u{b7} no bracket, newlines run"
    );
}

#[test]
fn first_line_keeps_the_first_line_trimmed() {
    assert_eq!(first_line("  bad config  \nat line 3"), "bad config");
    assert_eq!(first_line("only line\r\n"), "only line");
    assert_eq!(first_line(""), "");
    assert_eq!(first_line("\nsecond"), "");
}

#[test]
fn hud_hint_spells_the_modifier_before_every_key() {
    assert_eq!(
        hud_hint("\u{2325}"),
        "\u{2325}1-9 col \u{b7} \u{2325}g attention \u{b7} \u{2325}hjkl move \u{b7} \u{2325}/ keys"
    );
    assert!(hud_hint("Alt+").starts_with("Alt+1-9 col"));
}

#[test]
fn tile_text_without_an_age_pads_to_the_right() {
    assert_eq!(tile_text(10, "3", false, "cargo", "", '\u{2713}'), "\u{2713}3 cargo  ");
    assert_eq!(tile_text(10, "3", true, "", "12m", '!'), "!3\u{25b8}    12m");
    assert_eq!(tile_text(0, "3", true, "cargo", "1s", '!'), "");
}

#[test]
fn a_large_paste_asks_first() {
    assert_eq!(paste_confirmation("ls -la\n"), None);
    assert_eq!(paste_confirmation(&"line\n".repeat(8)), None);
    assert_eq!(paste_confirmation(&"line\n".repeat(9)), Some(9));
    assert_eq!(paste_confirmation(&"line\n".repeat(8).trim_end().to_string()), None);
    assert_eq!(paste_confirmation(&"x".repeat(2048)), None);
    assert_eq!(paste_confirmation(&"x".repeat(2049)), Some(1));
    // Bytes, not characters: 1025 two-byte characters are over the limit.
    assert_eq!(paste_confirmation(&"\u{e9}".repeat(1025)), Some(1));
}
