use gwae::note::{
    bad_dir_note, config_error_note, keep_awake_note, copies_selection, copy_report, paste_report, trim_trailing_newlines, confirmed_paste, expire, host_title, jump_echo, note_is_ok, offer_update,
    paste_step, post, reload_failed_note, reloaded_note, spawn_dir_note, theme_kept_note, Note, PasteStep,
    PendingPaste, NOTE_LINGER_MS,
};
use gwae::view::Rect;

#[test]
fn a_note_lingers_then_expires() {
    let anchor = Some(Rect { x: 1, y: 1, w: 10, h: 5 });
    let n = post("copied 3 lines".to_string(), anchor, 1000);
    assert_eq!(n.until_ms, 1000 + NOTE_LINGER_MS);
    assert_eq!(n.anchor, anchor);
    assert_eq!(expire(Some(n.clone()), 1000 + NOTE_LINGER_MS - 1), Some(n.clone()));
    assert_eq!(expire(Some(n), 1000 + NOTE_LINGER_MS), None);
    assert_eq!(expire(None, 0), None);
}

#[test]
fn the_update_notice_yields_and_shows_once() {
    let busy = Note { text: "config reloaded".to_string(), until_ms: 50, anchor: None };
    // Something else is on screen: the notice waits.
    let (n, pending) = offer_update(Some(busy.clone()), true, Some("update".to_string()), 10);
    assert_eq!((n, pending), (Some(busy), true));
    // The screen is free: it shows, unanchored, for three lingers.
    let (n, pending) = offer_update(None, true, Some("update".to_string()), 100);
    let n = n.unwrap();
    assert_eq!((n.text.as_str(), n.until_ms, n.anchor, pending), ("update", 100 + 3 * NOTE_LINGER_MS, None, false));
    // Never again this session.
    assert_eq!(offer_update(None, pending, Some("update".to_string()), 9000), (None, false));
}

#[test]
fn failures_read_as_failures_and_the_rest_as_news() {
    assert!(note_is_ok("config reloaded: catppuccin-mocha"));
    assert!(note_is_ok("copied 3 lines"));
    assert!(!note_is_ok("config error: expected `=`"));
    assert!(!note_is_ok("spawn dir: ~/x (this session; save error: denied)"));
    assert!(!note_is_ok("unknown theme \"nope\""));
    // Only a leading "unknown theme" marks a failure.
    assert!(note_is_ok("theme: unknown theme"));
    assert!(note_is_ok(""));
}

#[test]
fn reload_notes_name_what_happened() {
    assert_eq!(reloaded_note(None, "dracula"), "config reloaded: dracula");
    assert_eq!(reloaded_note(Some("nope"), "dracula"), "unknown theme \"nope\"");
    assert_eq!(reloaded_note(Some("a\"b"), "x"), "unknown theme \"a\\\"b\"");
    assert_eq!(config_error_note("  bad key  \nat line 3"), "config error: bad key");
    assert_eq!(reload_failed_note("exec: no such file\nmore"), "hot reload failed: exec: no such file");
    assert!(note_is_ok(&reload_failed_note("exec failed")), "a failed reload without the word error reads as news");
}

#[test]
fn picker_notes_say_where_things_went() {
    assert_eq!(theme_kept_note("nord"), "theme: nord \u{2014} add `theme = \"nord\"` to keep it");
    assert_eq!(spawn_dir_note("~/src/gwae", None), "spawn dir: ~/src/gwae \u{2014} new panes start here");
    assert_eq!(spawn_dir_note("~/src/gwae", Some(Ok(()))), "spawn dir: ~/src/gwae (saved to config)");
    assert_eq!(
        spawn_dir_note("~/src/gwae", Some(Err("read-only file system".to_string()))),
        "spawn dir: ~/src/gwae (this session; save error: read-only file system)"
    );
}

#[test]
fn a_bad_spawn_dir_is_announced_for_twice_the_linger() {
    let n = bad_dir_note("no such directory: ~/nope", 100);
    assert_eq!(n.text, "agent_dir: no such directory: ~/nope; panes opened in gwae's cwd");
    assert_eq!(n.until_ms, 100 + 2 * NOTE_LINGER_MS);
    assert_eq!(n.anchor, None);
}

#[test]
fn the_typed_column_number_is_echoed() {
    assert_eq!(jump_echo("\u{2325}", 12), "\u{2325} \u{2192} column 12");
    assert_eq!(jump_echo("Alt+", 3), "Alt+ \u{2192} column 3");
}

#[test]
fn the_host_title_falls_back_to_gwae() {
    assert_eq!(host_title(""), "gwae");
    assert_eq!(host_title("jcode"), "jcode");
}

#[test]
fn a_large_paste_asks_and_a_second_chord_confirms_in_time() {
    let small = "one\ntwo";
    assert_eq!(paste_step(small, 0, "\u{2325}+v"), PasteStep::Deliver(small.to_string()));
    let big: String = (0..9).map(|i| format!("line {i}\n")).collect();
    match paste_step(&big, 500, "\u{2325}+v") {
        PasteStep::Ask { note, pending } => {
            assert_eq!(note, "paste 9 lines? \u{2325}+v again");
            assert_eq!(pending, PendingPaste { text: big.clone(), until_ms: 500 + NOTE_LINGER_MS });
            assert_eq!(confirmed_paste(Some(pending.clone()), 500 + NOTE_LINGER_MS - 1), Some(big.clone()));
            assert_eq!(confirmed_paste(Some(pending), 500 + NOTE_LINGER_MS), None, "too late: ask again");
        }
        other => panic!("a nine-line paste must ask first, got {other:?}"),
    }
    let wide = "x".repeat(2049);
    assert!(matches!(paste_step(&wide, 0, "v"), PasteStep::Ask { .. }), "over the byte limit asks too");
    assert_eq!(confirmed_paste(None, 0), None);
}

#[test]
fn a_whole_pane_copy_drops_the_padding_rows() {
    assert_eq!(trim_trailing_newlines("$ ls\nsrc\n\n\n"), "$ ls\nsrc");
    assert_eq!(trim_trailing_newlines("\n\n"), "");
    assert_eq!(trim_trailing_newlines("a\n\nb"), "a\n\nb", "inner blank lines stay");
}

#[test]
fn copy_takes_a_selection_only_in_the_focused_pane() {
    assert!(copies_selection(Some((3, false)), 3));
    assert!(!copies_selection(Some((3, true)), 3), "an empty selection is a click");
    assert!(!copies_selection(Some((4, false)), 3), "a selection left elsewhere");
    assert!(!copies_selection(None, 3));
}

#[test]
fn copy_and_paste_report_what_happened() {
    assert_eq!(copy_report("", true), "nothing to copy");
    assert_eq!(copy_report("a\nb", true), "copied 2 lines");
    assert_eq!(copy_report("abc", true), "copied 3 chars");
    assert_eq!(copy_report("abc", false), "clipboard unavailable");
    assert_eq!(paste_report(0, "x", true), "nothing to paste");
    assert_eq!(paste_report(1, "x", true), "pasted 1 lines");
    assert_eq!(paste_report(5, "a\nb", false), "pasted 2 lines \u{b7} no bracket, newlines run");
}

#[test]
fn the_keep_awake_toggle_says_what_it_did() {
    assert_eq!(keep_awake_note(false, true, false, ""), "keep-awake is macOS-only");
    assert_eq!(keep_awake_note(true, true, true, ""), "keep-awake on for this session (off again at next launch)");
    assert_eq!(
        keep_awake_note(true, true, false, "caffeinate not found"),
        "keep-awake on (this session), assertion not held (caffeinate not found)"
    );
    assert_eq!(keep_awake_note(true, false, false, ""), "keep-awake off");
}
