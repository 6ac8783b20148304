use gwae::escape::{query_reply, sanitize_title, scan_osc133, title_sequence};
use gwae::status::PaneStatus;

#[test]
fn emit_title_writes_osc2_st() {
    let out = title_sequence("jcode: my session");
    assert_eq!(out.as_bytes(), b"\x1b]2;jcode: my session\x1b\\");
}

#[test]
fn sanitize_title_strips_control_and_clips() {
    assert_eq!(sanitize_title("abc 123"), "abc 123");
    assert_eq!(sanitize_title("a\x1b]0;evil\x07b"), "a]0;evilb");
    assert_eq!(sanitize_title("\x01\x02"), "");
    let long = "x".repeat(1000);
    assert_eq!(sanitize_title(&long).chars().count(), 256);
}

#[test]
fn sanitize_title_clips_by_characters_and_keeps_c1_and_unicode() {
    let long = "\u{e9}".repeat(300);
    assert_eq!(sanitize_title(&long), "\u{e9}".repeat(256));
    assert_eq!(sanitize_title("a\u{7f}b\u{85}c"), "ab\u{85}c");
    assert_eq!(title_sequence("\x1b[2J"), "\x1b]2;[2J\x1b\\");
}

#[test]
fn scan_osc133_maps_protocol_to_status() {
    assert_eq!(scan_osc133(b"\x1b]133;A\x07"), Some(PaneStatus::Idle));
    assert_eq!(scan_osc133(b"\x1b]133;C\x07"), Some(PaneStatus::Running));
    assert_eq!(scan_osc133(b"\x1b]133;D;0\x07"), Some(PaneStatus::Done));
    assert_eq!(scan_osc133(b"\x1b]133;D\x1b\\"), Some(PaneStatus::Done));
    assert_eq!(scan_osc133(b"\x1b]133;D;127\x07"), Some(PaneStatus::Failed));
    assert_eq!(
        scan_osc133(b"\x1b]133;C\x07output\x1b]133;D;1\x07"),
        Some(PaneStatus::Failed)
    );
    assert_eq!(scan_osc133(b"plain output"), None);
    assert_eq!(scan_osc133(b"\x1b]2;title\x07"), None);
    assert_eq!(scan_osc133(b"\x1b]133;B\x07"), None);
}

#[test]
fn scan_osc133_reads_exit_codes_and_split_markers() {
    assert_eq!(scan_osc133(b"\x1b]133;D;000\x07"), Some(PaneStatus::Done));
    assert_eq!(scan_osc133(b"\x1b]133;D;0010\x07"), Some(PaneStatus::Failed));
    assert_eq!(scan_osc133(b"\x1b]133;D;99999999999999\x07"), Some(PaneStatus::Failed));
    // A marker whose payload has not arrived yet reports nothing.
    assert_eq!(scan_osc133(b"\x1b]133;"), None);
    // The last reporting marker wins even after a non-reporting one.
    assert_eq!(scan_osc133(b"\x1b]133;A\x07\x1b]133;B\x07"), Some(PaneStatus::Idle));
}

#[test]
fn query_reply_answers_device_attributes_and_status_reports() {
    assert_eq!(query_reply(b"\x1b[c"), Some(b"\x1b[?1;2c".to_vec()));
    assert_eq!(query_reply(b"xx\x1b[0cyy"), Some(b"\x1b[?1;2c".to_vec()));
    assert_eq!(query_reply(b"\x1b[5n"), Some(b"\x1b[0n".to_vec()));
    assert_eq!(query_reply(b"\x1b[6n"), Some(b"\x1b[1;1R".to_vec()));
    // Device attributes outrank the status reports in one chunk.
    assert_eq!(query_reply(b"\x1b[6n\x1b[2c"), Some(b"\x1b[?1;2c".to_vec()));
    assert_eq!(query_reply(b"\x1b[3c"), None);
    assert_eq!(query_reply(b""), None);
}

#[test]
fn a_relayed_title_cannot_escape_and_relaying_twice_changes_nothing() {
    let hostile = format!("x\x1b]2;pwned\x07\x1b\\{}\u{7f}", "y".repeat(300));
    let once = sanitize_title(&hostile);
    assert!(once.chars().all(|c| c as u32 >= 0x20 && c != '\u{7f}'));
    assert!(once.chars().count() <= 256);
    assert_eq!(sanitize_title(&once), once);
}

#[test]
fn the_last_marker_wins_across_what_came_before() {
    let tail = b"\x1b]133;C\x07output\x1b]133;D;1\x07";
    assert_eq!(scan_osc133(tail), Some(PaneStatus::Failed));
    let mut joined = b"\x1b]133;A\x07prompt$ ".to_vec();
    joined.extend_from_slice(tail);
    assert_eq!(scan_osc133(&joined), Some(PaneStatus::Failed));
    // A marker split across the boundary does not hide the later one.
    let mut split = b"\x1b]13".to_vec();
    split.extend_from_slice(b"3;A\x1b]133;C");
    assert_eq!(scan_osc133(&split), Some(PaneStatus::Running));
    assert_eq!(scan_osc133(b"\x1b]133;B\x07 plain text"), None, "B reports nothing");
}
