use gwae::agent::{force_pick_notice, Found};

fn notice_found(cmds: &[&str]) -> Vec<Found> {
    cmds.iter()
        .map(|c| Found { cmd: c.to_string(), label: c.to_string() })
        .collect()
}

#[test]
fn the_force_pick_notice_bypasses_every_fast_path_silently_when_healthy() {
    let ordered = notice_found(&["codex"]);
    assert_eq!(force_pick_notice("", "codex", &ordered, false), None);
    let ordered = notice_found(&["codex", "aider"]);
    assert_eq!(force_pick_notice("", "", &ordered, false), None);
}

#[test]
fn the_force_pick_notice_explains_overrides_stale_memory_and_empty_scans() {
    let ordered = notice_found(&["codex"]);
    // `jcode-not-real` is not an installed command.
    assert_eq!(
        force_pick_notice("jcode-not-real", "", &ordered, false),
        Some("`jcode-not-real` is not installed".to_string())
    );
    assert_eq!(
        force_pick_notice("", "gone-xyz", &ordered, false),
        Some("remembered `gone-xyz` is gone; pick another".to_string())
    );
    // `sh` is an installed command.
    assert_eq!(
        force_pick_notice("sh", "codex", &ordered, true),
        Some("default_agent `sh` still wins for ⌥+;".to_string())
    );
    assert_eq!(
        force_pick_notice("sh", "gone-xyz", &ordered, true),
        Some("default_agent `sh` still wins for ⌥+;".to_string())
    );
    assert_eq!(
        force_pick_notice("", "", &[], false),
        Some("No agent harness found — type a command or take a shell".to_string())
    );
}

#[test]
fn the_force_pick_notice_reads_its_inputs_trimmed() {
    let ordered = notice_found(&["codex"]);
    assert_eq!(force_pick_notice("  ", " codex ", &ordered, false), None);
    assert_eq!(
        force_pick_notice(" vim ", "", &ordered, false),
        Some("`vim` is not installed".to_string())
    );
}
