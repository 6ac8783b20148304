use gwae::session::{adopt_size, chrome_rows, gateway_command, kitty_graphics, pane_env, pane_sync_plan, spawn_argv};

#[test]
fn no_rows_are_reserved_for_chrome() {
    assert_eq!(chrome_rows(), 0);
}

#[test]
fn the_gateway_command_quotes_the_binary_path() {
    assert_eq!(gateway_command("/opt/my tools/gwae"), "\"/opt/my tools/gwae\" agent");
    // Quoted, a path with spaces survives the split into argv.
    let argv = spawn_argv(&gateway_command("/opt/my tools/gwae"), None).unwrap();
    assert_eq!(argv, vec!["/opt/my tools/gwae".to_string(), "agent".to_string()]);
}

#[test]
fn a_blank_command_runs_the_login_shell_or_sh() {
    assert_eq!(spawn_argv("  ", Some("/bin/zsh")).unwrap(), vec!["/bin/zsh".to_string()]);
    assert_eq!(spawn_argv("", None).unwrap(), vec!["sh".to_string()]);
}

#[test]
fn a_command_is_split_like_a_shell() {
    assert_eq!(
        spawn_argv("codex --model 'big one'", Some("/bin/bash")).unwrap(),
        vec!["codex".to_string(), "--model".to_string(), "big one".to_string()]
    );
}

#[test]
fn a_command_that_splits_to_nothing_is_refused() {
    assert_eq!(spawn_argv("''", None), Err("empty command".to_string()));
}

#[test]
fn the_sync_plan_reaps_the_unwanted_and_spawns_the_missing() {
    let (kill, spawn) = pane_sync_plan(&vec![1, 2, 3, 3], &vec![2, 4, 5]);
    assert_eq!(kill, vec![4, 5]);
    assert_eq!(spawn, vec![1, 3]);
    // Applying it leaves exactly the wanted panes.
    let mut running: Vec<u64> = vec![2, 4, 5].into_iter().filter(|p| !kill.contains(p)).collect();
    running.extend(spawn.iter().copied());
    running.sort();
    assert_eq!(running, vec![1, 2, 3]);
}

#[test]
fn a_settled_layout_needs_no_sync() {
    let (kill, spawn) = pane_sync_plan(&vec![7, 8], &vec![8, 7]);
    assert!(kill.is_empty());
    assert!(spawn.is_empty());
}

#[test]
fn a_measured_size_is_clamped_and_reports_a_change() {
    assert_eq!(adopt_size(80, 24, 100, 30), (100, 30, true));
    assert_eq!(adopt_size(80, 24, 80, 24), (80, 24, false));
    assert_eq!(adopt_size(80, 24, 0, 1), (1, 2, true));
}

#[test]
fn kitty_graphics_follows_the_setting_then_the_terminal() {
    assert!(kitty_graphics(Some(" yes "), false, "", ""));
    assert!(!kitty_graphics(Some("0"), true, "xterm-kitty", ""));
    assert!(kitty_graphics(None, true, "xterm", ""));
    assert!(kitty_graphics(None, false, "xterm-Kitty", ""));
    assert!(kitty_graphics(None, false, "xterm-256color", "WezTerm"));
    assert!(kitty_graphics(None, false, "xterm-ghostty", ""));
    assert!(!kitty_graphics(None, false, "xterm-256color", "Apple_Terminal"));
}

#[test]
fn a_pane_knows_its_id_and_terminal_type() {
    assert_eq!(
        pane_env(42),
        vec![("GWAE_PANE".to_string(), "42".to_string()), ("TERM".to_string(), "xterm-256color".to_string())]
    );
    assert_eq!(pane_env(0)[0].1, "0");
}
