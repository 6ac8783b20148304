use gwae::cell::{Cell, Color};
use gwae::cheatsheet::{cheat_sheet_lines, draw_center_hud};
use gwae::panels::Palette;

fn pal() -> Palette {
    Palette {
        base: Color::Idx(234),
        surface: Color::Idx(236),
        overlay: Color::Idx(240),
        text: Color::Idx(252),
        muted: Color::Idx(245),
        accent: Color::Idx(1),
        label: Color::Idx(238),
        running: Color::Idx(2),
        idle: Color::Idx(3),
        done: Color::Idx(4),
        failed: Color::Idx(9),
        running_muted: Color::Idx(22),
        idle_muted: Color::Idx(58),
        done_muted: Color::Idx(24),
        failed_muted: Color::Idx(52),
    }
}

fn binds(v: &[(&str, &str)]) -> Vec<(String, String)> {
    v.iter().map(|(k, d)| (k.to_string(), d.to_string())).collect()
}

fn line(v: &[char]) -> String {
    v.iter().collect()
}

#[test]
fn the_sheet_is_a_ruled_table_with_a_centered_prefix_line() {
    let nav = binds(&[("⌥h", "focus left"), ("⌥g", "smart jump")]);
    let panes = binds(&[("⌥⏎", "new column")]);
    let (lines, width) = cheat_sheet_lines(&nav, &panes, "⌥");
    let text: Vec<String> = lines.iter().map(|l| line(l)).collect();
    assert_eq!(text[0], " key │ navigate   │ key │ panes      ");
    assert_eq!(text[1], "─────┼────────────┼─────┼────────────");
    assert_eq!(text[2], " ⌥h  │ focus left │ ⌥⏎  │ new column ");
    assert_eq!(text[3], " ⌥g  │ smart jump │     │            ");
    assert_eq!(text[4], "─────┴────────────┴─────┴────────────");
    assert_eq!(width, 37);
    assert_eq!(text[5], format!("{}prefix: ⌥+key{}", " ".repeat(12), " ".repeat(12)));
    assert_eq!(text.len(), 6);
}

#[test]
fn center_hud_paints_centered_box_with_cheat_sheet() {
    let nav = binds(&[("⌥h", "focus left")]);
    let panes = binds(&[("⌥q", "kill pane")]);
    let (cols, rows) = (60u16, 20u16);
    let mut out = vec![Cell::default(); 60 * 20];
    draw_center_hud(&mut out, cols, rows, &pal(), &nav, &panes, "⌥", None, None);
    let grid: Vec<String> = (0..20).map(|y| (0..60).map(|x| out[y * 60 + x].ch).collect()).collect();
    let top = grid.iter().position(|r| r.contains('╭')).unwrap();
    assert!(grid[top + 1].contains(" key │ navigate   │ key │ panes     "));
    assert!(grid[top + 3].contains("⌥h  │ focus left"));
    let x0 = grid[top].chars().position(|c| c == '╭').unwrap();
    assert_eq!(out[top * 60 + x0].style.fg, Color::Idx(1));
    assert_eq!(out[top * 60 + x0].style.bg, Color::Default);
    let hx = grid[top + 1].chars().position(|c| c == 'k').unwrap();
    assert_eq!(out[(top + 1) * 60 + hx].style.fg, Color::Idx(1), "header in the accent");
    assert!(out[(top + 1) * 60 + hx].style.bold);
    let rx = grid[top + 2].chars().position(|c| c == '─').unwrap();
    assert_eq!(out[(top + 2) * 60 + rx].style.fg, Color::Idx(245), "rules muted");
    let bx = grid[top + 3].chars().position(|c| c == 'f').unwrap();
    assert_eq!(out[(top + 3) * 60 + bx].style.fg, Color::Idx(252));
    assert_eq!(out[(top + 3) * 60 + bx].style.bg, Color::Idx(236));
    let mut small = vec![Cell::default(); 20 * 8];
    draw_center_hud(&mut small, 20, 8, &pal(), &nav, &panes, "⌥", None, None);
    assert_eq!(small, vec![Cell::default(); 160]);
}

const KEEP_AWAKE: &str = " keep-awake ";
const DEV: &str = " DEV ";

fn help_panel(keep_awake: bool, dev: bool) -> Vec<Cell> {
    let nav = binds(&[("⌥h", "focus left"), ("⌥l", "focus right"), ("⌥g", "smart jump")]);
    let panes = binds(&[("⌥⏎", "new column"), ("⌥q", "kill pane")]);
    let mut out = vec![Cell::default(); 80 * 24];
    draw_center_hud(
        &mut out,
        80,
        24,
        &pal(),
        &nav,
        &panes,
        "⌥",
        if keep_awake { Some(KEEP_AWAKE) } else { None },
        if dev { Some(DEV) } else { None },
    );
    out
}

fn screen_rows(out: &[Cell], cols: usize) -> Vec<String> {
    out.chunks(cols).map(|r| r.iter().map(|c| c.ch).collect()).collect()
}

#[test]
fn keep_awake_badge_stamps_the_center_help_frame_only_while_awake() {
    for keep_awake in [false, true] {
        let out = help_panel(keep_awake, false);
        let text: String = out.iter().map(|c| c.ch).collect();
        assert_eq!(text.contains("keep-awake"), keep_awake, "badge reads on the help frame iff awake: {text:?}");
    }
}

#[test]
fn keep_awake_badge_sits_top_center_of_the_help_frame() {
    let out = help_panel(true, false);
    let lines = screen_rows(&out, 80);
    let badge_w = KEEP_AWAKE.chars().count();
    let row = lines.iter().find(|l| l.contains("keep-awake")).expect("badge must stamp one row");
    let chars: Vec<char> = row.chars().collect();
    let frame_start = chars.iter().position(|&c| c == '╭').unwrap();
    let frame_end = chars.iter().position(|&c| c == '╮').unwrap();
    let frame_w = frame_end - frame_start + 1;
    let needle: Vec<char> = "keep-awake".chars().collect();
    let start_char = chars.windows(needle.len()).position(|w| w == needle.as_slice()).expect("badge text must read in row chars");
    let expected = frame_start + (frame_w - badge_w) / 2 + 1;
    assert_eq!(start_char, expected, "badge must be centered on the top frame row:\n{row}");
}

#[test]
fn dev_badge_stamps_the_center_help_frame_only_in_dev() {
    for dev in [false, true] {
        let out = help_panel(false, dev);
        let text: String = out.iter().map(|c| c.ch).collect();
        assert_eq!(text.contains("DEV"), dev, "DEV reads on the help frame iff dev: {text:?}");
    }
}

#[test]
fn dev_badge_sits_bottom_center_of_the_help_frame() {
    let out = help_panel(false, true);
    let lines = screen_rows(&out, 80);
    let badge_w = DEV.chars().count();
    let row = lines.iter().rev().find(|l| l.contains("DEV")).expect("badge must stamp one row");
    let chars: Vec<char> = row.chars().collect();
    let frame_start = chars.iter().position(|&c| c == '╰').unwrap();
    let frame_end = chars.iter().rposition(|&c| c == '╯').unwrap();
    let frame_w = frame_end - frame_start + 1;
    let needle: Vec<char> = "DEV".chars().collect();
    let start_char = chars.windows(needle.len()).position(|w| w == needle.as_slice()).expect("badge text must read in row chars");
    let expected = frame_start + (frame_w - badge_w) / 2 + 1;
    assert_eq!(start_char, expected, "badge must be centered on the bottom frame row:\n{row}");
}

#[test]
fn both_badges_keep_the_frame_background_and_take_the_accent() {
    let out = help_panel(true, true);
    let lines = screen_rows(&out, 80);
    let top = lines.iter().position(|l| l.contains("keep-awake")).unwrap();
    let x = lines[top].chars().position(|c| c == 'k').unwrap();
    let c = out[top * 80 + x];
    assert_eq!(c.style.fg, Color::Idx(1));
    assert!(c.style.bold);
    assert_eq!(c.style.bg, Color::Default, "the ring's own background stays");
    assert!(lines.iter().rev().any(|l| l.contains("DEV")));
}
