use gwae::cell::{Cell, Color};
use gwae::panels::Palette;
use gwae::pickers::{draw_dir_picker, draw_theme_picker, Candidate, DirPicker};

fn pal() -> Palette {
    Palette {
        base: Color::Idx(234),
        surface: Color::Idx(236),
        overlay: Color::Idx(240),
        text: Color::Idx(252),
        muted: Color::Idx(245),
        accent: Color::Idx(1),
        label: Color::Idx(238),
        running: Color::Idx(2),
        idle: Color::Idx(3),
        done: Color::Idx(4),
        failed: Color::Idx(9),
        running_muted: Color::Idx(22),
        idle_muted: Color::Idx(58),
        done_muted: Color::Idx(24),
        failed_muted: Color::Idx(52),
    }
}

fn screen(out: &[Cell], cols: usize, rows: usize) -> Vec<String> {
    (0..rows).map(|y| (0..cols).map(|x| out[y * cols + x].ch).collect()).collect()
}

fn cand(label: &str, origin: &str) -> Candidate {
    Candidate { label: label.to_string(), origin: origin.to_string() }
}

#[test]
fn stepping_wraps_at_both_ends() {
    let mut p = DirPicker { query: String::new(), sel: 0 };
    p.step(-1, 3);
    assert_eq!(p.sel, 2);
    p.step(1, 3);
    assert_eq!(p.sel, 0);
    p.step(7, 3);
    assert_eq!(p.sel, 1);
    p.step(1, 0);
    assert_eq!(p.sel, 0, "an empty list parks the highlight at the top");
    let shown = vec![cand("gwae", "git"), cand("notes", "recent")];
    p.sel = 1;
    assert_eq!(p.current(&shown), Some(&shown[1]));
    p.sel = 5;
    assert_eq!(p.current(&shown), None);
}

#[test]
fn the_dir_picker_lists_matches_and_highlights_the_selection() {
    let shown = vec![cand("gwae", "git"), cand("notes", "recent")];
    let pick = DirPicker { query: "o".to_string(), sel: 1 };
    let mut out = vec![Cell::default(); 70 * 12];
    draw_dir_picker(&mut out, 70, 12, &pick, &shown, &pal(), "⌥+s");
    let s = screen(&out, 70, 12);
    let title = s.iter().position(|r| r.contains(" spawn dir: o_ ")).unwrap();
    assert!(s[title + 1].contains("gwae") && s[title + 1].contains("git"));
    assert!(s[title + 2].contains("notes") && s[title + 2].contains("recent"));
    assert!(s[title + 3].contains("⌥+s save to config   esc cancel"));
    let nx = s[title + 2].chars().position(|c| c == 'n').unwrap();
    assert_eq!(out[(title + 2) * 70 + nx].style.bg, Color::Idx(1), "selection is filled in the accent");
    assert!(out[(title + 2) * 70 + nx].style.bold);
    let gx = s[title + 1].chars().position(|c| c == 'g').unwrap();
    assert_eq!(out[(title + 1) * 70 + gx].style.bg, Color::Idx(236));
    let mut empty = vec![Cell::default(); 70 * 12];
    draw_dir_picker(&mut empty, 70, 12, &DirPicker { query: "zz".to_string(), sel: 0 }, &vec![], &pal(), "⌥+s");
    assert!(screen(&empty, 70, 12).iter().any(|r| r.contains("no match")));
}

#[test]
fn the_theme_picker_names_the_previewed_theme() {
    let names = vec!["mocha".to_string(), "latte".to_string()];
    let mut out = vec![Cell::default(); 60 * 8];
    draw_theme_picker(&mut out, 60, 8, 1, &names, &pal());
    let s = screen(&out, 60, 8);
    assert!(s.iter().any(|r| r.contains(" theme 2/2: latte ")));
    assert!(s.iter().any(|r| r.contains(" ←/→ preview   ⏎ keep   esc cancel ")));
    let mut none = vec![Cell::default(); 60 * 8];
    draw_theme_picker(&mut none, 60, 8, 2, &names, &pal());
    assert_eq!(none, vec![Cell::default(); 480]);
}

#[test]
fn a_step_back_undoes_a_step() {
    for n in 1..6usize {
        for sel in 0..n {
            for d in -7..8i32 {
                let mut p = DirPicker { query: String::new(), sel };
                p.step(d, n);
                assert!(p.sel < n);
                p.step(-d, n);
                assert_eq!(p.sel, sel, "n={n} sel={sel} d={d}");
            }
        }
    }
}
