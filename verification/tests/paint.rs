use gwae::cell::{Cell, Color, Style};
use gwae::paint::{host_width_agrees, paint_plan, PaintRun};

fn text(r: &PaintRun) -> String {
    r.text.iter().collect()
}

fn xs(n: usize) -> Vec<Cell> {
    vec![Cell { ch: 'x', ..Cell::default() }; n]
}

#[test]
fn paint_emits_combining_marks_with_base_glyph() {
    let mut row = vec![Cell::default(); 3];
    row[0].ch = '\u{10EEEE}';
    row[0].combining[0] = '\u{0305}';
    row[0].combining[1] = '\u{030D}';
    let (dirty, runs) = paint_plan(&row, &xs(3), 3, 1);
    assert!(dirty);
    assert!(text(&runs[0]).contains("\u{10EEEE}\u{0305}\u{030D}"), "combining marks split from base");
    assert_eq!((runs[0].x, runs[0].y), (0, 0));
}

#[test]
fn paint_skips_wide_continuation_cells() {
    let mut row = vec![Cell::default(); 6];
    row[0] = Cell { ch: '你', width: 2, ..Cell::default() };
    row[1] = Cell { ch: ' ', width: 0, ..Cell::default() };
    row[2].ch = 'a';
    row[3].ch = 'b';
    let (dirty, runs) = paint_plan(&row, &xs(6), 6, 1);
    assert!(dirty);
    assert_eq!(text(&runs[0]), "你");
    assert_eq!(runs[1].x, 2, "'a' is re-anchored at its true column");
    assert_eq!(text(&runs[1]), "ab  ");
    assert_eq!(runs.len(), 2);
}

#[test]
fn paint_cuts_runs_at_width_ambiguous_glyphs() {
    let hl = Style { bg: Color::Idx(238), ..Style::default() };
    let mut row = vec![Cell { style: hl, ..Cell::default() }; 4];
    for (i, ch) in "\u{ac00}\u{b098}\u{b2e4}".chars().enumerate() {
        row[i] = Cell { ch, style: hl, width: 1, ..Cell::default() };
    }
    let (dirty, runs) = paint_plan(&row, &vec![Cell::default(); 4], 4, 1);
    assert!(dirty);
    for (i, ch) in "\u{ac00}\u{b098}\u{b2e4}".chars().enumerate() {
        assert_eq!(runs[i].x as usize, i);
        assert_eq!(text(&runs[i]), ch.to_string());
    }
}

#[test]
fn paint_keeps_merging_plain_ascii_runs() {
    let mut row = vec![Cell::default(); 6];
    for (i, ch) in "hello".chars().enumerate() {
        row[i].ch = ch;
    }
    let (_, runs) = paint_plan(&row, &xs(6), 6, 1);
    assert_eq!(runs.len(), 1);
    assert_eq!(text(&runs[0]), "hello ");
}

#[test]
fn paint_resets_attributes_between_runs() {
    let mut row = vec![Cell::default(); 4];
    row[0].ch = 'u';
    row[0].style.underline = true;
    row[1].ch = 'p';
    let (_, runs) = paint_plan(&row, &xs(4), 4, 1);
    assert_eq!(runs.len(), 2);
    assert!(runs[0].style.underline);
    assert_eq!(text(&runs[0]), "u");
    assert!(!runs[1].style.underline, "the plain run carries its own style");
    assert_eq!(text(&runs[1]), "p  ");
}

#[test]
fn an_unchanged_frame_paints_nothing_and_only_changed_rows_repaint() {
    let frame = xs(6);
    let (dirty, runs) = paint_plan(&frame, &frame, 3, 2);
    assert!(!dirty);
    assert!(runs.is_empty());
    let mut next = frame.clone();
    next[4].ch = 'y';
    let (dirty, runs) = paint_plan(&next, &frame, 3, 2);
    assert!(dirty);
    assert_eq!(runs.len(), 1);
    assert_eq!((runs[0].x, runs[0].y), (0, 1));
    assert_eq!(text(&runs[0]), "xyx");
    let (dirty, _) = paint_plan(&frame, &vec![], 3, 2);
    assert!(dirty, "no previous frame means every row is new");
}

#[test]
fn host_width_agreement_follows_the_width_table() {
    assert!(host_width_agrees(Cell { ch: 'a', ..Cell::default() }));
    assert!(!host_width_agrees(Cell { ch: '\u{1b}', ..Cell::default() }));
    assert!(!host_width_agrees(Cell { ch: '\u{ac00}', width: 1, ..Cell::default() }));
    assert!(host_width_agrees(Cell { ch: '\u{ac00}', width: 2, ..Cell::default() }));
}
