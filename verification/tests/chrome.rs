use gwae::chrome::{age_label, short_title, tile_text};

#[test]
fn chrome_tile_text_degrades_in_a_fixed_order_as_the_tile_narrows() {
    // Spatial-only: glyph, address, gap, then padding.
    let wide = tile_text(16, "2", '!');
    assert_eq!(wide.chars().count(), 16, "always exactly the tile width");
    assert!(wide.starts_with("!2 "), "got {wide:?}");
    assert!(
        wide.trim().ends_with('2') || wide.contains("!2"),
        "glyph and address kept, got {wide:?}"
    );
    // The gap cell is always blank: no jump marker is painted.
    let plain = tile_text(16, "2", '!');
    assert_eq!(plain, format!("!2 {}", " ".repeat(13)), "got {plain:?}");
    let mid = tile_text(6, "2", '!');
    assert_eq!(mid.chars().count(), 6);
    assert_eq!(mid, "!2    ", "glyph, address, gap, padding");
    let tight = tile_text(4, "2", '!');
    assert_eq!(tight.chars().count(), 4);
    assert!(tight.starts_with("!2"), "glyph outlives everything: {tight:?}");
    assert_eq!(tile_text(2, "2", '!'), "!2");
    assert_eq!(tile_text(1, "2", '!'), "!");
    assert!(tile_text(4, "10", '\u{bb}').starts_with("\u{bb}10"));
    assert_eq!(tile_text(2, "10", '\u{bb}'), "\u{bb}+");
    assert_eq!(tile_text(3, "10", '\u{bb}'), "\u{bb}10");
    for w in 1..=24u16 {
        assert_eq!(tile_text(w, "12", '\u{bb}').chars().count(), w as usize, "width {w}");
    }
    // The sep cell is always a blank gap.
    assert_eq!(tile_text(3, "1", '»'), "»1 ");
}

#[test]
fn chrome_short_title_keeps_the_part_that_identifies_the_pane() {
    assert_eq!(short_title("justin@mac: ~/git/gwae"), "gwae");
    assert_eq!(short_title("jcode"), "jcode");
    assert_eq!(short_title("  cargo test  "), "cargo test");
    assert_eq!(short_title("~/git/gwae/"), "~/git/gwae/");
    assert_eq!(short_title("ev\u{7}il\u{1b}"), "evil");
    assert_eq!(short_title(""), "");
}

#[test]
fn chrome_age_label_is_two_or_three_cells_at_every_scale() {
    assert_eq!(age_label(7), "7s");
    assert_eq!(age_label(59), "59s");
    assert_eq!(age_label(60), "1m");
    assert_eq!(age_label(4 * 60 + 30), "4m");
    assert_eq!(age_label(3600), "1h");
    assert_eq!(age_label(3600 * 500), "99h");
    for d in [1u64, 59, 60, 3599, 3600, 3600 * 500] {
        assert!(age_label(d).chars().count() <= 3);
    }
}

#[test]
fn short_title_keeps_the_last_colon_part_and_drops_c1_controls() {
    assert_eq!(short_title("a: b: /srv/app"), "app");
    assert_eq!(short_title("x\u{85}y"), "xy");
    assert_eq!(short_title(" / "), "/");
}
