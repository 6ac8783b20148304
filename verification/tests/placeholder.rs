use gwae::cell::{Cell, Color};
use gwae::placeholder::{big_glyph, clear_placeholder, draw_art, draw_big_label, draw_placeholder_contents, placeholder_label};
use gwae::view::Rect;

fn row(out: &[Cell], cols: usize, y: usize) -> String {
    (0..cols).map(|x| if out[y * cols + x].style.bg == Color::Idx(7) { '#' } else { out[y * cols + x].ch }).collect()
}

#[test]
fn big_label_skipped_when_rect_too_small() {
    let cols: u16 = 10;
    let mut out = vec![Cell::default(); (cols as usize) * 4];
    let rect = Rect { x: 0, y: 0, w: 6, h: 4 };
    draw_big_label(&mut out, cols, rect, "1.1", Color::Rgb(0x58, 0x5b, 0x70));
    assert!(out.iter().all(|c| c.style.bg == Color::Default), "no partial label may be painted");
}

#[test]
fn big_label_paints_centered_block_glyphs() {
    let cols: u16 = 13;
    let mut out = vec![Cell::default(); 13 * 7];
    draw_big_label(&mut out, cols, Rect { x: 0, y: 0, w: 13, h: 7 }, "1.1", Color::Idx(7));
    assert_eq!(row(&out, 13, 0), "             ");
    assert_eq!(row(&out, 13, 1), "  #       #  ");
    assert_eq!(row(&out, 13, 5), " ###  #  ### ");
    assert_eq!(big_glyph('7'), Some([0b111, 0b001, 0b010, 0b010, 0b010]));
    assert_eq!(big_glyph('a'), None);
}

#[test]
fn art_is_centered_clipped_and_keeps_the_backdrop() {
    let cols: u16 = 8;
    let bg = Color::Idx(235);
    let mut out = vec![Cell { style: gwae::cell::Style { bg, ..Default::default() }, ..Cell::default() }; 8 * 3];
    let art = vec!["ab c".to_string(), "defghijk".to_string(), "z".to_string()];
    draw_art(&mut out, cols, Rect { x: 1, y: 0, w: 6, h: 2 }, &art, Color::Idx(3));
    // The block is 8 wide: wider than the rect, so nothing is drawn.
    assert!(out.iter().all(|c| c.ch == ' '));
    let art = vec!["ab c".to_string(), " de".to_string(), "z".to_string()];
    draw_art(&mut out, cols, Rect { x: 1, y: 0, w: 6, h: 2 }, &art, Color::Idx(3));
    assert_eq!((0..8).map(|x| out[x].ch).collect::<String>(), "  ab c  ");
    assert_eq!((0..8).map(|x| out[8 + x].ch).collect::<String>(), "   de   ");
    assert_eq!((0..8).map(|x| out[16 + x].ch).collect::<String>(), "        ", "rows past the rect are clipped");
    assert_eq!(out[2].style.fg, Color::Idx(3));
    assert_eq!(out[2].style.bg, bg);
}

#[test]
fn placeholder_contents_stack_the_label_over_the_art() {
    let cols: u16 = 20;
    let mut out = vec![Cell::default(); 20 * 12];
    let art = vec!["moo".to_string()];
    draw_placeholder_contents(&mut out, cols, Rect { x: 0, y: 0, w: 20, h: 12 }, "1", Color::Idx(7), &art, true);
    // Label 5 rows, a spacer, then one row of art: 7 rows centered in 12.
    assert_eq!(row(&out, 20, 2), "         #          ");
    assert_eq!(row(&out, 20, 8), "        moo         ");
    let mut bare = vec![Cell::default(); 20 * 12];
    draw_placeholder_contents(&mut bare, cols, Rect { x: 0, y: 0, w: 20, h: 12 }, "1", Color::Idx(7), &vec![], false);
    assert_eq!(bare, vec![Cell::default(); 240], "no label and no art paint nothing");
}

#[test]
fn placeholder_label_and_interior() {
    assert_eq!(placeholder_label(2, 13), "2.13");
    let mut out = vec![Cell { ch: 'x', ..Cell::default() }; 16];
    clear_placeholder(&mut out, 4, Rect { x: 0, y: 0, w: 4, h: 4 }, Color::Idx(234));
    assert_eq!(out[5].ch, ' ');
    assert_eq!(out[5].style.bg, Color::Idx(234));
    assert_eq!(out[0].ch, 'x');
    assert_eq!(out[15].ch, 'x');
}

#[test]
fn a_box_past_the_right_edge_is_clipped_not_wrapped() {
    // The label "1" (a 3-wide glyph) centered in a 5-wide box at x 8 on a
    // 10-wide screen: its third column would fall at x 10, off screen.
    let cols: u16 = 10;
    let mut out = vec![Cell::default(); 10 * 7];
    draw_big_label(&mut out, cols, Rect { x: 8, y: 0, w: 5, h: 7 }, "1", Color::Idx(7));
    // " # " / "## " / " # " / " # " / "###": row 5 would wrap its last pixel.
    assert_eq!(row(&out, 10, 5), "         #");
    assert_eq!(row(&out, 10, 6), "          ", "nothing wraps onto the next row");
    assert_eq!(row(&out, 10, 1), "          ");
    let mut cleared = vec![Cell { ch: 'x', ..Cell::default() }; 10 * 4];
    clear_placeholder(&mut cleared, cols, Rect { x: 7, y: 0, w: 6, h: 4 }, Color::Idx(7));
    assert_eq!(row(&cleared, 10, 1), "xxxxxxxx##");
    assert_eq!(row(&cleared, 10, 2), "xxxxxxxx##", "the interior stops at the edge");
    assert_eq!(row(&cleared, 10, 0), "xxxxxxxxxx");
}
