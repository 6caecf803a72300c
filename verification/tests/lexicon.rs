use fete::lexicon::{
    atlas_rows, atlas_size, draw_slots, glyph_index, glyphs, words, ATLAS_CELL, ATLAS_COLS,
    CHOONPU, MAX_CHARS, MAX_SLOTS,
};

/// The character index the atlas baker writes beside `glyphs.png`.
const GLYPHS_TXT: &str = "# Generated by tools/glyph-atlas from NotoSansCJKjp-Light.otf. Do not edit.\n\
# Cell n of glyphs.png holds character n of this line, left to right\n\
# then down, 12 cells across.\n\
酉の市熊手開運商売繁盛大吉祭居酒屋衆場生ビール焼酎立呑みバスナックラメン中華そば餃子鳥肉寿司天ぷらとんかつうどおでカレ定食丼麺氷喫茶珈琲コヒオケパチサウホテ銭湯ゆ温泉質薬電気たこ横丁営業年無休深夜一番元祖東京新宿渋谷上野浅草銀座歌舞伎町\n";

/// The start of a PNG as the baker writes it: signature, then `IHDR` with the
/// width and height at offsets 16 and 20.
fn png_header(width: u32, height: u32) -> Vec<u8> {
    let mut png = vec![0x89, b'P', b'N', b'G', 0x0d, 0x0a, 0x1a, 0x0a, 0, 0, 0, 13];
    png.extend_from_slice(b"IHDR");
    png.extend_from_slice(&width.to_be_bytes());
    png.extend_from_slice(&height.to_be_bytes());
    png.extend_from_slice(&[8, 0, 0, 0, 0]);
    png
}

#[test]
fn every_word_fits_and_packs() {
    let slots = draw_slots();
    assert_eq!(
        slots.len(),
        words().iter().map(|w| w.weight.max(1) as usize).sum::<usize>(),
    );
    assert!(slots.len() <= MAX_SLOTS);
    assert!(words().iter().all(|w| w.text.chars().count() <= MAX_CHARS));
}

#[test]
fn the_long_vowel_mark_is_in_the_vocabulary() {
    assert!(glyph_index(CHOONPU).is_some());
}

#[test]
fn the_committed_atlas_matches_the_vocabulary() {
    let stale = "`src/glyphs.png` is stale — re-run `cargo run -p fete-glyph-atlas`";

    let baked = GLYPHS_TXT
        .lines()
        .find(|line| !line.starts_with('#'))
        .expect("the character index has a character line");
    assert_eq!(baked.chars().collect::<Vec<_>>(), glyphs(), "{stale}");

    let png = png_header(1536, 1280);
    let dim = |at: usize| u32::from_be_bytes(png[at..at + 4].try_into().unwrap());
    assert_eq!((dim(16), dim(20)), atlas_size(), "{stale}");
}

#[test]
fn glyphs_are_in_first_appearance_order_each_once() {
    let g = glyphs();
    let mut seen = Vec::new();
    for w in words() {
        for c in w.text.chars() {
            if !seen.contains(&c) {
                seen.push(c);
            }
        }
    }
    assert_eq!(g, seen);
    assert_eq!(g.len(), 118);
    assert_eq!(g[0], '酉');
    assert_eq!(glyph_index('酉'), Some(0));
    assert_eq!(glyph_index('の'), Some(1));
    assert_eq!(glyph_index('A'), None);
}

#[test]
fn the_atlas_has_a_cell_for_every_glyph() {
    assert_eq!(atlas_rows(), 10);
    assert_eq!(atlas_size(), (ATLAS_COLS * ATLAS_CELL, 10 * ATLAS_CELL));
    assert!(atlas_rows() * ATLAS_COLS >= glyphs().len() as u32);
}

#[test]
fn the_festival_takes_four_slots_and_rows_pad_with_minus_one() {
    let slots = draw_slots();
    assert_eq!(slots.len(), 61);
    for row in &slots[0..4] {
        assert_eq!(*row, [0, 1, 2, -1]);
    }
    assert_eq!(slots[4], [3, 4, -1, -1]);
    assert_ne!(slots[5], slots[4]);
}
