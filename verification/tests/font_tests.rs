use angolmois::font::{decompress, Font};

/// The code words of the font, each as the difference to the one before.
const FONT_DWORDS: [u16; 64] = [
    0, 2, 6, 2, 5, 32, 96, 97, 15, 497, 15, 1521,
    15, 1537, 16, 48, 176, 1, 3, 1, 3, 7, 1, 4080,
    4096, 3, 1, 8, 3, 4097, 4080, 16, 16128, 240, 1, 2,
    9, 3, 8177, 15, 16385, 240, 15, 1, 47, 721, 143, 2673,
    2, 6, 7, 1, 31, 17, 16, 63, 64, 33, 0, 1,
    2, 1, 8, 3,
];

/// The glyphs of the font, packed.
const FONT_INDICES: [u8; 1253] = [
    33, 33, 55, 97, 47, 38, 47, 38, 115, 36, 55, 97, 33, 102, 33, 39, 77, 42, 81, 42,
    81, 99, 36, 40, 79, 38, 74, 33, 33, 38, 74, 38, 74, 99, 40, 101, 33, 50, 81, 50,
    81, 99, 36, 45, 66, 103, 50, 109, 33, 50, 98, 66, 91, 81, 55, 81, 50, 91, 101, 38,
    50, 81, 33, 81, 105, 62, 38, 33, 38, 33, 62, 85, 84, 50, 84, 50, 38, 50, 62, 87,
    84, 33, 99, 42, 84, 50, 71, 87, 99, 56, 105, 99, 77, 50, 85, 50, 68, 33, 46, 56,
    40, 77, 36, 85, 81, 67, 81, 45, 106, 97, 98, 33, 39, 85, 42, 50, 42, 50, 42, 50,
    84, 88, 98, 90, 50, 53, 50, 62, 57, 90, 87, 107, 64, 42, 33, 42, 33, 42, 56, 40,
    74, 36, 74, 108, 87, 105, 64, 99, 120, 81, 33, 81, 33, 100, 36, 35, 81, 39, 79, 42,
    63, 107, 64, 101, 50, 100, 102, 101, 106, 99, 78, 108, 33, 38, 74, 84, 76, 84, 76, 71,
    95, 38, 74, 62, 93, 99, 42, 38, 74, 109, 64, 99, 66, 38, 74, 38, 74, 55, 91, 101,
    40, 111, 62, 112, 74, 77, 36, 81, 115, 60, 55, 91, 123, 90, 106, 96, 74, 109, 52, 48,
    33, 51, 33, 46, 56, 40, 77, 36, 85, 33, 67, 33, 45, 111, 82, 62, 85, 81, 50, 85,
    50, 93, 50, 97, 57, 89, 91, 83, 91, 81, 67, 81, 50, 71, 87, 107, 64, 42, 77, 42,
    81, 42, 66, 42, 33, 42, 33, 103, 36, 97, 81, 115, 96, 71, 56, 46, 77, 40, 85, 36,
    91, 33, 67, 97, 91, 111, 64, 81, 50, 81, 33, 73, 74, 81, 33, 81, 33, 99, 44, 71,
    87, 107, 64, 55, 56, 55, 77, 54, 85, 50, 67, 50, 100, 33, 97, 91, 50, 33, 50, 107,
    63, 33, 98, 110, 99, 51, 50, 62, 91, 117, 96, 62, 85, 99, 52, 100, 64, 98, 40, 113,
    64, 97, 98, 88, 85, 33, 68, 33, 46, 56, 40, 74, 38, 74, 38, 100, 36, 113, 96, 81,
    50, 73, 88, 117, 96, 103, 64, 81, 50, 97, 87, 81, 33, 113, 64, 33, 33, 107, 116, 107,
    44, 120, 64, 77, 36, 81, 107, 64, 51, 33, 46, 56, 40, 77, 36, 85, 33, 72, 35, 87,
    39, 79, 44, 63, 52, 109, 95, 102, 33, 55, 91, 105, 38, 110, 33, 58, 101, 88, 53, 103,
    104, 67, 107, 61, 62, 85, 81, 50, 81, 50, 85, 50, 68, 99, 62, 74, 33, 33, 38, 74,
    38, 98, 38, 107, 64, 74, 41, 76, 75, 103, 33, 71, 75, 33, 41, 55, 87, 107, 64, 39,
    56, 44, 77, 61, 85, 87, 67, 99, 102, 97, 91, 99, 38, 81, 50, 108, 96, 102, 52, 73,
    102, 40, 81, 50, 71, 91, 108, 64, 77, 83, 85, 81, 67, 33, 50, 33, 50, 99, 36, 81,
    58, 82, 87, 71, 79, 107, 64, 44, 91, 60, 50, 87, 102, 90, 81, 50, 85, 50, 68, 50,
    46, 108, 96, 97, 91, 101, 90, 55, 102, 40, 33, 50, 98, 50, 124, 64, 98, 36, 106, 33,
    62, 77, 83, 85, 81, 67, 99, 54, 91, 50, 87, 50, 81, 58, 82, 87, 71, 79, 107, 64,
    81, 50, 81, 50, 99, 36, 97, 91, 103, 42, 81, 108, 96, 55, 91, 38, 74, 38, 74, 107,
    36, 55, 91, 108, 96, 33, 81, 105, 36, 100, 94, 71, 87, 107, 64, 85, 50, 68, 50, 46,
    57, 40, 91, 36, 91, 35, 91, 39, 91, 44, 64, 60, 50, 87, 50, 107, 64, 33, 50, 33,
    50, 109, 36, 97, 91, 108, 96, 58, 94, 91, 97, 91, 97, 91, 84, 50, 84, 100, 126, 99,
    36, 107, 64, 100, 50, 58, 82, 91, 86, 91, 97, 64, 95, 98, 124, 111, 64, 44, 77, 61,
    85, 87, 67, 103, 90, 85, 58, 69, 87, 46, 79, 107, 64, 62, 91, 103, 60, 71, 91, 33,
    50, 33, 50, 100, 36, 107, 64, 85, 103, 64, 81, 50, 86, 50, 97, 50, 73, 87, 95, 33,
    87, 116, 96, 73, 104, 42, 113, 96, 33, 50, 62, 87, 81, 33, 81, 33, 99, 44, 71, 107,
    95, 33, 55, 91, 38, 74, 38, 74, 109, 36, 107, 64, 103, 116, 105, 36, 109, 96, 107, 58,
    85, 58, 69, 87, 46, 79, 40, 63, 115, 64, 84, 50, 84, 98, 36, 97, 91, 67, 87, 50,
    81, 107, 64, 77, 43, 85, 58, 94, 91, 71, 98, 88, 44, 77, 62, 85, 96, 91, 87, 67,
    79, 45, 108, 64, 39, 85, 44, 68, 60, 46, 87, 40, 79, 38, 74, 38, 74, 101, 36, 107,
    64, 97, 91, 81, 33, 85, 33, 93, 33, 71, 56, 46, 77, 40, 85, 36, 91, 33, 67, 97,
    91, 107, 64, 42, 81, 33, 81, 33, 108, 36, 98, 50, 109, 33, 43, 33, 58, 35, 87, 39,
    79, 44, 63, 52, 33, 49, 110, 59, 99, 96, 42, 33, 42, 33, 108, 36, 104, 96, 39, 56,
    44, 77, 61, 85, 87, 67, 79, 45, 112, 87, 122, 33, 97, 91, 105, 44, 35, 81, 39, 79,
    44, 63, 52, 126, 82, 62, 81, 81, 33, 81, 33, 97, 85, 81, 50, 81, 50, 81, 50, 97,
    87, 108, 61, 50, 33, 50, 33, 50, 62, 91, 101, 60, 99, 36, 71, 91, 112, 96, 100, 90,
    99, 72, 100, 64, 108, 96, 99, 122, 105, 124, 99, 36, 97, 108, 64, 105, 96, 98, 58, 91,
    33, 50, 85, 110, 96, 62, 56, 84, 74, 84, 74, 38, 74, 55, 91, 38, 98, 38, 101, 36,
    111, 96, 105, 126, 97, 87, 81, 33, 99, 40, 104, 100, 50, 33, 50, 33, 50, 62, 91, 103,
    64, 101, 36, 107, 93, 101, 112, 105, 124, 101, 48, 105, 33, 98, 112, 104, 40, 100, 36, 100,
    98, 71, 87, 104, 65, 50, 33, 50, 85, 50, 68, 50, 46, 57, 40, 91, 39, 91, 44, 64,
    60, 50, 87, 50, 107, 96, 42, 74, 42, 63, 42, 33, 42, 33, 107, 36, 111, 33, 59, 91,
    97, 91, 84, 50, 84, 50, 99, 36, 99, 126, 111, 64, 62, 91, 99, 54, 105, 36, 112, 64,
    85, 107, 62, 71, 87, 125, 96, 71, 91, 33, 50, 33, 50, 98, 36, 104, 33, 97, 108, 96,
    97, 87, 81, 33, 81, 33, 81, 112, 96, 102, 86, 108, 90, 102, 64, 85, 87, 98, 54, 62,
    101, 88, 58, 71, 87, 107, 60, 38, 74, 38, 74, 55, 91, 99, 38, 38, 74, 84, 74, 84,
    98, 36, 71, 63, 111, 96, 99, 126, 105, 36, 109, 96, 107, 64, 85, 58, 69, 87, 46, 79,
    40, 118, 96, 84, 50, 84, 98, 36, 97, 91, 70, 112, 96, 77, 43, 101, 90, 44, 77, 61,
    85, 87, 67, 79, 45, 117, 96, 81, 58, 82, 87, 71, 79, 46, 65, 40, 77, 36, 85, 33,
    67, 107, 64, 97, 91, 93, 33, 71, 56, 46, 77, 40, 85, 36, 91, 33, 67, 97, 91, 105,
    58, 55, 56, 38, 74, 38, 74, 99, 36, 37, 91, 103, 42, 55, 63, 101, 60, 103, 48, 119,
    36, 99, 68, 35, 105, 86, 65, 103, 42, 36, 91, 103, 126, 100, 66, 93, 78, 97, 97, 80,
    71, 102, 116, 126, 33, 102, 33, 55, 91, 46, 87, 40, 79,
];


fn picture(rows: &[u32], width: usize) -> Vec<String> {
    rows.iter()
        .map(|row| (0..width).map(|x| if (row >> x) & 1 != 0 { '#' } else { '.' }).collect())
        .collect()
}

#[test]
fn a_code_word_is_the_sum_of_the_differences_before_it() {
    // `!` is the word 0, `"` the word 1, and so on
    assert_eq!(decompress(&[5, 2, 10], b"!\"#$"), Some(vec![0, 5, 7, 17]));
    assert_eq!(decompress(&[5, 2, 10], b"$$!"), Some(vec![17, 17, 0]));
    assert_eq!(decompress(&[], b"!"), Some(vec![0]));
    assert_eq!(decompress(&[], b""), Some(vec![]));
}

#[test]
fn a_copy_takes_words_from_further_back() {
    // `b` copies three words, and `#` says from three words back
    assert_eq!(decompress(&[1, 1, 1], b"\"#$b#"), Some(vec![1, 2, 3, 1, 2, 3]));
    // a copy may reach into what it has copied itself
    assert_eq!(decompress(&[1, 1, 1], b"\"#c\""), Some(vec![1, 2, 1, 2, 1, 2]));
    assert_eq!(decompress(&[7], b"\"d!"), Some(vec![7, 7, 7, 7, 7, 7]));
}

#[test]
fn what_cannot_be_unpacked_is_no_font() {
    // a word that is not there
    assert_eq!(decompress(&[1], b"#"), None);
    // a copy from before the start
    assert_eq!(decompress(&[1], b"\"b#"), None);
    // a copy from nowhere
    assert_eq!(decompress(&[1], b"\"b "), None);
    // a copy without its distance
    assert_eq!(decompress(&[1], b"\"b"), None);
    // a byte that is no code
    assert_eq!(decompress(&[1], b"\" "), None);
    assert_eq!(decompress(&[1], b"\"\x7f"), None);
    // a word that 16 bits do not hold
    assert_eq!(decompress(&[65535, 1], b"!"), None);
    assert!(Font::new(&[1], b"\"\"\"").is_none());
}

#[test]
fn the_font_has_96_glyphs() {
    let glyphs = decompress(&FONT_DWORDS, &FONT_INDICES).unwrap();
    assert_eq!(glyphs.len(), 96 * 16 * 2);
    let font = Font::new(&FONT_DWORDS, &FONT_INDICES).unwrap();
    assert_eq!(font.glyphs, glyphs);
    assert!(font.pixels.is_empty());
}

#[test]
fn a_glyph_at_its_own_size_has_its_full_pixels() {
    let mut font = Font::new(&FONT_DWORDS, &FONT_INDICES).unwrap();
    font.create_zoomed_font(1);
    assert_eq!(font.pixels.len(), 2);
    assert!(font.pixels[0].is_empty());
    assert_eq!(font.pixels[1].len(), 96);
    assert_eq!(
        picture(&font.pixels[1][('A' as usize) - 32], 8),
        vec![
            "........", "........", "........", "....#...", "...###..", "..##.##.", ".##...##", ".##...##",
            ".##...##", ".#######", ".##...##", ".##...##", ".##...##", "........", "........", "........",
        ]
    );
    assert_eq!(font.pixels[1][95], vec![0, 0, 0, 0, 0, 0, 0, 0, 0, 0, 0, 0, 0, 126, 60, 24]);
}

#[test]
fn a_zoomed_glyph_has_smooth_slopes() {
    let mut font = Font::new(&FONT_DWORDS, &FONT_INDICES).unwrap();
    font.create_zoomed_font(2);
    assert_eq!(font.pixels.len(), 3);
    assert!(font.pixels[1].is_empty());
    assert_eq!(
        picture(&font.pixels[2][('A' as usize) - 32], 16),
        vec![
            "................",
            "................",
            "................",
            "................",
            "................",
            "................",
            "........##......",
            ".......####.....",
            "......######....",
            ".....########...",
            "....##########..",
            "...#####..#####.",
            "..#####....#####",
            "..####......####",
            "..####......####",
            "..####......####",
            "..####......####",
            "..####......####",
            "..##############",
            "..##############",
            "..####......####",
            "..####......####",
            "..####......####",
            "..####......####",
            "..####......####",
            "..####......####",
            "................",
            "................",
            "................",
            "................",
            "................",
            "................",
        ]
    );
}

#[test]
fn an_odd_zoom_fills_the_middle_of_a_full_pixel() {
    let mut font = Font::new(&FONT_DWORDS, &FONT_INDICES).unwrap();
    font.create_zoomed_font(3);
    let rows = picture(&font.pixels[3][('A' as usize) - 32], 24);
    assert_eq!(rows[27], "...#####################");
    assert_eq!(rows[28], "...#####################");
    assert_eq!(rows[29], "...#####################");
    assert_eq!(rows[16], ".....########.########..");
    assert_eq!(rows[9], "............###.........");
}

#[test]
fn a_zoom_is_made_once() {
    let mut font = Font::new(&FONT_DWORDS, &FONT_INDICES).unwrap();
    font.create_zoomed_font(2);
    let before = font.pixels.clone();
    font.create_zoomed_font(2);
    assert_eq!(font.pixels, before);
    font.create_zoomed_font(1);
    assert_eq!(font.pixels[2], before[2]);
    assert_eq!(font.pixels.len(), 3);
    assert_eq!(font.pixels[1].len(), 96);
}
