use angolmois::bms::{COUPLE_PLAY, SINGLE_PLAY};
use angolmois::keyspec::key_spec_from_sides;
use angolmois::lane::{KeyKind, Lane};
use angolmois::layout::{build_lane_styles, LaneStyle, TooManyLanes};

#[test]
fn the_looks_of_a_kind_are_its_row_of_the_table() {
    let style = LaneStyle::from_kind(KeyKind::Scratch, 100, false);
    assert_eq!(
        style,
        LaneStyle { left: 100, spriteleft: 320, spritebombleft: 280, width: 40, basecolor: (0xff, 0x80, 0x80) }
    );
    let style = LaneStyle::from_kind(KeyKind::Button2, 100, true);
    assert_eq!(
        style,
        LaneStyle { left: 70, spriteleft: 160, spritebombleft: 100, width: 30, basecolor: (0xff, 0xff, 0x40) }
    );
    let style = LaneStyle::from_kind(KeyKind::BlackKey, 25, true);
    assert_eq!(style.left, 0);
    assert_eq!(style.width, 25);
}

#[test]
fn seven_keys_and_a_scratch_are_lined_up_from_the_left() {
    let keyspec = key_spec_from_sides(SINGLE_PLAY, b"16s 11a 12b 13a 14b 15a 18b 19a", b"").unwrap();
    let (leftmost, rightmost, styles) = build_lane_styles(&keyspec).unwrap();
    assert_eq!(leftmost, 223);
    assert_eq!(rightmost, None);
    let lefts: Vec<usize> = styles.iter().map(|&(_, style)| style.left).collect();
    assert_eq!(lefts, vec![0, 41, 67, 93, 119, 145, 171, 197]);
    let lanes: Vec<Lane> = styles.iter().map(|&(lane, _)| lane).collect();
    assert_eq!(lanes, keyspec.order);
    assert_eq!(styles[0].1.width, 40);
    assert_eq!(styles[2].1.basecolor, (0x80, 0x80, 0xff));
}

#[test]
fn a_narrow_side_is_moved_towards_the_middle() {
    let keyspec = key_spec_from_sides(SINGLE_PLAY, b"11a", b"").unwrap();
    let (leftmost, rightmost, styles) = build_lane_styles(&keyspec).unwrap();
    assert_eq!(leftmost, 165);
    assert_eq!(rightmost, None);
    assert_eq!(styles.len(), 1);
    assert_eq!(styles[0].1.left, 69);
}

#[test]
fn the_right_side_is_lined_up_from_the_right() {
    let keyspec = key_spec_from_sides(COUPLE_PLAY, b"11a", b"21a 22b").unwrap();
    assert_eq!(keyspec.split, 1);
    let (leftmost, rightmost, styles) = build_lane_styles(&keyspec).unwrap();
    assert_eq!(leftmost, 165);
    assert_eq!(rightmost, Some(635));
    // before the move the lanes stand at 775 and 749, and the side begins at 748
    assert_eq!(styles[1].1.left, 775 - 56);
    assert_eq!(styles[2].1.left, 749 - 56);
}

#[test]
fn a_wide_right_side_stays_where_it_is() {
    let keyspec = key_spec_from_sides(COUPLE_PLAY, b"16s 11a 12b 13a 14b", b"21a 22b 23a 24b 25a 26s").unwrap();
    let (leftmost, rightmost, styles) = build_lane_styles(&keyspec).unwrap();
    assert_eq!(leftmost, 165);
    assert_eq!(rightmost, Some(800 - 5 * 26 - 41));
    assert_eq!(styles[0].1.left, 10);
    assert_eq!(styles[5].1.left, 775);
    assert_eq!(styles[10].1.left, 800 - 5 * 26 - 40);
}

#[test]
fn thirty_keys_fit_and_one_more_does_not() {
    let digits = b"123456789ABCDEFGHIJKLMNOPQRSTUV";
    let mut text = Vec::new();
    for &d in &digits[..30] {
        text.extend_from_slice(&[b'1', d, b'a']);
    }
    let keyspec = key_spec_from_sides(SINGLE_PLAY, &text, b"").unwrap();
    let (leftmost, _, styles) = build_lane_styles(&keyspec).unwrap();
    assert_eq!(leftmost, 780);
    assert_eq!(styles[29].1.left, 29 * 26);
    text.extend_from_slice(&[b'1', digits[30], b'a']);
    let keyspec = key_spec_from_sides(SINGLE_PLAY, &text, b"").unwrap();
    assert_eq!(build_lane_styles(&keyspec), Err(TooManyLanes));
}

#[test]
fn sides_that_come_too_close_do_not_fit() {
    let digits = b"123456789ABCDEFGHIJKLMNOPQRSTUV";
    let mut left = Vec::new();
    for &d in &digits[..20] {
        left.extend_from_slice(&[b'1', d, b'a']);
    }
    let mut right = Vec::new();
    for &d in &digits[..10] {
        right.extend_from_slice(&[b'2', d, b'a']);
    }
    // the left side takes 520, and before an eleventh lane of the right
    // side only 540 - 520 would be left between the sides
    let keyspec = key_spec_from_sides(COUPLE_PLAY, &left, &right[..27]).unwrap();
    assert!(build_lane_styles(&keyspec).is_ok());
    let keyspec = key_spec_from_sides(COUPLE_PLAY, &left, &right).unwrap();
    assert!(build_lane_styles(&keyspec).is_ok());
    let mut right = right;
    right.extend_from_slice(b"2Ba");
    let keyspec = key_spec_from_sides(COUPLE_PLAY, &left, &right).unwrap();
    assert_eq!(build_lane_styles(&keyspec), Err(TooManyLanes));
}
