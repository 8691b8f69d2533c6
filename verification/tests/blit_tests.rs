use angolmois::bms::{BlitArea, BlitCmd};
use angolmois::key::Key;
use angolmois::obj::ImageRef;

fn blit(x1: i64, y1: i64, x2: i64, y2: i64, dx: i64, dy: i64) -> BlitCmd {
    BlitCmd { dst: ImageRef(Key(1)), src: ImageRef(Key(2)), x1, y1, x2, y2, dx, dy }
}

#[test]
fn a_blit_command_copies_the_part_it_names() {
    assert_eq!(
        blit(10, 20, 110, 70, 5, 6).area(),
        Some(BlitArea { x: 10, y: 20, dx: 5, dy: 6, w: 100, h: 50 })
    );
}

#[test]
fn the_part_is_cut_to_the_size_of_an_image() {
    assert_eq!(
        blit(10, 20, 1000, 1000, 0, 0).area(),
        Some(BlitArea { x: 10, y: 20, dx: 0, dy: 0, w: 256, h: 256 })
    );
    assert_eq!(
        blit(i64::MAX - 10, 0, i64::MAX, 5, 0, 0).area(),
        Some(BlitArea { x: (i64::MAX - 10) as u64, y: 0, dx: 0, dy: 0, w: 10, h: 5 })
    );
}

#[test]
fn the_part_starts_within_the_image() {
    assert_eq!(
        blit(-10, -300, 100, 100, 0, 0).area(),
        None
    );
    assert_eq!(
        blit(-10, -200, 100, 100, 1, 2).area(),
        Some(BlitArea { x: 0, y: 0, dx: 1, dy: 2, w: 100, h: 56 })
    );
}

#[test]
fn an_empty_part_or_a_goal_before_the_image_copies_nothing() {
    assert_eq!(blit(10, 10, 10, 20, 0, 0).area(), None);
    assert_eq!(blit(10, 10, 20, 5, 0, 0).area(), None);
    assert_eq!(blit(0, 0, 10, 10, -1, 0).area(), None);
    assert_eq!(blit(0, 0, 10, 10, 0, -1).area(), None);
}
