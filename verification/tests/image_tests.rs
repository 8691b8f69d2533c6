use angolmois::image::{bicubic_interpolation, bicubic_kernel, Bitmap, Gradient};

#[test]
fn a_gradient_goes_evenly_from_one_colour_to_the_other() {
    let gray = Gradient::new((0, 255, 10), (255, 0, 20));
    assert_eq!(gray.blend(0, 5), (0, 255, 10));
    assert_eq!(gray.blend(5, 5), (255, 0, 20));
    assert_eq!(gray.blend(1, 2), (127, 128, 15));
    assert_eq!(Gradient::new((255, 0x80, 0), (0, 0x20, 0)).blend(1, 3), (170, 96, 0));
    assert_eq!(Gradient::new((0x80, 0, 0), (0x20, 0, 0)).blend(7, 16), (86, 0, 0));
}

#[test]
fn a_gradient_wraps_around_beyond_its_ends() {
    assert_eq!(Gradient::new((200, 0, 0), (100, 255, 0)).blend(3, 2), (50, 126, 0));
    assert_eq!(Gradient::new((0, 0, 0), (255, 0, 0)).blend(-1, 2), (129, 0, 0));
}

#[test]
fn the_kernel_is_one_in_the_middle_and_nothing_from_two_on() {
    let weights: Vec<i64> = (-9..10).map(|x| bicubic_kernel(x, 4)).collect();
    assert_eq!(
        weights,
        vec![0, 0, 64, -128, -64, 0, 320, 1152, 1728, 2048, 1728, 1152, 320, 0, -64, -128, 64, 0, 0]
    );
    assert_eq!(bicubic_kernel(0, 1), 2048);
    assert_eq!(bicubic_kernel(1, 1), 0);
    assert_eq!(bicubic_kernel(3, 2), 256);
    assert_eq!(bicubic_kernel(100, 799), 1973);
    assert_eq!(bicubic_kernel(-100, 799), 1973);
}

#[test]
fn an_image_of_one_colour_stays_of_that_colour() {
    let src = Bitmap { width: 1, height: 1, rgb: vec![(10, 20, 30)] };
    let scaled = bicubic_interpolation(&src, 2, 2);
    assert_eq!(scaled, Bitmap { width: 2, height: 2, rgb: vec![(10, 20, 30); 4] });
}

#[test]
fn a_scaled_image_keeps_its_corners() {
    let src = Bitmap { width: 2, height: 2, rgb: vec![(0, 0, 0), (255, 255, 255), (255, 0, 0), (0, 0, 255)] };
    let scaled = bicubic_interpolation(&src, 4, 3);
    assert_eq!(scaled.width, 4);
    assert_eq!(scaled.height, 3);
    assert_eq!(
        scaled.rgb,
        vec![
            (0, 0, 0),
            (84, 84, 84),
            (198, 198, 198),
            (255, 255, 255),
            (127, 0, 0),
            (141, 42, 84),
            (141, 99, 198),
            (127, 127, 255),
            (255, 0, 0),
            (198, 0, 84),
            (84, 0, 198),
            (0, 0, 255),
        ]
    );
}

#[test]
fn a_scaled_image_is_made_of_weighted_neighbours() {
    let rgb: Vec<(u8, u8, u8)> =
        (0..12u32).map(|i| ((i * 10 % 256) as u8, (i * 37 % 256) as u8, (i * 91 % 256) as u8)).collect();
    let src = Bitmap { width: 4, height: 3, rgb };
    let scaled = bicubic_interpolation(&src, 7, 5);
    assert_eq!(
        scaled.rgb,
        vec![
            (0, 0, 0),
            (5, 20, 49),
            (10, 37, 91),
            (16, 60, 147),
            (20, 74, 182),
            (27, 100, 107),
            (30, 111, 17),
            (17, 80, 47),
            (24, 108, 112),
            (28, 120, 159),
            (36, 151, 147),
            (38, 159, 112),
            (47, 115, 96),
            (49, 54, 65),
            (40, 148, 108),
            (48, 180, 166),
            (50, 185, 199),
            (59, 220, 126),
            (60, 222, 34),
            (70, 121, 86),
            (70, 3, 125),
            (67, 105, 182),
            (78, 135, 171),
            (78, 145, 134),
            (90, 178, 120),
            (88, 184, 87),
            (101, 142, 155),
            (99, 79, 200),
            (80, 40, 216),
            (92, 63, 144),
            (90, 77, 51),
            (102, 103, 104),
            (100, 114, 142),
            (113, 143, 203),
            (110, 151, 233),
        ]
    );
}
