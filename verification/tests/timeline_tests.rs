use angolmois::bms::Bms;
use angolmois::ratio::Ratio;

fn r(n: i64, d: i64) -> Ratio {
    Ratio::new(n, d).unwrap()
}

fn chart(shortens: &[Ratio]) -> Bms {
    let mut bms = Bms::new();
    bms.shortens = shortens.to_vec();
    bms
}

#[test]
fn shorten_is_one_outside_of_the_list() {
    let bms = chart(&[r(1, 2), r(3, 2)]);
    assert_eq!(bms.shorten(-1), r(1, 1));
    assert_eq!(bms.shorten(0), r(1, 2));
    assert_eq!(bms.shorten(1), r(3, 2));
    assert_eq!(bms.shorten(2), r(1, 1));
    assert_eq!(bms.shorten(i64::MAX), r(1, 1));
    assert_eq!(bms.shorten(i64::MIN), r(1, 1));
}

#[test]
fn position_at_with_four_quarter_measures() {
    // the first four measures are scaled to a quarter each
    let q = r(1, 4);
    let bms = chart(&[q, q, q, q]);
    assert_eq!(bms.adjust_object_time(&r(0, 1), &r(2, 1)), Some(r(5, 1)));
    assert_eq!(bms.adjust_object_time(&r(0, 1), &r(1, 8)), Some(r(1, 2)));
    assert_eq!(bms.adjust_object_time(&r(0, 1), &r(1, 4)), Some(r(1, 1)));
    assert_eq!(bms.adjust_object_time(&r(1, 2), &r(1, 4)), Some(r(3, 2)));
    assert_eq!(bms.adjust_object_time(&r(7, 2), &r(1, 1)), Some(r(39, 8)));
    assert_eq!(bms.adjust_object_time(&r(10, 1), &r(5, 2)), Some(r(25, 2)));
    assert_eq!(bms.adjust_object_time(&r(-1, 1), &r(5, 4)), Some(r(1, 1)));
    assert_eq!(bms.adjust_object_time(&r(-3, 2), &r(1, 4)), Some(r(-5, 4)));
}

#[test]
fn distance_with_a_longer_first_measure() {
    // the measure #000 is scaled by 1.2
    let bms = chart(&[r(6, 5)]);
    assert_eq!(bms.adjust_object_position(&r(0, 1), &r(2, 1)), Some(r(11, 5)));
    assert_eq!(bms.adjust_object_position(&r(1, 2), &r(1, 1)), Some(r(3, 5)));
    assert_eq!(bms.adjust_object_position(&r(1, 2), &r(3, 4)), Some(r(3, 10)));
    assert_eq!(bms.adjust_object_position(&r(-1, 1), &r(1, 2)), Some(r(8, 5)));
    assert_eq!(bms.adjust_object_position(&r(3, 1), &r(3, 1)), Some(r(0, 1)));
    // backwards within a measure
    assert_eq!(bms.adjust_object_position(&r(3, 4), &r(1, 4)), Some(r(-3, 5)));
}

#[test]
fn position_at_zero_is_the_base() {
    let bms = chart(&[r(1, 3), r(7, 5), r(2, 1)]);
    for base in [r(-5, 3), r(0, 1), r(1, 3), r(1, 1), r(17, 7), r(100, 3)] {
        assert_eq!(bms.adjust_object_time(&base, &r(0, 1)), Some(base));
    }
}

#[test]
fn distance_to_position_at_is_the_distance() {
    let bms = chart(&[r(1, 3), r(7, 5), r(2, 1), r(1, 1000), r(5, 4)]);
    for base in [r(-5, 3), r(-1, 1), r(0, 1), r(1, 3), r(1, 1), r(17, 7), r(7, 2), r(100, 3)] {
        for d in [r(0, 1), r(1, 100), r(1, 3), r(1, 1), r(22, 7), r(10, 1), r(1001, 10)] {
            let p = bms.adjust_object_time(&base, &d).unwrap();
            assert!(base.le(&p));
            assert_eq!(bms.adjust_object_position(&base, &p), Some(d));
        }
    }
}

#[test]
fn what_cannot_be_represented_is_reported() {
    let bms = chart(&[r(1, i64::MAX)]);
    assert_eq!(bms.adjust_object_time(&r(0, 1), &r(1, i64::MAX - 1)), None);
    assert_eq!(bms.adjust_object_time(&r(i64::MAX, 1), &r(1, 1)), None);
    assert_eq!(bms.adjust_object_position(&r(1, 2), &r(1, 3)), None);
    let plain = chart(&[]);
    assert_eq!(plain.adjust_object_position(&r(i64::MAX, 2), &r(i64::MAX, 3)), Some(r(-1, 6)));
    assert_eq!(plain.adjust_object_position(&r(i64::MAX - 2, 1), &r(i64::MAX, 1)), Some(r(2, 1)));
}

#[test]
fn going_a_distance_and_measuring_it_gives_the_distance() {
    let bms = chart(&[r(1, 2), r(2, 1)]);
    let t = bms.adjust_object_time(&r(1, 2), &r(5, 4)).unwrap();
    assert_eq!(t, r(3, 2));
    assert_eq!(bms.adjust_object_position(&r(1, 2), &t), Some(r(5, 4)));
    for &base in &[r(0, 1), r(1, 2), r(7, 3), r(-5, 4), r(12, 1)] {
        assert_eq!(bms.adjust_object_time(&base, &r(0, 1)), Some(base));
    }
}
