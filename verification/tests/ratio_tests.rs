use angolmois::ratio::Ratio;

fn r(n: i64, d: i64) -> Ratio {
    Ratio::new(n, d).unwrap()
}

#[test]
fn ratio_is_kept_in_lowest_terms() {
    assert_eq!(r(2, 4), r(1, 2));
    assert_eq!(r(2, 4).parts(), (1, 2));
    assert_eq!(r(-6, -8).parts(), (3, 4));
    assert_eq!(r(6, -8).parts(), (-3, 4));
    assert_eq!(r(0, -5).parts(), (0, 1));
    assert_eq!(Ratio::from_int(7).parts(), (7, 1));
    assert_eq!(r(i64::MIN, 2).parts(), (i64::MIN / 2, 1));
}

#[test]
fn ratio_rejects_what_cannot_be_held() {
    assert_eq!(Ratio::new(1, 0), None);
    assert_eq!(Ratio::new(1, i64::MIN), None);
    assert_eq!(Ratio::new(i64::MIN, -1), None);
    assert!(Ratio::new(i64::MIN, 1).is_some());
    assert!(Ratio::new(i64::MIN, i64::MIN).is_some());
    assert_eq!(Ratio::new(i64::MIN, i64::MIN), Some(Ratio::from_int(1)));
}

#[test]
fn ratio_arithmetic_is_exact() {
    assert_eq!(r(1, 3).add(&r(1, 6)), Some(r(1, 2)));
    assert_eq!(r(1, 3).sub(&r(1, 2)), Some(r(-1, 6)));
    assert_eq!(r(2, 3).mul(&r(3, 4)), Some(r(1, 2)));
    assert_eq!(r(2, 3).div(&r(4, 9)), Some(r(3, 2)));
    assert_eq!(r(2, 3).div(&r(-4, 9)), Some(r(-3, 2)));
    assert_eq!(r(2, 3).div(&r(0, 1)), None);
    assert_eq!(r(-2, 3).neg(), Some(r(2, 3)));
    assert_eq!(r(-2, 3).abs(), Some(r(2, 3)));
    assert_eq!(r(2, 3).abs(), Some(r(2, 3)));
    assert_eq!(Ratio::from_int(i64::MIN).neg(), None);
    assert_eq!(Ratio::from_int(i64::MIN).abs(), None);
}

#[test]
fn ratio_overflow_is_reported() {
    let big = Ratio::from_int(i64::MAX);
    assert_eq!(big.add(&Ratio::from_int(1)), None);
    assert_eq!(big.mul(&Ratio::from_int(2)), None);
    assert_eq!(big.sub(&Ratio::from_int(-1)), None);
    let tiny = r(1, i64::MAX);
    assert_eq!(tiny.div(&Ratio::from_int(2)), None);
    assert_eq!(tiny.mul(&tiny), None);
    // a result that fits is found even if the way there is wide
    assert_eq!(big.mul(&tiny), Some(Ratio::from_int(1)));
    assert_eq!(r(i64::MAX, 3).add(&r(i64::MAX, 3)), None);
    assert_eq!(r(i64::MAX, 2).add(&r(-i64::MAX, 2)), Some(Ratio::from_int(0)));
}

#[test]
fn ratio_compares_by_value() {
    assert!(r(1, 3).lt(&r(1, 2)));
    assert!(!r(1, 2).lt(&r(1, 2)));
    assert!(r(1, 2).le(&r(1, 2)));
    assert!(r(-1, 2).lt(&r(-1, 3)));
    assert!(r(2, 4).same(&r(1, 2)));
    assert!(!r(2, 5).same(&r(1, 2)));
    assert!(r(0, 5).is_zero());
    assert!(r(-1, 5).is_negative());
    assert!(r(1, 5).is_positive());
    assert!(Ratio::from_int(i64::MIN).lt(&Ratio::from_int(i64::MAX)));
    assert!(r(i64::MAX - 1, i64::MAX).lt(&Ratio::from_int(1)));
}

#[test]
fn ratio_floor_rounds_down() {
    assert_eq!(r(7, 2).floor(), 3);
    assert_eq!(r(-7, 2).floor(), -4);
    assert_eq!(r(-8, 2).floor(), -4);
    assert_eq!(r(-1, 3).floor(), -1);
    assert_eq!(r(0, 3).floor(), 0);
    assert_eq!(r(1, 3).floor(), 0);
    assert_eq!(Ratio::from_int(i64::MIN).floor(), i64::MIN);
    assert_eq!(r(i64::MIN, 3).floor(), i64::MIN / 3 - 1);
    assert_eq!(Ratio::from_int(i64::MAX).floor(), i64::MAX);
}

#[test]
fn ratio_from_wide_reduces() {
    assert_eq!(Ratio::from_wide(1i128 << 100, 1i128 << 98), Some(Ratio::from_int(4)));
    assert_eq!(Ratio::from_wide(-(1i128 << 100), 1i128 << 101), Some(r(-1, 2)));
    assert_eq!(Ratio::from_wide(1i128 << 100, 3), None);
    assert_eq!(Ratio::from_wide(1, 1i128 << 100), None);
}
