use angolmois::rng::{Lcg, Rng};

#[test]
fn lcg_is_deterministic() {
    let mut a = Lcg::new(42);
    let mut b = Lcg::new(42);
    for _ in 0..100 {
        assert_eq!(a.gen_range(1, 7), b.gen_range(1, 7));
    }
}

#[test]
fn lcg_stays_in_range() {
    let mut a = Lcg::new(7);
    for _ in 0..1000 {
        let v = a.gen_range(-3, 4);
        assert!(-3 <= v && v < 4);
    }
    for _ in 0..100 {
        assert_eq!(a.gen_range(5, 6), 5);
    }
    let v = a.gen_range(i64::MIN, i64::MAX);
    assert!(v < i64::MAX);
}

#[test]
fn lcg_first_values() {
    let mut a = Lcg::new(0);
    let first = a.gen_range(0, 1 << 40);
    assert_eq!(a.state, 1442695040888963407u64);
    assert_eq!(first, ((1442695040888963407u64 >> 16) % (1u64 << 40)) as i64);
}
