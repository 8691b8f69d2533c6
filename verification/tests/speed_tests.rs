use angolmois::ratio::Ratio;
use angolmois::speed::{beep_samples, next_speed_mark, previous_speed_mark};

fn ratio(num: i64, den: i64) -> Ratio {
    Ratio::new(num, den).unwrap()
}

#[test]
fn the_speed_steps_from_mark_to_mark() {
    assert_eq!(next_speed_mark(&ratio(1, 1)), Some(ratio(8, 10)));
    assert_eq!(previous_speed_mark(&ratio(1, 1)), Some(ratio(12, 10)));
    assert_eq!(next_speed_mark(&ratio(99, 1)), Some(ratio(60, 1)));
    assert_eq!(previous_speed_mark(&ratio(60, 1)), Some(ratio(99, 1)));
    assert_eq!(previous_speed_mark(&ratio(1, 10)), Some(ratio(2, 10)));
    assert_eq!(next_speed_mark(&ratio(2, 10)), Some(ratio(1, 10)));
}

#[test]
fn a_speed_between_two_marks_steps_to_either() {
    assert_eq!(next_speed_mark(&ratio(13, 10)), Some(ratio(12, 10)));
    assert_eq!(previous_speed_mark(&ratio(13, 10)), Some(ratio(15, 10)));
}

#[test]
fn a_mark_within_a_thousandth_counts_as_the_speed() {
    assert_eq!(next_speed_mark(&ratio(10005, 10000)), Some(ratio(8, 10)));
    assert_eq!(next_speed_mark(&ratio(1001, 1000)), Some(ratio(8, 10)));
    assert_eq!(next_speed_mark(&ratio(10011, 10000)), Some(ratio(1, 1)));
    assert_eq!(previous_speed_mark(&ratio(9995, 10000)), Some(ratio(12, 10)));
    assert_eq!(previous_speed_mark(&ratio(999, 1000)), Some(ratio(12, 10)));
    assert_eq!(previous_speed_mark(&ratio(9989, 10000)), Some(ratio(1, 1)));
}

#[test]
fn there_is_no_step_beyond_the_marks() {
    assert_eq!(next_speed_mark(&ratio(1, 10)), None);
    assert_eq!(previous_speed_mark(&ratio(99, 1)), None);
    assert_eq!(next_speed_mark(&ratio(5, 100)), None);
    assert_eq!(previous_speed_mark(&ratio(200, 1)), None);
}

#[test]
fn a_speed_beyond_all_marks_steps_nowhere() {
    assert_eq!(next_speed_mark(&ratio(200, 1)), None);
    assert_eq!(previous_speed_mark(&ratio(5, 100)), None);
}

#[test]
fn the_beep_is_a_sawtooth_that_fades_out() {
    let samples = beep_samples();
    assert_eq!(samples.len(), 12000);
    assert_eq!(samples[0], -14 * 2000);
    assert_eq!(samples[13], -2000);
    assert_eq!(samples[14], 0);
    assert_eq!(samples[27], 13 * 2000);
    assert_eq!(samples[28], -14 * 2000);
    // from the sample 2000 on the loudness is (12000 - i)^2 / 50000
    assert_eq!(samples[2000], (2000 % 28 - 14) * 2000);
    assert_eq!(samples[7000], (7000 % 28 - 14) * 500);
    assert_eq!(samples[11999], 0);
    assert_eq!(samples[11000], (11000 % 28 - 14) * 20);
}
