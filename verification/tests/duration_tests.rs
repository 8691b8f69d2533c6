use angolmois::analyze::bms_duration;
use angolmois::bms::Bms;
use angolmois::key::Key;
use angolmois::lane::Lane;
use angolmois::obj::{Duration, Obj, ObjData, SoundRef, BPM};
use angolmois::ratio::{Overflow, Ratio};

fn r(n: i64, d: i64) -> Ratio {
    Ratio::new(n, d).unwrap()
}

fn at(t: Ratio, data: ObjData) -> Obj {
    Obj { time: t, data }
}

fn chart(objs: Vec<Obj>, bpm: i64, nmeasures: usize) -> Bms {
    let mut bms = Bms::new();
    bms.initbpm = BPM(r(bpm, 1));
    bms.objs = objs;
    bms.nmeasures = nmeasures;
    bms
}

fn lengths(pairs: &[(usize, Ratio)]) -> Vec<Ratio> {
    let mut v = vec![r(0, 1); 1296];
    for &(k, len) in pairs {
        v[k] = len;
    }
    v
}

#[test]
fn duration_runs_to_the_measure_after_the_last() {
    // two measures and one more, two seconds each
    let bms = chart(vec![], 120, 2);
    assert_eq!(bms_duration(&bms, &r(0, 1), &lengths(&[])), Ok(r(6, 1)));
    // from a measure earlier
    assert_eq!(bms_duration(&bms, &r(-1, 1), &lengths(&[])), Ok(r(8, 1)));
}

#[test]
fn duration_counts_the_tail_of_the_last_sound() {
    let objs = vec![
        at(r(1, 1), ObjData::BGM(SoundRef(Key(1)))),
        at(r(2, 1), ObjData::Visible(Lane(1), Some(SoundRef(Key(2))))),
        at(r(2, 1), ObjData::Invisible(Lane(1), Some(SoundRef(Key(3))))),
    ];
    let bms = chart(objs, 120, 2);
    // the sound 1 starts at 2 s and lasts 5 s
    assert_eq!(bms_duration(&bms, &r(0, 1), &lengths(&[(1, r(5, 1))])), Ok(r(7, 1)));
    // the sound 2 starts at 4 s and lasts 5/2 s
    assert_eq!(bms_duration(&bms, &r(0, 1), &lengths(&[(1, r(1, 1)), (2, r(5, 2))])), Ok(r(13, 2)));
    // the sound of an invisible note does not count
    assert_eq!(bms_duration(&bms, &r(0, 1), &lengths(&[(3, r(50, 1))])), Ok(r(6, 1)));
    // a list that does not reach a key holds nothing for it
    assert_eq!(bms_duration(&bms, &r(0, 1), &vec![]), Ok(r(6, 1)));
}

#[test]
fn duration_follows_tempo_scaling_and_stops() {
    let objs = vec![
        at(r(1, 1), ObjData::SetBPM(BPM(r(240, 1)))),
        at(r(2, 1), ObjData::Stop(Duration::Seconds(r(3, 2)))),
        at(r(2, 1), ObjData::Stop(Duration::Measures(r(1, 2)))),
        at(r(5, 2), ObjData::SetBPM(BPM(r(0, 1)))),
    ];
    let mut bms = chart(objs, 120, 3);
    // 2 s, then a measure of 1 s, then stops of 1.5 s and 0.5 s, then two
    // measures of 1 s
    assert_eq!(bms_duration(&bms, &r(0, 1), &lengths(&[])), Ok(r(7, 1)));
    // the measure 1 is half as long
    bms.shortens = vec![r(1, 1), r(1, 2)];
    assert_eq!(bms_duration(&bms, &r(0, 1), &lengths(&[])), Ok(r(13, 2)));
}

#[test]
fn duration_ends_where_the_chart_turns_back() {
    let objs = vec![
        at(r(1, 1), ObjData::BGM(SoundRef(Key(1)))),
        at(r(2, 1), ObjData::SetBPM(BPM(r(-60, 1)))),
        at(r(3, 1), ObjData::BGM(SoundRef(Key(2)))),
    ];
    let bms = chart(objs, 120, 8);
    // 4 s to the turn, and then the way from the start to the object before
    // the turn at 60 beats a minute: 4 s
    assert_eq!(bms_duration(&bms, &r(0, 1), &lengths(&[(2, r(100, 1))])), Ok(r(8, 1)));
}

#[test]
fn duration_that_cannot_be_reckoned() {
    let bms = chart(vec![], 0, 2);
    assert_eq!(bms_duration(&bms, &r(0, 1), &lengths(&[])), Ok(r(0, 1)));
    let bms = chart(vec![at(r(1, 1), ObjData::BGM(SoundRef(Key(1))))], 0, 2);
    assert_eq!(bms_duration(&bms, &r(0, 1), &lengths(&[])), Err(Overflow));
    let bms = chart(vec![at(r(1, 1), ObjData::BGM(SoundRef(Key(1))))], 120, 2);
    assert_eq!(bms_duration(&bms, &r(0, 1), &lengths(&[(1, r(i64::MAX, 1))])), Err(Overflow));
}
