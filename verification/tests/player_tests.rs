use std::rc::Rc;

use angolmois::analyze::analyze_bms;
use angolmois::bms::Bms;
use angolmois::grade::{grade_from_distance, weight_from_distance, Grade, Tally};
use angolmois::key::Key;
use angolmois::keyspec::key_spec_from_sides;
use angolmois::lane::Lane;
use angolmois::obj::{BGALayer, Damage, Duration, ImageRef, Obj, ObjData, SoundRef, BPM};
use angolmois::parse::parse_bms_from_reader;
use angolmois::player::{initial_bga_state, Action, InputState, Player, Status};
use angolmois::ratio::{Overflow, Ratio};
use angolmois::rng::Lcg;
use angolmois::sanitize::{compact_bms, sanitize_bms};

fn r(n: i64, d: i64) -> Ratio {
    Ratio::new(n, d).unwrap()
}

fn snd(k: i64) -> Option<SoundRef> {
    Some(SoundRef(Key(k)))
}

fn at(t: Ratio, data: ObjData) -> Obj {
    Obj { time: t, data }
}

fn load(text: &str, keys: &[u8]) -> Bms {
    let mut bms = parse_bms_from_reader(text.as_bytes(), &mut Lcg::new(1));
    sanitize_bms(&mut bms);
    let keyspec = key_spec_from_sides(bms.player, keys, b"").unwrap();
    compact_bms(&mut bms, &keyspec);
    bms
}

fn player_of(bms: Bms, autoplay: bool) -> Player {
    let infos = analyze_bms(&bms);
    Player::new(Rc::new(bms), infos.originoffset, infos.nnotes as i64, 0, autoplay).unwrap()
}

fn chart_of(objs: Vec<Obj>, bpm: i64) -> Bms {
    let mut bms = Bms::new();
    bms.initbpm = BPM(r(bpm, 1));
    bms.objs = objs;
    bms.nmeasures = 4;
    bms
}

/// One step: the time, the changes of keys, and the end of the step.
fn step(p: &mut Player, now: i64, keys: &[(usize, InputState)]) -> (Status, Vec<Action>) {
    let mut actions = Vec::new();
    p.advance(now, &mut actions).unwrap();
    for &(lane, state) in keys {
        p.key_event(Lane(lane), false, state, &mut actions).unwrap();
    }
    let status = p.finish(&mut actions).unwrap();
    (status, actions)
}

const DOWN: InputState = InputState::Positive;
const UP: InputState = InputState::Neutral;

// BPM 120: a measure takes two seconds. The note lies at the measure 1,
// that is at 2000 ms, in the lane 1.
const ONE_NOTE: &str = "#BPM 120\n#00111:01\n";

#[test]
fn single_note_chart_is_what_it_should_be() {
    let bms = load(ONE_NOTE, b"11a");
    assert_eq!(
        bms.objs,
        vec![
            at(r(0, 1), ObjData::SetBGA(BGALayer::PoorBGA, Some(ImageRef(Key(0))))),
            at(r(1, 1), ObjData::Visible(Lane(1), snd(1))),
        ]
    );
    let p = player_of(bms, false);
    assert_eq!(p.gradefactor, r(1, 1));
    assert_eq!(p.originoffset, 0);
    assert_eq!(p.tally, Tally::new(1));
    assert_eq!(p.tally.gauge, 256);
    assert_eq!(p.tally.survival, 150);
    assert_eq!(p.bga, initial_bga_state());
    assert_eq!(p.grades, vec![None, None]);
}

#[test]
fn key_within_10ms_gives_cool() {
    let mut p = player_of(load(ONE_NOTE, b"11a"), false);
    let (status, actions) = step(&mut p, 1990, &[(1, DOWN)]);
    assert_eq!(status, Status::Running);
    assert_eq!(p.bottom, r(199, 200));
    assert_eq!(actions, vec![Action::PlaySound(SoundRef(Key(1)), false)]);
    assert_eq!(p.grades, vec![None, Some(Grade::COOL)]);
    assert_eq!(p.nograding, vec![false, true]);
    assert_eq!(p.tally.cools, 1);
    assert_eq!(p.tally.lastgrade, Some((Grade::COOL, 1990)));
    assert_eq!(p.tally.lastcombo, 1);
    assert_eq!(p.tally.bestcombo, 1);
    // 300 * (1 - 10/144), in whole points
    assert_eq!(p.tally.score, 279);
    assert_eq!(p.tally.gauge, 259);
    // the note does not get a miss later on
    let (status, _) = step(&mut p, 2500, &[(1, UP)]);
    assert_eq!(status, Status::Running);
    assert_eq!(p.grades, vec![None, Some(Grade::COOL)]);
    assert_eq!(p.tally.misses, 0);
    assert_eq!(p.pcheck, 2);
}

#[test]
fn key_at_100ms_gives_bad() {
    let mut p = player_of(load(ONE_NOTE, b"11a"), false);
    step(&mut p, 1000, &[]);
    let (_, actions) = step(&mut p, 2100, &[(1, DOWN)]);
    assert_eq!(actions, vec![Action::PlaySound(SoundRef(Key(1)), false)]);
    assert_eq!(p.grades, vec![None, Some(Grade::BAD)]);
    assert_eq!(p.tally.bads, 1);
    assert_eq!(p.tally.lastcombo, 0);
    // 300 * (1 - 100/144), in whole points
    assert_eq!(p.tally.score, 91);
    // 3% of 512, in whole points, less
    assert_eq!(p.tally.gauge, 256 - 15);
    step(&mut p, 2300, &[(1, UP)]);
    assert_eq!(p.grades, vec![None, Some(Grade::BAD)]);
    assert_eq!(p.tally.misses, 0);
}

#[test]
fn key_at_200ms_gives_nothing_and_the_sweep_gives_miss() {
    let mut p = player_of(load(ONE_NOTE, b"11a"), false);
    let mut actions = Vec::new();
    p.advance(2200, &mut actions).unwrap();
    p.key_event(Lane(1), false, DOWN, &mut actions).unwrap();
    // the key sounds, but no grade is given
    assert_eq!(actions, vec![Action::PlaySound(SoundRef(Key(1)), false)]);
    assert_eq!(p.grades, vec![None, None]);
    assert_eq!(p.tally, Tally::new(1));
    // the note got away by more than the widest window
    assert_eq!(p.finish(&mut actions).unwrap(), Status::Running);
    assert_eq!(p.grades, vec![None, Some(Grade::MISS)]);
    assert_eq!(p.tally.misses, 1);
    assert_eq!(p.tally.lastgrade, Some((Grade::MISS, 2200)));
    // 5.9% of 512, in whole points, less
    assert_eq!(p.tally.gauge, 256 - 30);
    assert_eq!(p.tally.score, 0);
    assert_eq!(p.pcheck, 2);
    // and no second miss
    step(&mut p, 2400, &[(1, UP), (1, DOWN)]);
    assert_eq!(p.tally.misses, 1);
}

#[test]
fn a_note_is_not_swept_while_it_can_still_be_played() {
    let mut p = player_of(load(ONE_NOTE, b"11a"), false);
    step(&mut p, 2143, &[]);
    assert_eq!(p.grades, vec![None, None]);
    assert_eq!(p.pcheck, 1);
    step(&mut p, 2144, &[]);
    assert_eq!(p.grades, vec![None, Some(Grade::MISS)]);
}

#[test]
fn early_keys_are_graded_too() {
    let mut p = player_of(load(ONE_NOTE, b"11a"), false);
    step(&mut p, 1856, &[(1, DOWN), (1, UP)]);
    assert_eq!(p.grades, vec![None, None]);
    step(&mut p, 1857, &[(1, DOWN), (1, UP)]);
    assert_eq!(p.grades, vec![None, Some(Grade::BAD)]);
    // a second key on the same note does nothing
    step(&mut p, 2000, &[(1, DOWN), (1, UP)]);
    assert_eq!(p.tally.bads, 1);
    assert_eq!(p.tally.cools, 0);
}

#[test]
fn grade_windows() {
    let g = |n, d| grade_from_distance(&r(n, d)).unwrap();
    assert_eq!(g(0, 1), Grade::COOL);
    assert_eq!(g(143, 10), Grade::COOL);
    assert_eq!(g(-143, 10), Grade::COOL);
    assert_eq!(g(144, 10), Grade::GREAT);
    assert_eq!(g(479, 10), Grade::GREAT);
    assert_eq!(g(48, 1), Grade::GOOD);
    assert_eq!(g(-839, 10), Grade::GOOD);
    assert_eq!(g(84, 1), Grade::BAD);
    assert_eq!(g(1439, 10), Grade::BAD);
    assert_eq!(g(144, 1), Grade::MISS);
    assert_eq!(g(-1000, 1), Grade::MISS);
    assert_eq!(grade_from_distance(&r(i64::MIN, 1)), Err(Overflow));
    let w = |n, d| weight_from_distance(&r(n, d)).unwrap();
    assert_eq!(w(0, 1), r(1, 1));
    assert_eq!(w(72, 1), r(1, 2));
    assert_eq!(w(-36, 1), r(3, 4));
    assert_eq!(w(144, 1), r(0, 1));
    assert_eq!(w(500, 1), r(0, 1));
}

#[test]
fn tally_follows_the_grades() {
    let mut t = Tally::new(4);
    assert_eq!(t.update_grade(Grade::GREAT, &r(1, 1), None, 5), Ok(true));
    assert_eq!((t.greats, t.lastcombo, t.bestcombo, t.score, t.gauge), (1, 1, 1, 300, 258));
    // the combo counts for the score: 300 * (1 + 1/4)
    assert_eq!(t.update_grade(Grade::COOL, &r(1, 1), None, 6), Ok(true));
    assert_eq!((t.cools, t.lastcombo, t.bestcombo, t.score, t.gauge), (1, 2, 2, 675, 261));
    assert_eq!(t.update_grade(Grade::GOOD, &r(1, 2), None, 7), Ok(true));
    assert_eq!((t.goods, t.lastcombo, t.score, t.gauge), (1, 2, 675 + 225, 261));
    let bad = Damage::GaugeDamage(r(30, 1000));
    assert_eq!(t.update_grade(Grade::BAD, &r(1, 3), Some(bad), 8), Ok(true));
    assert_eq!((t.bads, t.lastcombo, t.bestcombo, t.score, t.gauge), (1, 0, 2, 900 + 150, 246));
    assert_eq!(t.update_grade(Grade::MISS, &r(0, 1), Some(Damage::InstantDeath), 9), Ok(false));
    assert_eq!((t.misses, t.gauge, t.lastgrade), (1, 0, Some((Grade::MISS, 9))));
    assert!(!t.cleared());
    assert_eq!(t.count(Grade::MISS), 1);
    assert_eq!(t.count(Grade::COOL), 1);
    // deadly damage leaves a gauge below zero as it is
    t.gauge = -7;
    assert_eq!(t.update_grade(Grade::MISS, &r(0, 1), Some(Damage::InstantDeath), 9), Ok(false));
    assert_eq!(t.gauge, -7);
}

#[test]
fn gauge_stops_at_its_top_and_the_combo_adds_to_it() {
    let mut t = Tally::new(1000);
    t.gauge = 510;
    t.lastcombo = 49;
    assert_eq!(t.update_grade(Grade::COOL, &r(0, 1), None, 0), Ok(true));
    assert_eq!(t.gauge, 512);
    t.gauge = 100;
    assert_eq!(t.update_grade(Grade::COOL, &r(0, 1), None, 0), Ok(true));
    // the combo was 50: three and one
    assert_eq!(t.gauge, 104);
    t.lastcombo = 250;
    assert_eq!(t.update_grade(Grade::GREAT, &r(0, 1), None, 0), Ok(true));
    // a combo above 100 counts as 100: two and two
    assert_eq!(t.gauge, 108);
    assert!(!t.cleared());
    t.gauge = 150;
    assert!(t.cleared());
    t.gauge = 149;
    assert!(!t.cleared());
}

#[test]
fn clock_follows_tempo_changes_and_stops() {
    let objs = vec![
        at(r(1, 1), ObjData::SetBPM(BPM(r(240, 1)))),
        at(r(2, 1), ObjData::Stop(Duration::Seconds(r(1, 1)))),
        at(r(3, 1), ObjData::Stop(Duration::Measures(r(1, 2)))),
    ];
    let mut p = player_of(chart_of(objs, 120), false);
    step(&mut p, 1000, &[]);
    assert_eq!(p.bottom, r(1, 2));
    step(&mut p, 2000, &[]);
    assert_eq!(p.bottom, r(1, 1));
    assert_eq!(p.clock.bpm, BPM(r(120, 1)));
    // the change of tempo lies behind; the clock reckons from it
    step(&mut p, 2001, &[]);
    assert_eq!(p.bottom, r(2001, 2000));
    assert_eq!(p.clock.bpm, BPM(r(240, 1)));
    assert_eq!(p.clock.starttime, 2000);
    assert_eq!(p.clock.startoffset, r(1, 1));
    step(&mut p, 2500, &[]);
    assert_eq!(p.bottom, r(3, 2));
    step(&mut p, 3000, &[]);
    assert_eq!(p.bottom, r(2, 1));
    assert_eq!(p.clock.stoptime, None);
    // the stop is met: a second long
    step(&mut p, 3100, &[]);
    assert_eq!(p.bottom, r(21, 10));
    assert_eq!(p.clock.stoptime, Some(4100));
    assert_eq!(p.clock.startoffset, r(2, 1));
    step(&mut p, 3500, &[]);
    assert_eq!(p.bottom, r(2, 1));
    step(&mut p, 4100, &[]);
    assert_eq!(p.bottom, r(2, 1));
    assert_eq!(p.clock.stoptime, None);
    assert_eq!(p.clock.starttime, 4100);
    step(&mut p, 4600, &[]);
    assert_eq!(p.bottom, r(5, 2));
    // half a measure of stop at 240 beats a minute: 500 ms
    step(&mut p, 5200, &[]);
    assert_eq!(p.bottom, r(31, 10));
    assert_eq!(p.clock.stoptime, Some(5700));
    step(&mut p, 5700, &[]);
    assert_eq!(p.bottom, r(3, 1));
    step(&mut p, 6200, &[]);
    assert_eq!(p.bottom, r(7, 2));
}

#[test]
fn clock_follows_the_scaling_of_measures() {
    let mut bms = chart_of(vec![], 120);
    bms.shortens = vec![r(1, 1), r(1, 2)];
    let mut p = player_of(bms, false);
    step(&mut p, 2000, &[]);
    assert_eq!(p.bottom, r(1, 1));
    assert_eq!(p.clock.startshorten, r(1, 2));
    assert_eq!(p.clock.starttime, 2000);
    // the measure 1 takes a second
    step(&mut p, 2500, &[]);
    assert_eq!(p.bottom, r(3, 2));
    assert_eq!(p.lineshorten, r(1, 2));
    step(&mut p, 3000, &[]);
    assert_eq!(p.bottom, r(2, 1));
    assert_eq!(p.clock.startshorten, r(1, 1));
    step(&mut p, 4000, &[]);
    assert_eq!(p.bottom, r(5, 2));
}

#[test]
fn effects_set_images_and_play_music() {
    let objs = vec![
        at(r(0, 1), ObjData::BGM(SoundRef(Key(5)))),
        at(r(0, 1), ObjData::BGM(SoundRef(Key(0)))),
        at(r(1, 2), ObjData::SetBGA(BGALayer::Layer1, Some(ImageRef(Key(7))))),
        at(r(1, 2), ObjData::SetBGA(BGALayer::PoorBGA, None)),
        at(r(1, 1), ObjData::BGM(SoundRef(Key(6)))),
    ];
    let mut p = player_of(chart_of(objs, 120), false);
    let (_, actions) = step(&mut p, 0, &[]);
    assert!(actions.is_empty());
    let (_, actions) = step(&mut p, 1, &[]);
    assert_eq!(actions, vec![Action::PlaySound(SoundRef(Key(5)), true)]);
    assert_eq!(p.pcur, 2);
    let (_, actions) = step(&mut p, 1500, &[]);
    assert!(actions.is_empty());
    assert_eq!(p.bga, vec![Some(ImageRef(Key(7))), None, None, None]);
    assert_eq!(p.pcur, 4);
    assert_eq!(p.pfront, 4);
    let (_, actions) = step(&mut p, 2500, &[]);
    assert_eq!(actions, vec![Action::PlaySound(SoundRef(Key(6)), true)]);
}

#[test]
fn long_note_held_to_its_end_is_passed_in_silence() {
    let objs = vec![at(r(1, 1), ObjData::LNStart(Lane(1), snd(1))), at(r(2, 1), ObjData::LNDone(Lane(1), snd(2)))];
    let mut p = player_of(chart_of(objs.clone(), 120), false);
    step(&mut p, 2010, &[(1, DOWN)]);
    assert_eq!(p.grades, vec![Some(Grade::COOL), None]);
    assert_eq!(p.pthru[1], Some(0));
    step(&mut p, 3000, &[]);
    assert_eq!(p.pthru[1], Some(0));
    step(&mut p, 4100, &[(1, UP)]);
    assert_eq!(p.grades, vec![Some(Grade::COOL), None]);
    assert_eq!(p.nograding, vec![true, true]);
    assert_eq!(p.pthru[1], None);
    step(&mut p, 4500, &[]);
    assert_eq!(p.tally.misses, 0);
    assert_eq!(p.tally.cools, 1);
}

#[test]
fn long_note_let_go_early_is_missed_once() {
    let objs = vec![at(r(1, 1), ObjData::LNStart(Lane(1), snd(1))), at(r(2, 1), ObjData::LNDone(Lane(1), snd(2)))];
    let mut p = player_of(chart_of(objs, 120), false);
    step(&mut p, 2000, &[(1, DOWN)]);
    step(&mut p, 3000, &[(1, UP)]);
    assert_eq!(p.grades, vec![Some(Grade::COOL), Some(Grade::MISS)]);
    assert_eq!(p.pthru[1], None);
    step(&mut p, 4500, &[]);
    assert_eq!(p.grades, vec![Some(Grade::COOL), Some(Grade::MISS)]);
    assert_eq!(p.tally.misses, 1);
}

#[test]
fn long_note_held_too_long_is_missed_by_the_sweep() {
    let objs = vec![at(r(1, 1), ObjData::LNStart(Lane(1), snd(1))), at(r(2, 1), ObjData::LNDone(Lane(1), snd(2)))];
    let mut p = player_of(chart_of(objs, 120), false);
    step(&mut p, 2000, &[(1, DOWN)]);
    step(&mut p, 4143, &[]);
    assert_eq!(p.grades, vec![Some(Grade::COOL), None]);
    step(&mut p, 4144, &[]);
    assert_eq!(p.grades, vec![Some(Grade::COOL), Some(Grade::MISS)]);
    assert_eq!(p.pthru[1], None);
    step(&mut p, 4300, &[(1, UP)]);
    assert_eq!(p.tally.misses, 1);
}

#[test]
fn long_note_that_was_missed_has_no_end_to_grade() {
    let objs = vec![at(r(1, 1), ObjData::LNStart(Lane(1), snd(1))), at(r(2, 1), ObjData::LNDone(Lane(1), snd(2)))];
    let mut p = player_of(chart_of(objs, 120), false);
    step(&mut p, 2500, &[]);
    assert_eq!(p.grades, vec![Some(Grade::MISS), None]);
    step(&mut p, 5000, &[]);
    assert_eq!(p.grades, vec![Some(Grade::MISS), None]);
    assert_eq!(p.tally.misses, 1);
    assert_eq!(p.pcheck, 2);
}

#[test]
fn bomb_goes_off_under_a_key_that_is_down() {
    let half = Damage::GaugeDamage(r(1, 2));
    let objs = vec![at(r(1, 1), ObjData::Bomb(Lane(1), snd(0), half)), at(r(2, 1), ObjData::Bomb(Lane(2), None, half))];
    let mut p = player_of(chart_of(objs, 120), false);
    let (_, actions) = step(&mut p, 1000, &[(1, DOWN)]);
    assert!(actions.is_empty());
    assert!(p.key_pressed(Lane(1)));
    assert!(!p.key_pressed(Lane(2)));
    let (status, actions) = step(&mut p, 2001, &[]);
    assert_eq!(status, Status::Running);
    assert_eq!(actions, vec![Action::PlaySound(SoundRef(Key(0)), false)]);
    assert_eq!(p.grades, vec![Some(Grade::MISS), None]);
    assert_eq!(p.tally.gauge, 0);
    assert_eq!(p.tally.misses, 1);
    // the other bomb passes a lane that is not held
    let (_, actions) = step(&mut p, 4001, &[]);
    assert!(actions.is_empty());
    assert_eq!(p.grades, vec![Some(Grade::MISS), None]);
    // and a bomb goes off only once
    step(&mut p, 4002, &[]);
    assert_eq!(p.tally.misses, 1);
}

#[test]
fn deadly_bomb_ends_the_play() {
    let objs = vec![
        at(r(1, 1), ObjData::Bomb(Lane(1), None, Damage::InstantDeath)),
        at(r(2, 1), ObjData::Visible(Lane(1), snd(1))),
    ];
    let mut p = player_of(chart_of(objs, 120), false);
    let (status, _) = step(&mut p, 2001, &[(1, DOWN)]);
    assert_eq!(status, Status::Died);
    assert_eq!(p.tally.gauge, 0);
    assert_eq!(p.pcur, 2);
    assert_eq!(p.grades, vec![Some(Grade::MISS), None]);
}

#[test]
fn autoplay_gives_the_best_grade_to_every_note() {
    let objs = vec![
        at(r(1, 1), ObjData::Visible(Lane(1), snd(1))),
        at(r(1, 1), ObjData::LNStart(Lane(2), snd(0))),
        at(r(3, 2), ObjData::Invisible(Lane(1), snd(3))),
        at(r(2, 1), ObjData::LNDone(Lane(2), snd(4))),
        at(r(2, 1), ObjData::Bomb(Lane(1), snd(5), Damage::InstantDeath)),
        at(r(2, 1), ObjData::Visible(Lane(3), None)),
    ];
    let mut p = player_of(chart_of(objs, 120), true);
    let (_, actions) = step(&mut p, 2001, &[(1, DOWN)]);
    assert_eq!(actions, vec![Action::PlaySound(SoundRef(Key(1)), false)]);
    assert_eq!(p.grades, vec![Some(Grade::COOL), Some(Grade::COOL), None, None, None, None]);
    let (status, actions) = step(&mut p, 4500, &[]);
    assert_eq!(status, Status::Running);
    assert!(actions.is_empty());
    assert_eq!(
        p.grades,
        vec![Some(Grade::COOL), Some(Grade::COOL), None, None, None, Some(Grade::COOL)]
    );
    assert_eq!(p.tally.cools, 3);
    assert_eq!(p.tally.lastcombo, 3);
    assert_eq!(p.tally.misses, 0);
    // 300 + 300 * (1 + 1/3) + 300 * (1 + 2/3)
    assert_eq!(p.tally.score, 1200);
    // keys change nothing
    assert!(!p.key_pressed(Lane(1)));
}

#[test]
fn the_play_ends_behind_the_last_measure_or_before_the_first() {
    let mut p = player_of(chart_of(vec![], 120), false);
    assert_eq!(step(&mut p, 10_000, &[]).0, Status::Running);
    assert_eq!(p.bottom, r(5, 1));
    assert_eq!(step(&mut p, 10_001, &[]).0, Status::Finished);
    let mut p = player_of(chart_of(vec![at(r(1, 1), ObjData::SetBPM(BPM(r(-120, 1))))], 120), false);
    assert_eq!(step(&mut p, 2001, &[]).0, Status::Running);
    assert_eq!(step(&mut p, 3000, &[]).0, Status::Running);
    assert_eq!(p.bottom, r(1, 2));
    assert_eq!(step(&mut p, 4000, &[]).0, Status::Running);
    assert_eq!(step(&mut p, 4002, &[]).0, Status::Rewound);
}

#[test]
fn rank_sets_the_width_of_the_windows() {
    let mut bms = load(ONE_NOTE, b"11a");
    bms.rank = 0;
    assert_eq!(player_of(bms.clone(), false).gradefactor, r(3, 2));
    bms.rank = 9;
    assert_eq!(player_of(bms.clone(), false).gradefactor, r(1, 4));
    bms.rank = 5;
    let mut p = player_of(bms.clone(), false);
    assert_eq!(p.gradefactor, r(1, 4));
    // 100 ms off count as 25
    step(&mut p, 2100, &[(1, DOWN)]);
    assert_eq!(p.grades, vec![None, Some(Grade::GREAT)]);
    bms.rank = i64::MIN + 5;
    assert!(Player::new(Rc::new(bms), 0, 1, 0, false).is_err());
}

#[test]
fn a_tempo_of_zero_cannot_be_played() {
    let objs = vec![at(r(0, 1), ObjData::Visible(Lane(1), None))];
    let mut p = player_of(chart_of(objs, 0), false);
    let mut actions = Vec::new();
    assert_eq!(p.advance(1000, &mut actions), Ok(()));
    assert_eq!(p.key_event(Lane(1), false, DOWN, &mut actions), Err(Overflow));
}

#[test]
fn keys_and_sticks_hold_a_lane_down() {
    let objs = vec![at(r(1, 1), ObjData::Visible(Lane(1), snd(1))), at(r(1, 1), ObjData::Visible(Lane(2), snd(2)))];
    let mut p = player_of(chart_of(objs, 120), false);
    let mut actions = Vec::new();
    p.advance(2000, &mut actions).unwrap();
    // two keys on one lane: the second press and the first release do nothing
    p.key_event(Lane(1), false, DOWN, &mut actions).unwrap();
    assert_eq!(actions.len(), 1);
    p.key_event(Lane(1), false, DOWN, &mut actions).unwrap();
    assert_eq!(actions.len(), 1);
    assert_eq!(p.keymultiplicity[1], 2);
    p.key_event(Lane(1), false, UP, &mut actions).unwrap();
    assert!(p.key_pressed(Lane(1)));
    p.key_event(Lane(1), false, UP, &mut actions).unwrap();
    assert!(!p.key_pressed(Lane(1)));
    p.key_event(Lane(1), false, UP, &mut actions).unwrap();
    assert_eq!(p.keymultiplicity[1], 0);
    // a stick that goes from one side to the other presses again
    p.key_event(Lane(2), true, InputState::Positive, &mut actions).unwrap();
    assert_eq!(actions.len(), 2);
    assert_eq!(p.grades, vec![Some(Grade::COOL), Some(Grade::COOL)]);
    p.key_event(Lane(2), true, InputState::Negative, &mut actions).unwrap();
    assert_eq!(actions.len(), 3);
    assert_eq!(p.joystate[2], InputState::Negative);
    assert!(p.key_pressed(Lane(2)));
    p.key_event(Lane(2), true, InputState::Neutral, &mut actions).unwrap();
    assert!(!p.key_pressed(Lane(2)));
    assert_eq!(p.tally.cools, 2);
}

#[test]
fn every_note_gets_exactly_one_grade() {
    // notes every quarter of a measure in three lanes, with long notes
    let text = "#BPM 150\n#00111:01020304\n#00112:00050006\n#00151:0000AA00\n#00251:00AA0000\n\
                #00211:0708090A\n#00213:0B0C0D0E\n#00311:0F0G0H0I\n#00352:BBBB\n#003D1:0100\n";
    let bms = load(text, b"11a 12b 13a");
    let notes: Vec<usize> = bms
        .objs
        .iter()
        .enumerate()
        .filter(|(_, o)| matches!(o.data, ObjData::Visible(..) | ObjData::LNStart(..)))
        .map(|(i, _)| i)
        .collect();
    assert!(notes.len() > 10);
    for seed in 0..50u64 {
        let mut p = player_of(bms.clone(), false);
        let mut state = seed.wrapping_mul(0x9e3779b97f4a7c15) | 1;
        let mut recorded: Vec<Option<Grade>> = vec![None; bms.objs.len()];
        let mut marked: Vec<bool> = vec![false; bms.objs.len()];
        let mut checked = 0;
        let mut now = 0;
        let mut status = Status::Running;
        while status == Status::Running && now < 20_000 {
            state = state.wrapping_mul(6364136223846793005).wrapping_add(1442695040888963407);
            now += 1 + ((state >> 33) % 90) as i64;
            let mut keys = Vec::new();
            if (state >> 20) % 3 == 0 {
                let lane = 1 + ((state >> 40) % 3) as usize;
                let s = if (state >> 50) % 2 == 0 { DOWN } else { UP };
                keys.push((lane, s));
            }
            status = step(&mut p, now, &keys).0;
            // a grade that was recorded never changes
            for i in 0..recorded.len() {
                if recorded[i].is_some() {
                    assert_eq!(p.grades[i], recorded[i]);
                }
            }
            recorded = p.grades.clone();
            // an object that was done with stays so, and the line behind
            // which all is graded does not go back
            for i in 0..marked.len() {
                assert!(!marked[i] || p.nograding[i]);
            }
            marked = p.nograding.clone();
            assert!(checked <= p.pcheck);
            checked = p.pcheck;
            // the grades are counted once for each object
            let t = p.tally;
            let counted = t.misses + t.bads + t.goods + t.greats + t.cools;
            assert_eq!(counted as usize, p.grades.iter().filter(|g| g.is_some()).count());
        }
        assert_eq!(status, Status::Finished);
        assert_eq!(p.pcheck, bms.objs.len());
        for &i in &notes {
            assert!(p.grades[i].is_some());
        }
        // every grade that was counted was recorded for an object
        let t = p.tally;
        let counted = t.misses + t.bads + t.goods + t.greats + t.cools;
        assert_eq!(counted as usize, p.grades.iter().filter(|g| g.is_some()).count());
    }
}
