use angolmois::analyze::analyze_bms;
use angolmois::bms::Bms;
use angolmois::key::Key;
use angolmois::keyspec::key_spec_from_sides;
use angolmois::lane::Lane;
use angolmois::modf::{apply_mirror_modf, apply_modf, apply_random_modf, apply_shuffle_modf, shuffle, Modf};
use angolmois::obj::{Damage, Obj, ObjData, SoundRef, BPM};
use angolmois::ratio::Ratio;
use angolmois::rng::{Lcg, Rng};

fn r(n: i64, d: i64) -> Ratio {
    Ratio::new(n, d).unwrap()
}

fn at(t: Ratio, data: ObjData) -> Obj {
    Obj { time: t, data }
}

fn vis(t: i64, lane: usize) -> Obj {
    at(r(t, 1), ObjData::Visible(Lane(lane), Some(SoundRef(Key(lane as i64)))))
}

fn chart(objs: Vec<Obj>) -> Bms {
    let mut bms = Bms::new();
    bms.objs = objs;
    bms
}

fn lane_of(o: &Obj) -> Option<usize> {
    match o.data {
        ObjData::Visible(l, _)
        | ObjData::Invisible(l, _)
        | ObjData::LNStart(l, _)
        | ObjData::LNDone(l, _)
        | ObjData::Bomb(l, _, _) => Some(l.0),
        _ => None,
    }
}

#[test]
fn mirror_turns_the_lanes_around() {
    let mut bms = chart(vec![
        vis(1, 1),
        vis(1, 2),
        vis(2, 3),
        vis(2, 6),
        at(r(3, 1), ObjData::Bomb(Lane(1), None, Damage::InstantDeath)),
        at(r(3, 1), ObjData::BGM(SoundRef(Key(9)))),
        at(r(4, 1), ObjData::LNStart(Lane(3), None)),
        at(r(5, 1), ObjData::LNDone(Lane(3), None)),
        at(r(6, 1), ObjData::Invisible(Lane(200), None)),
    ]);
    apply_mirror_modf(&mut bms, &vec![Lane(1), Lane(2), Lane(3)]);
    assert_eq!(
        bms.objs,
        vec![
            at(r(1, 1), ObjData::Visible(Lane(3), Some(SoundRef(Key(1))))),
            at(r(1, 1), ObjData::Visible(Lane(2), Some(SoundRef(Key(2))))),
            at(r(2, 1), ObjData::Visible(Lane(1), Some(SoundRef(Key(3))))),
            vis(2, 6),
            at(r(3, 1), ObjData::Bomb(Lane(3), None, Damage::InstantDeath)),
            at(r(3, 1), ObjData::BGM(SoundRef(Key(9)))),
            at(r(4, 1), ObjData::LNStart(Lane(1), None)),
            at(r(5, 1), ObjData::LNDone(Lane(1), None)),
            at(r(6, 1), ObjData::Invisible(Lane(200), None)),
        ]
    );
}

#[test]
fn shuffle_keeps_what_it_shuffles() {
    let mut rng = Lcg::new(5);
    let mut seen_other_order = false;
    for _ in 0..20 {
        let mut v: Vec<Lane> = (0..7).map(Lane).collect();
        shuffle(&mut rng, &mut v);
        let mut sorted: Vec<usize> = v.iter().map(|l| l.0).collect();
        if sorted != (0..7).collect::<Vec<_>>() {
            seen_other_order = true;
        }
        sorted.sort();
        assert_eq!(sorted, (0..7).collect::<Vec<_>>());
    }
    assert!(seen_other_order);
    let mut one = vec![Lane(3)];
    shuffle(&mut rng, &mut one);
    assert_eq!(one, vec![Lane(3)]);
    let mut none: Vec<Lane> = vec![];
    shuffle(&mut rng, &mut none);
    assert!(none.is_empty());
}

#[test]
fn shuffle_modifier_moves_whole_lanes() {
    let objs: Vec<Obj> = (0..40).map(|i| vis(i, 1 + (i as usize * 7) % 5)).chain([vis(50, 9)]).collect();
    for seed in 0..20 {
        let mut bms = chart(objs.clone());
        apply_shuffle_modf(&mut bms, &mut Lcg::new(seed), &vec![Lane(1), Lane(2), Lane(3), Lane(4), Lane(5)]);
        let mut map = [None; 72];
        for (old, new) in objs.iter().zip(bms.objs.iter()) {
            assert_eq!(old.time, new.time);
            let (a, b) = (lane_of(old).unwrap(), lane_of(new).unwrap());
            assert!(map[a].is_none() || map[a] == Some(b));
            map[a] = Some(b);
        }
        assert_eq!(map[9], Some(9));
        let mut targets: Vec<usize> = (1..=5).map(|l| map[l].unwrap()).collect();
        targets.sort();
        assert_eq!(targets, vec![1, 2, 3, 4, 5]);
    }
}

#[test]
fn random_modifier_keeps_long_notes_in_their_lane() {
    let mut objs = Vec::new();
    for m in 0..30i64 {
        objs.push(at(r(4 * m, 4), ObjData::LNStart(Lane(1 + (m as usize % 3)), None)));
        objs.push(at(r(4 * m + 1, 4), ObjData::Visible(Lane(1 + ((m as usize + 1) % 3)), None)));
        objs.push(at(r(4 * m + 1, 4), ObjData::Visible(Lane(1 + ((m as usize + 2) % 3)), None)));
        objs.push(at(r(4 * m + 2, 4), ObjData::Visible(Lane(4), None)));
        objs.push(at(r(4 * m + 3, 4), ObjData::LNDone(Lane(1 + (m as usize % 3)), None)));
    }
    objs.push(vis(100, 9));
    let lanes = vec![Lane(1), Lane(2), Lane(3), Lane(4)];
    let mut moved_somewhere = false;
    for seed in 0..20 {
        let mut bms = chart(objs.clone());
        assert_eq!(apply_random_modf(&mut bms, &mut Lcg::new(seed), &lanes), Ok(()));
        assert_eq!(bms.objs.len(), objs.len());
        let mut open: Option<usize> = None;
        for (i, (old, new)) in objs.iter().zip(bms.objs.iter()).enumerate() {
            assert_eq!(old.time, new.time);
            assert_eq!(std::mem::discriminant(&old.data), std::mem::discriminant(&new.data));
            let lane = lane_of(new).unwrap();
            if lane_of(old) == Some(9) {
                assert_eq!(lane, 9);
                continue;
            }
            assert!((1..=4).contains(&lane));
            if lane != lane_of(old).unwrap() {
                moved_somewhere = true;
            }
            match new.data {
                ObjData::LNStart(..) => open = Some(lane),
                ObjData::LNDone(..) => {
                    // the end lies in the lane of the start
                    assert_eq!(open, Some(lane));
                    open = None;
                }
                _ => {
                    // nothing lands in a lane that holds a long note
                    assert_ne!(open, Some(lane));
                }
            }
            // two notes on one spot stay in two lanes
            if i > 0 && objs[i - 1].time == old.time {
                assert_ne!(lane_of(&bms.objs[i - 1]), Some(lane));
            }
        }
    }
    assert!(moved_somewhere);
}

#[test]
fn random_modifier_reports_positions_that_cannot_be_moved_on_from() {
    let objs = vec![vis(1, 1), at(r(i64::MAX, 1), ObjData::Visible(Lane(2), None))];
    let mut bms = chart(objs.clone());
    assert!(apply_random_modf(&mut bms, &mut Lcg::new(1), &vec![Lane(1), Lane(2)]).is_err());
    assert_eq!(bms.objs, objs);
}

#[test]
fn modifiers_take_the_lanes_of_the_key_spec() {
    let keyspec = key_spec_from_sides(1, b"16s 11a 12b 13a", b"").unwrap();
    let objs = vec![vis(1, 6), vis(1, 1), vis(1, 2), vis(1, 3), vis(1, 4)];
    let mut bms = chart(objs.clone());
    assert_eq!(apply_modf(&mut bms, Modf::MirrorModf, &mut Lcg::new(1), &keyspec, 0, 4), Ok(()));
    // the scratch does not count as a key and stays
    let lanes: Vec<usize> = bms.objs.iter().map(|o| lane_of(o).unwrap()).collect();
    assert_eq!(lanes, vec![6, 3, 2, 1, 4]);
    let mut bms = chart(objs.clone());
    assert_eq!(apply_modf(&mut bms, Modf::MirrorModf, &mut Lcg::new(1), &keyspec, 2, 4), Ok(()));
    let lanes: Vec<usize> = bms.objs.iter().map(|o| lane_of(o).unwrap()).collect();
    assert_eq!(lanes, vec![6, 1, 3, 2, 4]);
    for modf in [Modf::ShuffleModf, Modf::RandomModf] {
        for seed in 0..10 {
            let mut bms = chart(objs.clone());
            assert_eq!(apply_modf(&mut bms, modf, &mut Lcg::new(seed), &keyspec, 0, 4), Ok(()));
            let mut lanes: Vec<usize> = bms.objs.iter().map(|o| lane_of(o).unwrap()).collect();
            assert_eq!(lanes[0], 6);
            assert_eq!(lanes[4], 4);
            lanes.sort();
            assert_eq!(lanes, vec![1, 2, 3, 4, 6]);
        }
    }
    let mut scratch_moved = false;
    for modf in [Modf::ShuffleExModf, Modf::RandomExModf] {
        for seed in 0..20 {
            let mut bms = chart(objs.clone());
            assert_eq!(apply_modf(&mut bms, modf, &mut Lcg::new(seed), &keyspec, 0, 4), Ok(()));
            let mut lanes: Vec<usize> = bms.objs.iter().map(|o| lane_of(o).unwrap()).collect();
            scratch_moved |= lanes[0] != 6;
            assert_eq!(lanes[4], 4);
            lanes.sort();
            assert_eq!(lanes, vec![1, 2, 3, 4, 6]);
        }
    }
    assert!(scratch_moved);
}

#[test]
fn analysis_counts_notes_and_scores() {
    let mut bms = chart(vec![
        vis(1, 1),
        at(r(3, 2), ObjData::LNStart(Lane(2), None)),
        at(r(2, 1), ObjData::LNDone(Lane(2), None)),
        at(r(2, 1), ObjData::Invisible(Lane(1), None)),
        vis(3, 1),
    ]);
    let infos = analyze_bms(&bms);
    assert_eq!(infos.originoffset, 0);
    assert!(infos.haslongnote);
    assert!(!infos.hasbpmchange);
    assert_eq!(infos.nnotes, 3);
    // 300 + 400 + 500
    assert_eq!(infos.maxscore, 1200);
    bms.objs.insert(0, at(r(1, 2), ObjData::Visible(Lane(1), None)));
    bms.objs.push(at(r(4, 1), ObjData::SetBPM(BPM(r(100, 1)))));
    let infos = analyze_bms(&bms);
    assert_eq!(infos.originoffset, -1);
    assert!(infos.hasbpmchange);
    assert_eq!(infos.nnotes, 4);
    // 300 + 375 + 450 + 525
    assert_eq!(infos.maxscore, 1650);
    let infos = analyze_bms(&chart(vec![at(r(0, 1), ObjData::Invisible(Lane(1), None))]));
    assert_eq!((infos.originoffset, infos.nnotes, infos.maxscore), (0, 0, 0));
    assert!(!infos.haslongnote);
    // seven notes: thirds do not come out even
    let infos = analyze_bms(&chart((0..7).map(|i| vis(2 + i, 1)).collect()));
    assert_eq!(infos.maxscore, 300 + 342 + 385 + 428 + 471 + 514 + 557);
}

/// A source that hands out the numbers of a list, and keeps what it was
/// asked for.
#[derive(Clone)]
struct Listed {
    values: Vec<i64>,
    at: usize,
    asked: Vec<(i64, i64)>,
}

impl Rng for Listed {
    fn upcoming(&self, low: i64, high: i64) -> i64 {
        let v = self.values[self.at];
        assert!(low <= v && v < high);
        v
    }

    fn advanced(&self, low: i64, high: i64) -> Listed {
        let mut after = self.clone();
        after.asked.push((low, high));
        after.at += 1;
        after
    }

    fn gen_range(&mut self, low: i64, high: i64) -> i64 {
        let v = self.upcoming(low, high);
        *self = self.advanced(low, high);
        v
    }
}

fn listed(values: &[i64]) -> Listed {
    Listed { values: values.to_vec(), at: 0, asked: Vec::new() }
}

#[test]
fn shuffle_exchanges_each_place_with_the_place_that_is_drawn() {
    let mut rng = listed(&[0, 0, 0]);
    let mut lanes = vec![Lane(1), Lane(2), Lane(3), Lane(4)];
    shuffle(&mut rng, &mut lanes);
    assert_eq!(rng.asked, vec![(0, 4), (0, 3), (0, 2)]);
    assert_eq!(lanes, vec![Lane(2), Lane(3), Lane(4), Lane(1)]);

    let mut rng = listed(&[3, 2, 1]);
    let mut lanes = vec![Lane(1), Lane(2), Lane(3), Lane(4)];
    shuffle(&mut rng, &mut lanes);
    assert_eq!(lanes, vec![Lane(1), Lane(2), Lane(3), Lane(4)]);

    let mut rng = listed(&[1, 2, 0]);
    let mut lanes = vec![Lane(1), Lane(2), Lane(3), Lane(4)];
    shuffle(&mut rng, &mut lanes);
    // 4 and 2 change places, 3 stays, then 4 and 1 change places
    assert_eq!(lanes, vec![Lane(4), Lane(1), Lane(3), Lane(2)]);

    let mut rng = listed(&[]);
    let mut one = vec![Lane(7)];
    shuffle(&mut rng, &mut one);
    assert!(rng.asked.is_empty());
}

#[test]
fn the_shuffle_modifier_sends_each_lane_to_the_lane_at_its_place() {
    let mut bms = chart(vec![vis(0, 1), vis(1, 2), vis(2, 3), vis(3, 9)]);
    let mut rng = listed(&[0, 0]);
    apply_shuffle_modf(&mut bms, &mut rng, &vec![Lane(1), Lane(2), Lane(3)]);
    assert_eq!(rng.asked, vec![(0, 3), (0, 2)]);
    // the lanes 1, 2, 3 are put in the order 2, 3, 1
    let lanes: Vec<Option<usize>> = bms.objs.iter().map(lane_of).collect();
    assert_eq!(lanes, vec![Some(2), Some(3), Some(1), Some(9)]);
}

#[test]
fn the_random_modifier_draws_a_new_order_where_the_chart_has_moved_on() {
    // two objects at one position share an order; the third gets a new one
    let mut bms = chart(vec![vis(0, 1), vis(0, 2), vis(1, 1)]);
    let mut rng = listed(&[0, 1]);
    assert_eq!(apply_random_modf(&mut bms, &mut rng, &vec![Lane(1), Lane(2)]), Ok(()));
    assert_eq!(rng.asked, vec![(0, 2), (0, 2)]);
    let lanes: Vec<Option<usize>> = bms.objs.iter().map(lane_of).collect();
    // the first draw exchanges the two lanes, the second leaves them as they are
    assert_eq!(lanes, vec![Some(2), Some(1), Some(2)]);
}
