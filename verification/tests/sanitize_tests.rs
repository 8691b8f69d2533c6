use angolmois::bms::Bms;
use angolmois::key::Key;
use angolmois::keyspec::key_spec_from_sides;
use angolmois::lane::Lane;
use angolmois::obj::{BGALayer, Damage, Duration, ImageRef, Obj, ObjData, SoundRef, BPM};
use angolmois::parse::parse_bms_from_reader;
use angolmois::ratio::Ratio;
use angolmois::rng::Lcg;
use angolmois::sanitize::{compact_bms, sanitize_bms, sanitize_objs, sort_objs};

fn r(n: i64, d: i64) -> Ratio {
    Ratio::new(n, d).unwrap()
}

fn s(k: i64) -> Option<SoundRef> {
    Some(SoundRef(Key(k)))
}

fn at(t: i64, data: ObjData) -> Obj {
    Obj { time: r(t, 1), data }
}

fn vis(t: i64, lane: usize, k: i64) -> Obj {
    at(t, ObjData::Visible(Lane(lane), s(k)))
}

fn inv(t: i64, lane: usize, k: i64) -> Obj {
    at(t, ObjData::Invisible(Lane(lane), s(k)))
}

fn start(t: i64, lane: usize, k: i64) -> Obj {
    at(t, ObjData::LNStart(Lane(lane), s(k)))
}

fn done(t: i64, lane: usize, k: i64) -> Obj {
    at(t, ObjData::LNDone(Lane(lane), s(k)))
}

fn bomb(t: i64, lane: usize) -> Obj {
    at(t, ObjData::Bomb(Lane(lane), s(0), Damage::InstantDeath))
}

fn bgm(t: i64, k: i64) -> Obj {
    at(t, ObjData::BGM(SoundRef(Key(k))))
}

fn gone(t: i64) -> Obj {
    at(t, ObjData::Deleted)
}

fn sanitized(mut objs: Vec<Obj>) -> Vec<Obj> {
    sanitize_objs(&mut objs);
    objs
}

fn check_laws(objs: &[Obj]) {
    // sorted by position
    for w in objs.windows(2) {
        assert!(w[0].time.le(&w[1].time));
    }
    // no lane holds two objects of one kind on one position
    for i in 0..objs.len() {
        for j in i + 1..objs.len() {
            if objs[i].time == objs[j].time
                && std::mem::discriminant(&objs[i].data) == std::mem::discriminant(&objs[j].data)
            {
                let lane = |o: &Obj| match o.data {
                    ObjData::Visible(l, _)
                    | ObjData::Invisible(l, _)
                    | ObjData::LNStart(l, _)
                    | ObjData::LNDone(l, _)
                    | ObjData::Bomb(l, _, _) => Some(l),
                    _ => None,
                };
                match (lane(&objs[i]), lane(&objs[j])) {
                    (Some(a), Some(b)) => assert_ne!(a, b),
                    _ => match (objs[i].data, objs[j].data) {
                        (ObjData::SetBGA(a, _), ObjData::SetBGA(b, _)) => assert_ne!(a, b),
                        (ObjData::SetBPM(_), _) | (ObjData::Stop(_), _) => {
                            panic!("two effects of one kind on one position")
                        }
                        _ => {}
                    },
                }
            }
        }
    }
    // starts and ends of long notes take turns, and none is left open
    for lane in 0..72 {
        let mut open = false;
        for o in objs {
            match o.data {
                ObjData::LNStart(l, _) if l.0 == lane => {
                    assert!(!open);
                    open = true;
                }
                ObjData::LNDone(l, _) if l.0 == lane => {
                    assert!(open);
                    open = false;
                }
                ObjData::Visible(l, _) | ObjData::Bomb(l, _, _) if l.0 == lane => assert!(!open),
                _ => {}
            }
        }
        assert!(!open);
    }
}

#[test]
fn sort_is_stable() {
    let mut objs = vec![vis(3, 1, 1), vis(1, 1, 2), vis(3, 2, 3), vis(1, 2, 4), vis(2, 1, 5), vis(1, 3, 6)];
    sort_objs(&mut objs);
    assert_eq!(objs, vec![vis(1, 1, 2), vis(1, 2, 4), vis(1, 3, 6), vis(2, 1, 5), vis(3, 1, 1), vis(3, 2, 3)]);
    let mut none: Vec<Obj> = vec![];
    sort_objs(&mut none);
    assert!(none.is_empty());
}

#[test]
fn second_object_of_a_kind_on_one_spot_is_demoted() {
    assert_eq!(
        sanitized(vec![vis(1, 1, 1), vis(1, 1, 2), vis(1, 2, 3), vis(2, 1, 4)]),
        vec![vis(1, 1, 1), bgm(1, 2), vis(1, 2, 3), vis(2, 1, 4)]
    );
    // an object without a sound leaves a placeholder
    assert_eq!(
        sanitized(vec![vis(1, 1, 1), at(1, ObjData::Visible(Lane(1), None))]),
        vec![vis(1, 1, 1), gone(1)]
    );
    // a bomb never leaves a sound
    assert_eq!(sanitized(vec![bomb(1, 1), bomb(1, 1)]), vec![bomb(1, 1), gone(1)]);
}

#[test]
fn only_the_kind_of_lowest_rank_stays_on_a_spot() {
    // a start outranks a visible note, and that an invisible note
    assert_eq!(
        sanitized(vec![vis(1, 1, 1), start(1, 1, 2), inv(1, 1, 3), done(2, 1, 4)]),
        vec![bgm(1, 1), start(1, 1, 2), bgm(1, 3), done(2, 1, 4)]
    );
    assert_eq!(sanitized(vec![inv(1, 1, 3), vis(1, 1, 1)]), vec![bgm(1, 3), vis(1, 1, 1)]);
    assert_eq!(sanitized(vec![bomb(1, 1), vis(1, 1, 1)]), vec![gone(1), vis(1, 1, 1)]);
    // but a bomb may stay with an invisible note
    assert_eq!(sanitized(vec![bomb(1, 1), inv(1, 1, 1)]), vec![bomb(1, 1), inv(1, 1, 1)]);
}

#[test]
fn both_ends_of_a_long_note_on_one_spot_cancel() {
    assert_eq!(
        sanitized(vec![start(1, 1, 1), done(1, 1, 2), vis(1, 1, 3)]),
        vec![bgm(1, 1), bgm(1, 2), vis(1, 1, 3)]
    );
    // also inside a long note, where the visible note may not stay either
    assert_eq!(
        sanitized(vec![start(1, 1, 1), start(2, 1, 2), done(2, 1, 3), vis(2, 1, 4), done(3, 1, 5)]),
        vec![start(1, 1, 1), bgm(2, 2), bgm(2, 3), bgm(2, 4), done(3, 1, 5)]
    );
}

#[test]
fn inside_a_long_note_nothing_else_is_played() {
    assert_eq!(
        sanitized(vec![start(1, 1, 1), vis(2, 1, 2), bomb(3, 1), start(4, 1, 3), inv(5, 1, 4), done(6, 1, 5)]),
        vec![start(1, 1, 1), bgm(2, 2), gone(3), bgm(4, 3), inv(5, 1, 4), done(6, 1, 5)]
    );
    // other lanes are not touched
    assert_eq!(
        sanitized(vec![start(1, 1, 1), vis(2, 2, 2), done(3, 1, 3)]),
        vec![start(1, 1, 1), vis(2, 2, 2), done(3, 1, 3)]
    );
}

#[test]
fn an_end_without_a_start_is_demoted() {
    assert_eq!(sanitized(vec![done(1, 1, 1), vis(2, 1, 2)]), vec![bgm(1, 1), vis(2, 1, 2)]);
    // an invisible note may not stand with an end of a long note
    assert_eq!(
        sanitized(vec![start(1, 1, 1), done(2, 1, 2), inv(2, 1, 3)]),
        vec![start(1, 1, 1), done(2, 1, 2), bgm(2, 3)]
    );
}

#[test]
fn a_long_note_left_open_loses_its_start() {
    assert_eq!(sanitized(vec![start(1, 1, 1)]), vec![bgm(1, 1)]);
    assert_eq!(
        sanitized(vec![start(1, 1, 1), done(2, 1, 2), start(3, 1, 3), inv(4, 1, 4)]),
        vec![start(1, 1, 1), done(2, 1, 2), bgm(3, 3), inv(4, 1, 4)]
    );
}

#[test]
fn effects_keep_the_first_of_each_kind() {
    let l1 = |t, k| at(t, ObjData::SetBGA(BGALayer::Layer1, Some(ImageRef(Key(k)))));
    let l2 = |t, k| at(t, ObjData::SetBGA(BGALayer::Layer2, Some(ImageRef(Key(k)))));
    let bpm = |t, b| at(t, ObjData::SetBPM(BPM(r(b, 1))));
    let stop = |t, d| at(t, ObjData::Stop(Duration::Seconds(r(d, 1))));
    assert_eq!(
        sanitized(vec![l1(1, 1), l2(1, 2), l1(1, 3), bpm(1, 100), bpm(1, 200), stop(1, 1), stop(1, 2), bpm(2, 300), bgm(1, 7), bgm(1, 7)]),
        vec![l1(1, 1), l2(1, 2), gone(1), bpm(1, 100), gone(1), stop(1, 1), gone(1), bgm(1, 7), bgm(1, 7), bpm(2, 300)]
    );
}

#[test]
fn sanitized_charts_obey_the_laws() {
    let mut seed = 1u64;
    for _ in 0..200 {
        let mut objs = Vec::new();
        for _ in 0..40 {
            seed = seed.wrapping_mul(6364136223846793005).wrapping_add(1442695040888963407);
            let t = ((seed >> 33) % 6) as i64;
            let lane = ((seed >> 40) % 3) as usize;
            let k = ((seed >> 45) % 4) as i64;
            objs.push(match (seed >> 50) % 8 {
                0 => vis(t, lane, k),
                1 => inv(t, lane, k),
                2 => start(t, lane, k),
                3 => done(t, lane, k),
                4 => bomb(t, lane),
                5 => at(t, ObjData::SetBPM(BPM(r(100 + k, 1)))),
                6 => at(t, ObjData::SetBGA(BGALayer::Layer3, None)),
                _ => bgm(t, k),
            });
        }
        let n = objs.len();
        let out = sanitized(objs);
        assert_eq!(out.len(), n);
        check_laws(&out);
    }
}

#[test]
fn sanitizing_a_parsed_chart() {
    let text = "#00111:0102\n#00111:0300\n#00151:5A\n#00251:5A\n#00212:01\n#00351:5B\n";
    let mut bms: Bms = parse_bms_from_reader(text.as_bytes(), &mut Lcg::new(1));
    sanitize_bms(&mut bms);
    check_laws(&bms.objs);
    let keyspec = key_spec_from_sides(1, b"11a 12b", b"").unwrap();
    compact_bms(&mut bms, &keyspec);
    assert!(bms.objs.iter().all(|o| o.data != ObjData::Deleted));
    check_laws(&bms.objs);
    assert_eq!(
        bms.objs,
        vec![
            at(0, ObjData::SetBGA(BGALayer::PoorBGA, Some(ImageRef(Key(0))))),
            // two visible notes and the start of a long note on one spot:
            // the start stays
            bgm(1, 1),
            bgm(1, 3),
            start(1, 1, 5 * 36 + 10),
            // a visible note inside the long note
            Obj { time: r(3, 2), data: ObjData::BGM(SoundRef(Key(2))) },
            vis(2, 2, 1),
            done(2, 1, 5 * 36 + 10),
            // the long note that the file leaves open ends behind the last
            // measure
            start(3, 1, 5 * 36 + 11),
            at(4, ObjData::LNDone(Lane(1), None)),
        ]
    );
}

#[test]
fn compacting_removes_lanes_that_are_not_played() {
    // the channel `11` feeds the lane 1
    let keyspec = key_spec_from_sides(1, b"11a", b"").unwrap();
    let mut bms = Bms::new();
    bms.objs = vec![vis(1, 1, 1), at(1, ObjData::Visible(Lane(0), None)), vis(2, 0, 2), gone(2), bomb(3, 0), bgm(4, 9), vis(5, 100, 3)];
    compact_bms(&mut bms, &keyspec);
    assert_eq!(bms.objs, vec![vis(1, 1, 1), bgm(2, 2), bgm(4, 9), bgm(5, 3)]);
}
