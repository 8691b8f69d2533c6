use std::rc::Rc;

use angolmois::bms::Bms;
use angolmois::key::Key;
use angolmois::lane::Lane;
use angolmois::obj::{Obj, ObjData, ObjQueryOps, SoundRef};
use angolmois::pointer::Pointer;
use angolmois::ratio::{Overflow, Ratio};

fn r(n: i64, d: i64) -> Ratio {
    Ratio::new(n, d).unwrap()
}

fn chart() -> Rc<Bms> {
    let mut bms = Bms::new();
    bms.objs = vec![
        Obj { time: r(1, 1), data: ObjData::Visible(Lane(1), Some(SoundRef(Key(1)))) },
        Obj { time: r(1, 1), data: ObjData::BGM(SoundRef(Key(2))) },
        Obj { time: r(3, 2), data: ObjData::Visible(Lane(2), None) },
        Obj { time: r(2, 1), data: ObjData::Visible(Lane(1), Some(SoundRef(Key(3)))) },
        Obj { time: r(4, 1), data: ObjData::Invisible(Lane(1), None) },
    ];
    Rc::new(bms)
}

#[test]
fn a_new_pointer_reads_the_first_object() {
    let p = Pointer::new(chart());
    assert_eq!(p.pos, 0);
    assert_eq!(p.next, None);
    assert_eq!(p.time(), r(1, 1));
    assert_eq!(p.measure(), 1);
    assert_eq!(p.data(), ObjData::Visible(Lane(1), Some(SoundRef(Key(1)))));
    let q = Pointer::new_with_pos(chart(), 2);
    assert_eq!(q.time(), r(3, 2));
    assert_eq!(q.measure(), 1);
}

#[test]
fn seek_until_moves_forward_only_and_is_idempotent() {
    let mut p = Pointer::new(chart());
    p.seek_until(&r(1, 1));
    assert_eq!(p.pos, 0);
    p.seek_until(&r(3, 2));
    assert_eq!(p.pos, 2);
    p.seek_until(&r(3, 2));
    assert_eq!(p.pos, 2);
    p.seek_until(&r(1, 1));
    assert_eq!(p.pos, 2);
    p.seek_until(&r(100, 1));
    assert_eq!(p.pos, 5);
    p.seek_until(&r(100, 1));
    assert_eq!(p.pos, 5);
}

#[test]
fn next_until_looks_at_the_current_object_first() {
    let mut p = Pointer::new(chart());
    let limit = r(2, 1);
    let mut seen = Vec::new();
    while p.next_until(&limit) {
        seen.push(p.pos);
    }
    assert_eq!(seen, vec![0, 1, 2]);
    assert_eq!(p.pos, 3);
    assert_eq!(p.next, None);
    // the object at hand is seen again by another scan
    let mut seen = Vec::new();
    while p.next_until(&r(5, 1)) {
        seen.push(p.pos);
    }
    assert_eq!(seen, vec![3, 4]);
    assert_eq!(p.pos, 5);
    assert!(!p.next_until(&r(5, 1)));
}

#[test]
fn reset_forgets_the_step_that_is_due() {
    let mut p = Pointer::new(chart());
    assert!(p.next_until(&r(9, 1)));
    assert_eq!((p.pos, p.next), (0, Some(1)));
    p.reset();
    assert_eq!((p.pos, p.next), (0, None));
    assert!(p.next_until(&r(9, 1)));
    assert_eq!(p.pos, 0);
    assert!(p.next_until(&r(9, 1)));
    assert_eq!(p.pos, 1);
}

#[test]
fn next_to_stops_before_the_other_pointer() {
    let bms = chart();
    let mut p = Pointer::new(bms.clone());
    let limit = Pointer::new_with_pos(bms.clone(), 2);
    let mut seen = Vec::new();
    while p.next_to(&limit) {
        seen.push(p.pos);
    }
    assert_eq!(seen, vec![0, 1]);
    assert_eq!(p.pos, 2);
    assert!(p.same_pos(&limit));
    assert!(!p.before(&limit));
    assert!(Pointer::new(bms.clone()).before(&limit));
    let mut q = Pointer::new(bms.clone());
    q.seek_to(&limit);
    assert_eq!((q.pos, q.next), (2, None));
    let mut e = Pointer::new(bms.clone());
    let mut seen = Vec::new();
    while e.next_to_end() {
        seen.push(e.pos);
    }
    assert_eq!(seen, vec![0, 1, 2, 3, 4]);
    e.seek_to_end();
    assert_eq!(e.pos, 5);
    assert!(!e.next_to_end());
    let c = limit.clone();
    assert_eq!((c.pos, c.next), (2, None));
}

#[test]
fn finders_do_not_move_the_pointer() {
    let p = Pointer::new_with_pos(chart(), 2);
    let lane1 = |obj: &Obj| obj.object_lane() == Some(Lane(1));
    let next = p.find_next_of_type(lane1).unwrap();
    assert_eq!(next.pos, 3);
    let previous = p.find_previous_of_type(lane1).unwrap();
    assert_eq!(previous.pos, 0);
    assert_eq!(p.pos, 2);
    assert!(p.find_next_of_type(|obj: &Obj| obj.is_bomb()).is_none());
    assert!(p.find_previous_of_type(|obj: &Obj| obj.is_bomb()).is_none());
    // the object pointed at counts as next, not as previous
    assert_eq!(p.find_next_of_type(|obj: &Obj| obj.is_visible()).unwrap().pos, 2);
    assert_eq!(p.find_previous_of_type(|obj: &Obj| obj.is_bgm()).unwrap().pos, 1);
}

#[test]
fn closest_takes_the_nearer_and_the_later_on_a_tie() {
    let p = Pointer::new_with_pos(chart(), 3);
    let lane1 = |obj: &Obj| obj.object_lane() == Some(Lane(1)) && obj.is_visible();
    // previous at 1, next at 2
    assert_eq!(p.find_closest_of_type(&r(5, 4), lane1).unwrap().unwrap().pos, 0);
    assert_eq!(p.find_closest_of_type(&r(7, 4), lane1).unwrap().unwrap().pos, 3);
    assert_eq!(p.find_closest_of_type(&r(3, 2), lane1).unwrap().unwrap().pos, 3);
    assert_eq!(p.find_closest_of_type(&r(-9, 1), lane1).unwrap().unwrap().pos, 0);
    assert_eq!(p.find_closest_of_type(&r(9, 1), lane1).unwrap().unwrap().pos, 3);
    // only one of the two exists
    let first = Pointer::new(chart());
    assert_eq!(first.find_closest_of_type(&r(9, 1), lane1).unwrap().unwrap().pos, 0);
    let last = Pointer::new_with_pos(chart(), 5);
    assert_eq!(last.find_closest_of_type(&r(0, 1), lane1).unwrap().unwrap().pos, 3);
    assert!(p.find_closest_of_type(&r(0, 1), |obj: &Obj| obj.is_bomb()).unwrap().is_none());
    // a distance that cannot be represented
    assert_eq!(p.find_closest_of_type(&r(i64::MIN, 1), lane1).err(), Some(Overflow));
}

#[test]
fn a_pointer_behind_the_end_stays_where_it_is() {
    let mut p = Pointer::new_with_pos(chart(), 9);
    p.seek_until(&r(100, 1));
    assert_eq!(p.pos, 9);
    assert_eq!(p.next, None);
    assert!(!p.next_until(&r(100, 1)));
    assert_eq!(p.pos, 9);
    assert_eq!(p.next, None);
    assert!(!p.next_to_end());
    assert_eq!(p.pos, 9);
    assert!(p.find_next_of_type(|_| true).is_none());
    let end = Pointer::new_with_pos(chart(), 5);
    assert!(!p.next_to(&end));
    assert_eq!(p.pos, 9);
}
