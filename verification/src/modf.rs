//! Modifiers: playing a chart with its lanes in another order.
//!
//! A modifier moves the notes of some lanes to other lanes, and leaves
//! every note at its position. The mirror turns the order of the lanes
//! around; the shuffle puts the lanes in one random order; and the random
//! modifier draws a new order whenever the chart moves on, but keeps a
//! long note in the lane in which it started.

use vstd::prelude::*;
use crate::bms::{Bms, BmsModel};
use crate::keyspec::KeySpec;
use crate::lane::{Lane, NLANES};
use crate::obj::{Obj, ObjData};
use crate::ratio::{canonical, quot, representable, Overflow, Ratio};
use crate::rng::Rng;

verus! {

/// The modifiers.
#[derive(Clone, Copy, Debug, PartialEq, Eq, Structural)]
pub enum Modf {
    /// Turns the order of the lanes that count as keys around.
    MirrorModf,
    /// Puts the lanes that count as keys in a random order.
    ShuffleModf,
    /// Puts all lanes in a random order.
    ShuffleExModf,
    /// Puts the lanes that count as keys in a random order that changes as
    /// the chart moves on.
    RandomModf,
    /// Puts all lanes in a random order that changes as the chart moves on.
    RandomExModf,
}

/// The map that leaves every lane where it is.
pub open spec fn identity_map() -> Seq<Lane> {
    Seq::new(NLANES as nat, |i: int| Lane(i as usize))
}

/// The map `map`, but that each of the first `n` lanes of `from` goes to
/// the lane of `to` in the same place.
pub open spec fn remapped(map: Seq<Lane>, from: Seq<Lane>, to: Seq<Lane>, n: int) -> Seq<Lane>
    decreases n,
{
    if n <= 0 {
        map
    } else {
        remapped(map, from, to, n - 1).update(from[n - 1].0 as int, to[n - 1])
    }
}

/// The object in the lane that the map gives for its lane. An object
/// outside of the lanes stays as it is.
pub open spec fn moved(obj: Obj, map: Seq<Lane>) -> Obj {
    match obj.data.lane() {
        Some(lane) => if lane.0 < map.len() {
            Obj { time: obj.time, data: obj.data.in_lane(map[lane.0 as int]) }
        } else {
            obj
        },
        None => obj,
    }
}

/// The objects, each in the lane that the map gives for its lane.
pub open spec fn all_moved(objs: Seq<Obj>, map: Seq<Lane>) -> Seq<Obj> {
    Seq::new(objs.len(), |i: int| moved(objs[i], map))
}

/// Whether every lane of the list is one of the lanes of a chart.
pub open spec fn lanes_valid(lanes: Seq<Lane>) -> bool {
    forall|i: int| 0 <= i < lanes.len() ==> (#[trigger] lanes[i]).0 < NLANES
}

/// Whether `b` holds the lanes of `a`, each as often, in any order.
pub open spec fn same_lanes(a: Seq<Lane>, b: Seq<Lane>) -> bool {
    a.to_multiset() == b.to_multiset()
}

/// The map that leaves every lane where it is.
fn new_map() -> (r: Vec<Lane>)
    ensures
        r@ == identity_map(),
{
    let mut r: Vec<Lane> = Vec::new();
    let mut i: usize = 0;
    while i < NLANES
        invariant
            i <= NLANES,
            r@.len() == i,
            forall|j: int| 0 <= j < i ==> r@[j] == Lane(j as usize),
        decreases NLANES - i,
    {
        r.push(Lane(i));
        i += 1;
    }
    assert(r@ =~= identity_map());
    r
}

/// Sends each lane of `from` to the lane of `to` in the same place.
fn remap(map: &mut Vec<Lane>, from: &Vec<Lane>, to: &Vec<Lane>)
    requires
        old(map)@.len() == NLANES,
        from@.len() == to@.len(),
        lanes_valid(from@),
    ensures
        final(map)@ == remapped(old(map)@, from@, to@, from@.len() as int),
        final(map)@.len() == NLANES,
{
    let mut k: usize = 0;
    while k < from.len()
        invariant
            k <= from@.len() == to@.len(),
            map@.len() == NLANES,
            lanes_valid(from@),
            map@ == remapped(old(map)@, from@, to@, k as int),
        decreases from@.len() - k,
    {
        map[from[k].0] = to[k];
        k += 1;
    }
}

/// Moves the object to the lane that the map gives for its lane.
fn update_object_lane(obj: &mut Obj, map: &Vec<Lane>)
    ensures
        *final(obj) == moved(*old(obj), map@),
{
    obj.data = match obj.data {
        ObjData::Visible(lane, sref) => if lane.0 < map.len() {
            ObjData::Visible(map[lane.0], sref)
        } else {
            obj.data
        },
        ObjData::Invisible(lane, sref) => if lane.0 < map.len() {
            ObjData::Invisible(map[lane.0], sref)
        } else {
            obj.data
        },
        ObjData::LNStart(lane, sref) => if lane.0 < map.len() {
            ObjData::LNStart(map[lane.0], sref)
        } else {
            obj.data
        },
        ObjData::LNDone(lane, sref) => if lane.0 < map.len() {
            ObjData::LNDone(map[lane.0], sref)
        } else {
            obj.data
        },
        ObjData::Bomb(lane, sref, damage) => if lane.0 < map.len() {
            ObjData::Bomb(map[lane.0], sref, damage)
        } else {
            obj.data
        },
        other => other,
    };
}

/// Moves every object to the lane that the map gives for its lane.
fn move_all(objs: &mut Vec<Obj>, map: &Vec<Lane>)
    ensures
        final(objs)@ == all_moved(old(objs)@, map@),
{
    let mut i: usize = 0;
    while i < objs.len()
        invariant
            i <= objs@.len() == old(objs)@.len(),
            forall|j: int| 0 <= j < i ==> objs@[j] == moved(old(objs)@[j], map@),
            forall|j: int| i <= j < objs@.len() ==> objs@[j] == old(objs)@[j],
        decreases objs@.len() - i,
    {
        let mut obj = objs[i];
        update_object_lane(&mut obj, map);
        objs[i] = obj;
        i += 1;
    }
    assert(objs@ =~= all_moved(old(objs)@, map@));
}

/// The list in the reverse order.
fn reversed(lanes: &Vec<Lane>) -> (r: Vec<Lane>)
    ensures
        r@ == lanes@.reverse(),
{
    let mut r: Vec<Lane> = Vec::new();
    let mut i = lanes.len();
    while i > 0
        invariant
            i <= lanes@.len(),
            r@.len() == lanes@.len() - i,
            forall|j: int| 0 <= j < r@.len() ==> r@[j] == lanes@[lanes@.len() - 1 - j],
        decreases i,
    {
        i -= 1;
        r.push(lanes[i]);
    }
    assert(r@ =~= lanes@.reverse());
    r
}

/// What the source is asked for the place `k` of a list: a number from 0
/// up to this bound, which is `k + 1` unless that is out of range.
pub open spec fn pick_bound(k: int) -> i64 {
    if k >= 0x7fff_ffff_ffff_fffe {
        0x7fff_ffff_ffff_ffff
    } else {
        (k + 1) as i64
    }
}

/// The list with the lanes at the places `i` and `j` exchanged.
pub open spec fn swapped(values: Seq<Lane>, i: int, j: int) -> Seq<Lane> {
    values.update(i, values[j]).update(j, values[i])
}

/// The list whose first `n` places are put in a random order by the
/// source `r`, and the source after it: from the last of these places down
/// to the second, each place is exchanged with the place that the source
/// names, which is that place or one before it.
pub open spec fn shuffled_from<R: Rng>(values: Seq<Lane>, r: R, n: int) -> (Seq<Lane>, R)
    decreases n,
{
    if n < 2 {
        (values, r)
    } else {
        shuffled_from(
            swapped(values, n - 1, r.upcoming(0, pick_bound(n - 1)) as int),
            r.advanced(0, pick_bound(n - 1)),
            n - 1,
        )
    }
}

/// The list put in a random order by the source `r`, and the source after
/// it.
pub open spec fn shuffled<R: Rng>(values: Seq<Lane>, r: R) -> (Seq<Lane>, R) {
    shuffled_from(values, r, values.len() as int)
}

/// Puts the list in a random order: the order that the numbers of the
/// source give, which holds the same lanes.
pub fn shuffle<R: Rng>(r: &mut R, values: &mut Vec<Lane>)
    ensures
        final(values)@ == shuffled(old(values)@, *old(r)).0,
        *final(r) == shuffled(old(values)@, *old(r)).1,
        same_lanes(old(values)@, final(values)@),
        final(values)@.len() == old(values)@.len(),
{
    let mut i = values.len();
    while i >= 2
        invariant
            i <= values@.len() == old(values)@.len(),
            same_lanes(old(values)@, values@),
            shuffled(old(values)@, *old(r)) == shuffled_from(values@, *r, i as int),
        decreases i,
    {
        i -= 1;
        let wide = i as u64;
        let bound: i64 = if wide >= 0x7fff_ffff_ffff_fffe {
            0x7fff_ffff_ffff_ffff
        } else {
            (wide + 1) as i64
        };
        assert(bound == pick_bound(i as int));
        let j = r.gen_range(0, bound) as usize;
        let a = values[i];
        let b = values[j];
        let ghost before = values@;
        values[i] = b;
        values[j] = a;
        proof {
            let mid = before.update(i as int, b);
            vstd::seq_lib::to_multiset_update(before, i as int, b);
            vstd::seq_lib::to_multiset_update(mid, j as int, a);
            assert(values@ =~= mid.update(j as int, a));
            assert(values@ == swapped(before, i as int, j as int));
            vstd::seq_lib::to_multiset_contains(before, a);
            assert(values@.to_multiset() =~= before.to_multiset());
        }
    }
}

/// Turns the order of the lanes `lanes` around: the notes of the first go
/// to the last, and so on.
pub fn apply_mirror_modf(bms: &mut Bms, lanes: &Vec<Lane>)
    requires
        lanes_valid(lanes@),
    ensures
        final(bms)@ == (BmsModel {
            objs: all_moved(
                old(bms)@.objs,
                remapped(identity_map(), lanes@, lanes@.reverse(), lanes@.len() as int),
            ),
            ..old(bms)@
        }),
{
    let mut map = new_map();
    let targets = reversed(lanes);
    remap(&mut map, lanes, &targets);
    move_all(&mut bms.objs, &map);
}

/// Puts the lanes `lanes` in a random order: the notes of each lane go to
/// the lane that stands at its place once the source has put the lanes in
/// a random order, those of no two lanes to the same.
pub fn apply_shuffle_modf<R: Rng>(bms: &mut Bms, r: &mut R, lanes: &Vec<Lane>)
    requires
        lanes_valid(lanes@),
    ensures
        final(bms)@ == (BmsModel {
            objs: all_moved(
                old(bms)@.objs,
                remapped(identity_map(), lanes@, shuffled(lanes@, *old(r)).0, lanes@.len() as int),
            ),
            ..old(bms)@
        }),
        *final(r) == shuffled(lanes@, *old(r)).1,
        same_lanes(lanes@, shuffled(lanes@, *old(r)).0),
        shuffled(lanes@, *old(r)).0.len() == lanes@.len(),
{
    let mut targets = lanes.clone();
    assert(targets@ =~= lanes@);
    shuffle(r, &mut targets);
    let mut map = new_map();
    remap(&mut map, lanes, &targets);
    move_all(&mut bms.objs, &map);
}

/// The first index from `pos` on at which the lane stands in the list, or
/// the length of the list.
pub open spec fn index_of(lanes: Seq<Lane>, lane: Lane, pos: int) -> int
    decreases lanes.len() - pos,
{
    if 0 <= pos < lanes.len() && lanes[pos] != lane {
        index_of(lanes, lane, pos + 1)
    } else if pos < lanes.len() {
        pos
    } else {
        lanes.len() as int
    }
}

/// Whether the lane stands in the list.
pub open spec fn has_lane(lanes: Seq<Lane>, lane: Lane) -> bool {
    index_of(lanes, lane, 0) < lanes.len()
}

/// The list without the first place at which the lane stands.
pub open spec fn without(lanes: Seq<Lane>, lane: Lane) -> Seq<Lane> {
    if has_lane(lanes, lane) {
        lanes.remove(index_of(lanes, lane, 0))
    } else {
        lanes
    }
}

/// The lanes to which the map sends the lanes of the list.
pub open spec fn images(map: Seq<Lane>, lanes: Seq<Lane>) -> Seq<Lane> {
    Seq::new(lanes.len(), |k: int| map[lanes[k].0 as int])
}

/// How far the chart must move on before the lanes are put in a new
/// order: a ten-thousandth of a measure.
pub open spec fn reshuffle_step() -> real {
    quot(1, 10000)
}

/// The position up to which the order of the lanes stays behind the first
/// `n` objects, if one was drawn.
pub open spec fn settled_until(objs: Seq<Obj>, n: int) -> Option<Ratio>
    decreases n,
{
    if n <= 0 {
        None
    } else {
        let before = settled_until(objs, n - 1);
        if before matches Some(t) && !(t@ < objs[n - 1].time@) {
            before
        } else {
            Some(canonical(objs[n - 1].time@ + reshuffle_step()))
        }
    }
}

/// Whether a new order is drawn at the object with the index `i`: it is if
/// the object lies behind the position up to which the last order stays.
pub open spec fn reshuffles_at(objs: Seq<Obj>, i: int) -> bool {
    settled_until(objs, i) matches Some(t) ==> t@ < objs[i].time@
}

/// Whether every position up to which an order stays can be represented,
/// among the first `n` objects.
pub open spec fn random_fits(objs: Seq<Obj>, n: int) -> bool
    decreases n,
{
    n <= 0 || (random_fits(objs, n - 1) && (reshuffles_at(objs, n - 1) ==> representable(
        objs[n - 1].time@ + reshuffle_step(),
    )))
}

/// Where the lanes go, and which of them may go elsewhere.
pub struct Shuffler {
    /// The lane to which each lane goes.
    pub map: Seq<Lane>,
    /// The lanes that may go elsewhere: those that hold no long note.
    pub movable: Seq<Lane>,
}

/// The lanes that may go elsewhere from the object `obj` on: the start of
/// a long note takes its lane out.
pub open spec fn movable_at(movable: Seq<Lane>, obj: Obj) -> Seq<Lane> {
    if obj.data is LNStart {
        without(movable, obj.data.lane().unwrap())
    } else {
        movable
    }
}

/// Whether `order` may be drawn at the object with the index `i`: where a
/// new order is drawn there, it holds the lanes to which the movable lanes
/// went before.
pub open spec fn order_valid(st: Shuffler, objs: Seq<Obj>, i: int, order: Seq<Lane>) -> bool {
    reshuffles_at(objs, i) ==> order.len() == movable_at(st.movable, objs[i]).len() && same_lanes(
        images(st.map, movable_at(st.movable, objs[i])),
        order,
    )
}

/// The state behind the object with the index `i`, where `order` is the
/// order that is drawn there if one is. The end of a long note gives its
/// lane back, if it is one of `lanes`.
pub open spec fn shuffler_after(st: Shuffler, lanes: Seq<Lane>, objs: Seq<Obj>, i: int, order: Seq<
    Lane,
>) -> Shuffler {
    let obj = objs[i];
    let movable = movable_at(st.movable, obj);
    let map = if reshuffles_at(objs, i) {
        remapped(st.map, movable, order, movable.len() as int)
    } else {
        st.map
    };
    Shuffler {
        map,
        movable: if obj.data is LNDone && has_lane(lanes, obj.data.lane().unwrap()) && !has_lane(
            movable,
            obj.data.lane().unwrap(),
        ) {
            movable.push(obj.data.lane().unwrap())
        } else {
            movable
        },
    }
}

/// The state behind the first `n` objects, where `orders` holds, for each
/// object, the order that is drawn there if one is.
pub open spec fn shuffler_upto(lanes: Seq<Lane>, objs: Seq<Obj>, orders: Seq<Seq<Lane>>, n: int) -> Shuffler
    decreases n,
{
    if n <= 0 {
        Shuffler { map: identity_map(), movable: lanes }
    } else {
        shuffler_after(shuffler_upto(lanes, objs, orders, n - 1), lanes, objs, n - 1, orders[n - 1])
    }
}

/// Whether each of the first `n` orders may be drawn at its object.
pub open spec fn orders_valid(lanes: Seq<Lane>, objs: Seq<Obj>, orders: Seq<Seq<Lane>>, n: int) -> bool
    decreases n,
{
    n <= 0 || (orders_valid(lanes, objs, orders, n - 1) && order_valid(
        shuffler_upto(lanes, objs, orders, n - 1),
        objs,
        n - 1,
        orders[n - 1],
    ))
}

/// The orders that the source `r` draws at the first `n` objects, one for
/// each object, and the source after them. Where a new order is drawn at
/// an object, it is the lanes to which the movable lanes went before, put
/// in a random order by the source; an object at which none is drawn has
/// the empty order, and leaves the source as it is.
pub open spec fn orders_from<R: Rng>(lanes: Seq<Lane>, objs: Seq<Obj>, r: R, n: int) -> (Seq<Seq<Lane>>, R)
    decreases n,
{
    if n <= 0 {
        (Seq::empty(), r)
    } else {
        let (orders, src) = orders_from(lanes, objs, r, n - 1);
        if reshuffles_at(objs, n - 1) {
            let st = shuffler_upto(lanes, objs, orders, n - 1);
            let (order, after) = shuffled(images(st.map, movable_at(st.movable, objs[n - 1])), src);
            (orders.push(order), after)
        } else {
            (orders.push(Seq::empty()), src)
        }
    }
}

/// The objects after the random modifier, where `orders` holds, for each
/// object, the order that is drawn there if one is: each object goes where
/// the map sends its lane once the object is taken in.
pub open spec fn random_moved(lanes: Seq<Lane>, objs: Seq<Obj>, orders: Seq<Seq<Lane>>) -> Seq<Obj> {
    Seq::new(objs.len(), |i: int| moved(objs[i], shuffler_upto(lanes, objs, orders, i + 1).map))
}

/// The first index at which the lane stands in the list.
fn find_lane(lanes: &Vec<Lane>, lane: Lane) -> (r: usize)
    ensures
        r == index_of(lanes@, lane, 0),
        r <= lanes@.len(),
{
    let mut i: usize = 0;
    while i < lanes.len() && lanes[i].0 != lane.0
        invariant
            i <= lanes@.len(),
            index_of(lanes@, lane, i as int) == index_of(lanes@, lane, 0),
        decreases lanes@.len() - i,
    {
        i += 1;
    }
    i
}

/// The lanes to which the map sends the lanes of the list.
fn images_of(map: &Vec<Lane>, lanes: &Vec<Lane>) -> (r: Vec<Lane>)
    requires
        map@.len() == NLANES,
        lanes_valid(lanes@),
    ensures
        r@ == images(map@, lanes@),
{
    let mut r: Vec<Lane> = Vec::new();
    let mut k: usize = 0;
    while k < lanes.len()
        invariant
            k <= lanes@.len(),
            map@.len() == NLANES,
            lanes_valid(lanes@),
            r@.len() == k,
            forall|j: int| 0 <= j < k ==> r@[j] == map@[lanes@[j].0 as int],
        decreases lanes@.len() - k,
    {
        r.push(map[lanes[k].0]);
        k += 1;
    }
    assert(r@ =~= images(map@, lanes@));
    r
}

/// Removing a lane or adding one of the lanes of a chart leaves lanes of
/// the chart.
pub proof fn lemma_without_valid(lanes: Seq<Lane>, lane: Lane)
    requires
        lanes_valid(lanes),
    ensures
        lanes_valid(without(lanes, lane)),
{
    if has_lane(lanes, lane) {
        let idx = index_of(lanes, lane, 0);
        lemma_index_of(lanes, lane, 0);
        let r = lanes.remove(idx);
        assert forall|i: int| 0 <= i < r.len() implies (#[trigger] r[i]).0 < NLANES by {
            if i < idx {
                assert(r[i] == lanes[i]);
            } else {
                assert(r[i] == lanes[i + 1]);
            }
        }
    }
}

pub proof fn lemma_index_of(lanes: Seq<Lane>, lane: Lane, pos: int)
    requires
        0 <= pos <= lanes.len(),
    ensures
        pos <= index_of(lanes, lane, pos) <= lanes.len(),
        index_of(lanes, lane, pos) < lanes.len() ==> lanes[index_of(lanes, lane, pos)] == lane,
    decreases lanes.len() - pos,
{
    if pos < lanes.len() && lanes[pos] != lane {
        lemma_index_of(lanes, lane, pos + 1);
    }
}

/// Puts the lanes `lanes` in a random order that changes as the chart
/// moves on: a new order is drawn at every object that lies more than a
/// ten-thousandth of a measure behind the object at which the last was
/// drawn. A lane that holds a long note keeps, from the start of the long
/// note to its end, the lane to which it went, and the other lanes share
/// the rest among them. `Err`, with the chart unchanged, where a position
/// up to which an order stays cannot be represented; the source has then
/// given the orders up to that object.
pub fn apply_random_modf<R: Rng>(bms: &mut Bms, r: &mut R, lanes: &Vec<Lane>) -> (res: Result<
    (),
    Overflow,
>)
    requires
        lanes_valid(lanes@),
    ensures
        res is Ok <==> random_fits(old(bms)@.objs, old(bms)@.objs.len() as int),
        res is Ok ==> final(bms)@ == (BmsModel {
            objs: random_moved(
                lanes@,
                old(bms)@.objs,
                orders_from(lanes@, old(bms)@.objs, *old(r), old(bms)@.objs.len() as int).0,
            ),
            ..old(bms)@
        }),
        res is Ok ==> *final(r) == orders_from(
            lanes@,
            old(bms)@.objs,
            *old(r),
            old(bms)@.objs.len() as int,
        ).1,
        res is Ok ==> orders_valid(
            lanes@,
            old(bms)@.objs,
            orders_from(lanes@, old(bms)@.objs, *old(r), old(bms)@.objs.len() as int).0,
            old(bms)@.objs.len() as int,
        ),
        res is Err ==> final(bms)@ == old(bms)@,
        res is Err ==> exists|k: int|
            0 <= k < old(bms)@.objs.len() && random_fits(old(bms)@.objs, k) && !random_fits(
                old(bms)@.objs,
                k + 1,
            ) && *final(r) == (#[trigger] orders_from(lanes@, old(bms)@.objs, *old(r), k)).1,
{
    let mut movable = lanes.clone();
    assert(movable@ =~= lanes@);
    let mut map = new_map();
    let mut lasttime: Option<Ratio> = None;
    let mut done: Vec<Obj> = Vec::new();
    let ghost mut orders: Seq<Seq<Lane>> = Seq::empty();
    proof {
        crate::replay::lemma_representable(1, 10000);
    }
    let step = match Ratio::new(1, 10000) {
        Some(x) => x,
        None => {
            return Err(Overflow);
        },
    };
    let mut i: usize = 0;
    while i < bms.objs.len()
        invariant
            i <= bms.objs@.len(),
            *bms == *old(bms),
            step@ == reshuffle_step(),
            lanes_valid(lanes@),
            lanes_valid(movable@),
            map@.len() == NLANES,
            orders.len() == i,
            (orders, *r) == orders_from(lanes@, bms.objs@, *old(r), i as int),
            done@.len() == i,
            lasttime == settled_until(bms.objs@, i as int),
            random_fits(bms.objs@, i as int),
            orders_valid(lanes@, bms.objs@, orders, i as int),
            shuffler_upto(lanes@, bms.objs@, orders, i as int) == (Shuffler {
                map: map@,
                movable: movable@,
            }),
            forall|j: int|
                0 <= j < i ==> done@[j] == moved(
                    bms.objs@[j],
                    shuffler_upto(lanes@, bms.objs@, orders, j + 1).map,
                ),
        decreases bms.objs@.len() - i,
    {
        let mut obj = bms.objs[i];
        let ghost before = Shuffler { map: map@, movable: movable@ };
        match obj.data {
            ObjData::LNStart(lane, _) => {
                let idx = find_lane(&movable, lane);
                proof {
                    lemma_without_valid(movable@, lane);
                }
                if idx < movable.len() {
                    movable.remove(idx);
                }
            },
            _ => {},
        }
        assert(movable@ == movable_at(before.movable, obj));
        let reshuffle = match lasttime {
            Some(t) => t.lt(&obj.time),
            None => true,
        };
        let ghost order: Seq<Lane> = Seq::empty();
        let ghost mut order = order;
        if reshuffle {
            lasttime = match obj.time.add(&step) {
                Some(x) => Some(x),
                None => {
                    proof {
                        lemma_random_fits_prefix(bms.objs@, i + 1, bms.objs@.len() as int);
                        assert(*r == orders_from(lanes@, bms.objs@, *old(r), i as int).1);
                    }
                    return Err(Overflow);
                },
            };
            let mut targets = images_of(&map, &movable);
            shuffle(r, &mut targets);
            proof {
                order = targets@;
            }
            remap(&mut map, &movable, &targets);
        }
        update_object_lane(&mut obj, &map);
        match bms.objs[i].data {
            ObjData::LNDone(lane, _) => {
                if find_lane(lanes, lane) < lanes.len() && find_lane(&movable, lane)
                    >= movable.len() {
                    proof {
                        lemma_index_of(lanes@, lane, 0);
                    }
                    movable.push(lane);
                }
            },
            _ => {},
        }
        proof {
            let grown = orders.push(order);
            assert((grown, *r) == orders_from(lanes@, bms.objs@, *old(r), i + 1));
            lemma_orders_prefix(lanes@, bms.objs@, orders, grown, i as int);
            assert(shuffler_upto(lanes@, bms.objs@, grown, i as int) == before);
            assert(grown[i as int] == order);
            assert(shuffler_upto(lanes@, bms.objs@, grown, i + 1) == (Shuffler {
                map: map@,
                movable: movable@,
            }));
            assert forall|j: int| 0 <= j < i implies done@[j] == moved(
                bms.objs@[j],
                shuffler_upto(lanes@, bms.objs@, grown, j + 1).map,
            ) by {
                lemma_orders_prefix(lanes@, bms.objs@, orders, grown, j + 1);
            }
            orders = grown;
        }
        done.push(obj);
        i += 1;
    }
    proof {
        assert(done@ =~= random_moved(lanes@, bms.objs@, orders));
    }
    bms.objs = done;
    Ok(())
}

/// What is drawn later changes nothing before.
pub proof fn lemma_orders_prefix(lanes: Seq<Lane>, objs: Seq<Obj>, a: Seq<Seq<Lane>>, b: Seq<Seq<Lane>>, n: int)
    requires
        0 <= n <= a.len() <= b.len(),
        forall|k: int| 0 <= k < a.len() ==> a[k] == b[k],
    ensures
        shuffler_upto(lanes, objs, a, n) == shuffler_upto(lanes, objs, b, n),
        orders_valid(lanes, objs, a, n) == orders_valid(lanes, objs, b, n),
    decreases n,
{
    if n > 0 {
        lemma_orders_prefix(lanes, objs, a, b, n - 1);
    }
}

/// Where a position cannot be represented, it cannot later on either.
pub proof fn lemma_random_fits_prefix(objs: Seq<Obj>, n: int, m: int)
    requires
        0 <= n <= m,
        !random_fits(objs, n),
    ensures
        !random_fits(objs, m),
    decreases m - n,
{
    if n < m {
        lemma_random_fits_prefix(objs, n, m - 1);
    }
}

/// The lanes that a modifier moves, of the lanes from the place `begin` up
/// to the place `end` of the order of a key specification: those that count
/// as keys, or all of them where `all` is set.
pub open spec fn chosen_lanes(keyspec: KeySpec, all: bool, begin: int, end: int) -> Seq<Lane>
    decreases end - begin,
{
    if end <= begin {
        Seq::empty()
    } else {
        let lane = keyspec.order@[end - 1];
        let rest = chosen_lanes(keyspec, all, begin, end - 1);
        if all || (keyspec.kinds@[lane.0 as int] matches Some(kind) && kind != crate::lane::KeyKind::Scratch
            && kind != crate::lane::KeyKind::FootPedal) {
            rest.push(lane)
        } else {
            rest
        }
    }
}

/// Whether the modifier moves all lanes, and not only those that count as
/// keys.
pub open spec fn moves_all(modf: Modf) -> bool {
    modf == Modf::ShuffleExModf || modf == Modf::RandomExModf
}

/// Applies a modifier to the lanes of the key specification from the
/// place `begin` up to the place `end` of its order: to those that count
/// as keys, or to all where the modifier asks for it. Each side of a
/// couple play takes a call of its own.
pub fn apply_modf<R: Rng>(bms: &mut Bms, modf: Modf, r: &mut R, keyspec: &KeySpec, begin: usize, end: usize) -> (res:
    Result<(), Overflow>)
    requires
        begin <= end <= keyspec.order@.len(),
        keyspec.kinds@.len() == NLANES,
        forall|i: int| 0 <= i < keyspec.order@.len() ==> (#[trigger] keyspec.order@[i]).0 < NLANES,
    ensures
        ({
            let lanes = chosen_lanes(*keyspec, moves_all(modf), begin as int, end as int);
            match modf {
                Modf::MirrorModf => res is Ok && *final(r) == *old(r) && final(bms)@ == (BmsModel {
                    objs: all_moved(
                        old(bms)@.objs,
                        remapped(identity_map(), lanes, lanes.reverse(), lanes.len() as int),
                    ),
                    ..old(bms)@
                }),
                Modf::ShuffleModf | Modf::ShuffleExModf => res is Ok && *final(r) == shuffled(
                    lanes,
                    *old(r),
                ).1 && same_lanes(lanes, shuffled(lanes, *old(r)).0) && final(bms)@ == (BmsModel {
                    objs: all_moved(
                        old(bms)@.objs,
                        remapped(
                            identity_map(),
                            lanes,
                            shuffled(lanes, *old(r)).0,
                            lanes.len() as int,
                        ),
                    ),
                    ..old(bms)@
                }),
                Modf::RandomModf | Modf::RandomExModf => {
                    let drawn = orders_from(lanes, old(bms)@.objs, *old(r), old(bms)@.objs.len() as int);
                    &&& res is Ok <==> random_fits(old(bms)@.objs, old(bms)@.objs.len() as int)
                    &&& res is Ok ==> *final(r) == drawn.1 && orders_valid(
                        lanes,
                        old(bms)@.objs,
                        drawn.0,
                        old(bms)@.objs.len() as int,
                    ) && final(bms)@ == (BmsModel {
                        objs: random_moved(lanes, old(bms)@.objs, drawn.0),
                        ..old(bms)@
                    })
                    &&& res is Err ==> final(bms)@ == old(bms)@
                },
            }
        }),
{
    let mut lanes: Vec<Lane> = Vec::new();
    let all = matches!(modf, Modf::ShuffleExModf | Modf::RandomExModf);
    let mut i = begin;
    while i < end
        invariant
            begin <= i <= end <= keyspec.order@.len(),
            keyspec.kinds@.len() == NLANES,
            all == moves_all(modf),
            forall|k: int|
                0 <= k < keyspec.order@.len() ==> (#[trigger] keyspec.order@[k]).0 < NLANES,
            lanes_valid(lanes@),
            lanes@ == chosen_lanes(*keyspec, all, begin as int, i as int),
        decreases end - i,
    {
        let lane = keyspec.order[i];
        let counts = match keyspec.kinds[lane.0] {
            Some(kind) => kind.counts_as_key(),
            None => false,
        };
        if all || counts {
            lanes.push(lane);
        }
        i += 1;
    }
    match modf {
        Modf::MirrorModf => {
            apply_mirror_modf(bms, &lanes);
            Ok(())
        },
        Modf::ShuffleModf | Modf::ShuffleExModf => {
            apply_shuffle_modf(bms, r, &lanes);
            Ok(())
        },
        Modf::RandomModf | Modf::RandomExModf => apply_random_modf(bms, r, &lanes),
    }
}

/// A lane stands in a list exactly if it stands at some place of it.
pub proof fn lemma_has_lane(lanes: Seq<Lane>, lane: Lane)
    ensures
        has_lane(lanes, lane) <==> lanes.contains(lane),
{
    lemma_index_of(lanes, lane, 0);
    if lanes.contains(lane) {
        let k = choose|k: int| 0 <= k < lanes.len() && lanes[k] == lane;
        lemma_index_of_before(lanes, lane, 0, k);
    }
}

/// The first place of a lane lies at or before any place of it.
pub proof fn lemma_index_of_before(lanes: Seq<Lane>, lane: Lane, pos: int, k: int)
    requires
        0 <= pos <= k < lanes.len(),
        lanes[k] == lane,
    ensures
        index_of(lanes, lane, pos) <= k,
    decreases k - pos,
{
    if lanes[pos] != lane {
        lemma_index_of_before(lanes, lane, pos + 1, k);
    }
}

/// Taking a lane out of a list in which no lane stands twice leaves a list
/// without that lane, in which no lane stands twice and no lane is new.
pub proof fn lemma_without(lanes: Seq<Lane>, lane: Lane)
    requires
        lanes.no_duplicates(),
    ensures
        without(lanes, lane).no_duplicates(),
        !has_lane(without(lanes, lane), lane),
        forall|other: Lane| !has_lane(lanes, other) ==> !has_lane(without(lanes, lane), other),
{
    let r = without(lanes, lane);
    lemma_index_of(lanes, lane, 0);
    lemma_has_lane(lanes, lane);
    lemma_has_lane(r, lane);
    if has_lane(lanes, lane) {
        let idx = index_of(lanes, lane, 0);
        assert forall|a: int, b: int| 0 <= a < r.len() && 0 <= b < r.len() && a != b implies r[a]
            != r[b] by {
            let a0 = if a < idx { a } else { a + 1 };
            let b0 = if b < idx { b } else { b + 1 };
            assert(r[a] == lanes[a0] && r[b] == lanes[b0]);
        }
        if r.contains(lane) {
            let k = choose|k: int| 0 <= k < r.len() && r[k] == lane;
            let k0 = if k < idx { k } else { k + 1 };
            assert(r[k] == lanes[k0]);
            assert(lanes[idx] == lanes[k0]);
        }
    }
    assert forall|other: Lane| !has_lane(lanes, other) implies !has_lane(r, other) by {
        lemma_has_lane(lanes, other);
        lemma_has_lane(r, other);
        if r.contains(other) && has_lane(lanes, lane) {
            let idx = index_of(lanes, lane, 0);
            let k = choose|k: int| 0 <= k < r.len() && r[k] == other;
            let k0 = if k < idx { k } else { k + 1 };
            assert(r[k] == lanes[k0]);
        }
    }
}

/// A lane that is not sent anywhere stays where the map had it.
pub proof fn lemma_remapped_frame(map: Seq<Lane>, from: Seq<Lane>, to: Seq<Lane>, n: int, lane: int)
    requires
        map.len() == NLANES,
        0 <= n <= from.len(),
        lanes_valid(from),
        0 <= lane < NLANES,
        !from.contains(Lane(lane as usize)),
    ensures
        remapped(map, from, to, n).len() == NLANES,
        remapped(map, from, to, n)[lane] == map[lane],
    decreases n,
{
    if n > 0 {
        lemma_remapped_frame(map, from, to, n - 1, lane);
        assert(from[n - 1] != Lane(lane as usize));
    }
}

/// Sending lanes elsewhere leaves a map of all lanes.
pub proof fn lemma_remapped_len(map: Seq<Lane>, from: Seq<Lane>, to: Seq<Lane>, n: int)
    requires
        map.len() == NLANES,
        0 <= n <= from.len(),
        lanes_valid(from),
    ensures
        remapped(map, from, to, n).len() == NLANES,
    decreases n,
{
    if n > 0 {
        lemma_remapped_len(map, from, to, n - 1);
    }
}

/// Whether the state is in order: the map holds all lanes, and the movable
/// lanes are lanes of a chart, none of them twice.
pub open spec fn shuffler_wf(st: Shuffler) -> bool {
    st.map.len() == NLANES && lanes_valid(st.movable) && st.movable.no_duplicates()
}

/// A step leaves the state in order, and leaves a lane that is not movable
/// at that step where the map had it.
pub proof fn lemma_shuffler_after(st: Shuffler, lanes: Seq<Lane>, objs: Seq<Obj>, i: int, order: Seq<
    Lane,
>)
    requires
        shuffler_wf(st),
        lanes_valid(lanes),
        0 <= i < objs.len(),
    ensures
        shuffler_wf(shuffler_after(st, lanes, objs, i, order)),
        forall|lane: int|
            0 <= lane < NLANES && !has_lane(
                movable_at(st.movable, objs[i]),
                Lane(lane as usize),
            ) ==> #[trigger] shuffler_after(st, lanes, objs, i, order).map[lane] == st.map[lane],
        forall|lane: Lane|
            !has_lane(st.movable, lane) && !(objs[i].data is LNDone && objs[i].data.lane() == Some(
                lane,
            )) ==> !#[trigger] has_lane(shuffler_after(st, lanes, objs, i, order).movable, lane),
        objs[i].data is LNStart ==> !has_lane(
            shuffler_after(st, lanes, objs, i, order).movable,
            objs[i].data.lane().unwrap(),
        ),
{
    let obj = objs[i];
    let movable = movable_at(st.movable, obj);
    let after = shuffler_after(st, lanes, objs, i, order);
    if obj.data is LNStart {
        lemma_without(st.movable, obj.data.lane().unwrap());
        lemma_without_valid(st.movable, obj.data.lane().unwrap());
    }
    lemma_remapped_len(st.map, movable, order, movable.len() as int);
    assert forall|lane: int|
        0 <= lane < NLANES && !has_lane(movable, Lane(lane as usize)) implies #[trigger] after.map[lane]
        == st.map[lane] by {
        lemma_has_lane(movable, Lane(lane as usize));
        if reshuffles_at(objs, i) {
            lemma_remapped_frame(st.map, movable, order, movable.len() as int, lane);
        }
    }
    if obj.data is LNDone {
        let back = obj.data.lane().unwrap();
        lemma_has_lane(movable, back);
        lemma_has_lane(lanes, back);
        lemma_index_of(lanes, back, 0);
        if has_lane(lanes, back) && !has_lane(movable, back) {
            let grown = movable.push(back);
            assert(grown.no_duplicates()) by {
                assert forall|a: int, b: int|
                    0 <= a < grown.len() && 0 <= b < grown.len() && a != b implies grown[a]
                    != grown[b] by {
                    if a < movable.len() && b < movable.len() {
                    } else if a < movable.len() {
                        assert(movable[a] != back);
                    } else {
                        assert(movable[b] != back);
                    }
                }
            }
            assert(lanes_valid(grown));
        }
    }
    assert forall|lane: Lane|
        !has_lane(st.movable, lane) && !(obj.data is LNDone && obj.data.lane() == Some(
            lane,
        )) implies !#[trigger] has_lane(after.movable, lane) by {
        lemma_has_lane(after.movable, lane);
        lemma_has_lane(movable, lane);
        lemma_has_lane(st.movable, lane);
        if after.movable.contains(lane) {
            let k = choose|k: int| 0 <= k < after.movable.len() && after.movable[k] == lane;
            if k < movable.len() {
                assert(movable[k] == lane);
            }
        }
    }
    if obj.data is LNStart {
        let lane = obj.data.lane().unwrap();
        assert(after.movable == movable);
    }
}

/// The state behind any number of objects is in order.
pub proof fn lemma_shuffler_wf(lanes: Seq<Lane>, objs: Seq<Obj>, orders: Seq<Seq<Lane>>, n: int)
    requires
        lanes_valid(lanes),
        lanes.no_duplicates(),
        0 <= n <= objs.len(),
    ensures
        shuffler_wf(shuffler_upto(lanes, objs, orders, n)),
    decreases n,
{
    if n > 0 {
        lemma_shuffler_wf(lanes, objs, orders, n - 1);
        lemma_shuffler_after(
            shuffler_upto(lanes, objs, orders, n - 1),
            lanes,
            objs,
            n - 1,
            orders[n - 1],
        );
    }
}

/// From behind the start of a long note up to its end, the lane of the
/// long note is not movable and stays where the map had it.
proof fn lemma_held_lane(lanes: Seq<Lane>, objs: Seq<Obj>, orders: Seq<Seq<Lane>>, lane: usize, i: int, n: int)
    requires
        lanes_valid(lanes),
        lanes.no_duplicates(),
        lane < NLANES,
        0 <= i < n <= objs.len(),
        objs[i].data is LNStart && objs[i].data.lane() == Some(Lane(lane)),
        forall|m: int|
            i < m < n ==> !((#[trigger] objs[m]).data is LNDone && objs[m].data.lane() == Some(
                Lane(lane),
            )),
    ensures
        !has_lane(shuffler_upto(lanes, objs, orders, n).movable, Lane(lane)),
        shuffler_upto(lanes, objs, orders, n).map[lane as int] == shuffler_upto(
            lanes,
            objs,
            orders,
            i + 1,
        ).map[lane as int],
    decreases n - i,
{
    lemma_shuffler_wf(lanes, objs, orders, n - 1);
    let before = shuffler_upto(lanes, objs, orders, n - 1);
    lemma_shuffler_after(before, lanes, objs, n - 1, orders[n - 1]);
    if n - 1 > i {
        lemma_held_lane(lanes, objs, orders, lane, i, n - 1);
        let obj = objs[n - 1];
        if obj.data is LNStart {
            lemma_without(before.movable, obj.data.lane().unwrap());
        }
        assert(!has_lane(movable_at(before.movable, obj), Lane(lane)));
        assert(shuffler_after(before, lanes, objs, n - 1, orders[n - 1]).map[lane as int]
            == before.map[lane as int]);
    }
}

/// The random modifier keeps a long note in one lane: the end lies in the
/// lane in which the start lies.
pub proof fn lemma_random_keeps_long_notes(
    lanes: Seq<Lane>,
    objs: Seq<Obj>,
    orders: Seq<Seq<Lane>>,
    lane: usize,
    i: int,
    j: int,
)
    requires
        lanes_valid(lanes),
        lanes.no_duplicates(),
        lane < NLANES,
        0 <= i < j < objs.len(),
        objs[i].data is LNStart && objs[i].data.lane() == Some(Lane(lane)),
        objs[j].data is LNDone && objs[j].data.lane() == Some(Lane(lane)),
        forall|m: int|
            i < m < j ==> !((#[trigger] objs[m]).data is LNDone && objs[m].data.lane() == Some(
                Lane(lane),
            )),
    ensures
        random_moved(lanes, objs, orders)[j].data.lane() == random_moved(
            lanes,
            objs,
            orders,
        )[i].data.lane(),
        random_moved(lanes, objs, orders)[i].data is LNStart,
        random_moved(lanes, objs, orders)[j].data is LNDone,
{
    lemma_held_lane(lanes, objs, orders, lane, i, j);
    lemma_shuffler_wf(lanes, objs, orders, j);
    lemma_shuffler_wf(lanes, objs, orders, j + 1);
    lemma_shuffler_wf(lanes, objs, orders, i + 1);
    let before = shuffler_upto(lanes, objs, orders, j);
    lemma_shuffler_after(before, lanes, objs, j, orders[j]);
    assert(!has_lane(movable_at(before.movable, objs[j]), Lane(lane)));
    assert(shuffler_after(before, lanes, objs, j, orders[j]).map[lane as int]
        == before.map[lane as int]);
}

} // verus!
