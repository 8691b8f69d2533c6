//! Putting a chart in order.
//!
//! A source file may place objects in any order, several of them on one
//! spot, and long notes that overlap or never end. Sanitizing sorts the
//! objects by their position and removes, lane by lane, what cannot be
//! played. An object that is removed leaves its sound behind as background
//! music, if it is a note with a sound, and else a placeholder that
//! [`compact_bms`] takes out.

use vstd::prelude::*;
use crate::bms::{Bms, BmsModel};
use crate::keyspec::KeySpec;
use crate::lane::{KeyKind, Lane, NLANES};
use crate::obj::{BGALayer, Obj, ObjData};

verus! {

/// Whether the objects are in the order of their positions.
pub open spec fn sorted_by_time(objs: Seq<Obj>) -> bool {
    forall|i: int, j: int| 0 <= i <= j < objs.len() ==> objs[i].time@ <= objs[j].time@
}

/// Where `x` goes among the first `n` objects: behind every object that is
/// not behind it.
pub open spec fn sorted_place(objs: Seq<Obj>, x: Obj, n: int) -> int
    decreases n,
{
    if 0 < n <= objs.len() && x.time@ < objs[n - 1].time@ {
        sorted_place(objs, x, n - 1)
    } else {
        n
    }
}

/// The objects in the order of their positions; objects on one position
/// keep their order.
pub open spec fn sort_by_time(objs: Seq<Obj>) -> Seq<Obj>
    decreases objs.len(),
{
    if objs.len() == 0 {
        objs
    } else {
        let sorted = sort_by_time(objs.drop_last());
        sorted.insert(sorted_place(sorted, objs.last(), sorted.len() as int), objs.last())
    }
}

pub proof fn lemma_sorted_place(objs: Seq<Obj>, x: Obj, n: int)
    requires
        0 <= n <= objs.len(),
    ensures
        0 <= sorted_place(objs, x, n) <= n,
        forall|i: int| sorted_place(objs, x, n) <= i < n ==> x.time@ < (#[trigger] objs[i]).time@,
        sorted_place(objs, x, n) > 0 ==> objs[sorted_place(objs, x, n) - 1].time@ <= x.time@,
    decreases n,
{
    if 0 < n && x.time@ < objs[n - 1].time@ {
        lemma_sorted_place(objs, x, n - 1);
    }
}

/// Sorting keeps the objects, and leaves them sorted.
pub proof fn lemma_sort_by_time(objs: Seq<Obj>)
    ensures
        sorted_by_time(sort_by_time(objs)),
        sort_by_time(objs).len() == objs.len(),
        sort_by_time(objs).to_multiset() == objs.to_multiset(),
    decreases objs.len(),
{
    if objs.len() == 0 {
    } else {
        let init = objs.drop_last();
        let x = objs.last();
        lemma_sort_by_time(init);
        let sorted = sort_by_time(init);
        let k = sorted_place(sorted, x, sorted.len() as int);
        lemma_sorted_place(sorted, x, sorted.len() as int);
        let r = sorted.insert(k, x);
        assert forall|i: int, j: int| 0 <= i <= j < r.len() implies r[i].time@ <= r[j].time@ by {
            if j < k {
                assert(r[i] == sorted[i] && r[j] == sorted[j]);
            } else if j == k {
                if i < k {
                    assert(r[i] == sorted[i]);
                    assert(sorted[i].time@ <= sorted[k - 1].time@);
                }
            } else {
                assert(r[j] == sorted[j - 1]);
                if i < k {
                    assert(r[i] == sorted[i]);
                } else if i == k {
                } else {
                    assert(r[i] == sorted[i - 1]);
                }
            }
        }
        vstd::seq_lib::to_multiset_insert(sorted, k, x);
        assert(objs =~= init.push(x));
        vstd::seq_lib::to_multiset_insert(init, init.len() as int, x);
        assert(init.insert(init.len() as int, x) =~= init.push(x));
    }
}

/// Sorts the objects by their positions; objects on one position keep their
/// order.
pub fn sort_objs(objs: &mut Vec<Obj>)
    ensures
        final(objs)@ == sort_by_time(old(objs)@),
        sorted_by_time(final(objs)@),
        final(objs)@.len() == old(objs)@.len(),
        final(objs)@.to_multiset() == old(objs)@.to_multiset(),
{
    let mut sorted: Vec<Obj> = Vec::new();
    let mut i: usize = 0;
    while i < objs.len()
        invariant
            i <= objs@.len(),
            *objs == *old(objs),
            sorted@ == sort_by_time(objs@.take(i as int)),
        decreases objs@.len() - i,
    {
        let x = objs[i];
        let mut n = sorted.len();
        while n > 0 && x.time.lt(&sorted[n - 1].time)
            invariant
                n <= sorted@.len(),
                sorted_place(sorted@, x, sorted@.len() as int) == sorted_place(sorted@, x, n as int),
            decreases n,
        {
            n -= 1;
        }
        proof {
            assert(objs@.take(i + 1).drop_last() =~= objs@.take(i as int));
            assert(objs@.take(i + 1).last() == x);
        }
        sorted.insert(n, x);
        i += 1;
    }
    proof {
        assert(objs@.take(objs@.len() as int) =~= objs@);
        lemma_sort_by_time(objs@);
    }
    *objs = sorted;
}

/// What one pass over the objects looks at: the notes and bombs of one
/// lane, or the effects of the chart.
#[derive(Clone, Copy, Debug, PartialEq, Eq, Structural)]
pub enum Scope {
    Notes(usize),
    Effects,
}

/// The number of kinds that a pass tells apart.
pub const NKINDS: usize = 6;

/// The kind of an object in a pass, if the pass looks at it. For the notes
/// of a lane, in the order of their rank: end of a long note, start of a
/// long note, visible note, invisible note, bomb. For the effects: the four
/// layers of images, the tempo, the stop.
pub open spec fn kind_of(data: ObjData, scope: Scope) -> Option<int> {
    match scope {
        Scope::Notes(lane) => if data.lane() == Some(Lane(lane)) {
            match data {
                ObjData::LNDone(_, _) => Some(0),
                ObjData::LNStart(_, _) => Some(1),
                ObjData::Visible(_, _) => Some(2),
                ObjData::Invisible(_, _) => Some(3),
                ObjData::Bomb(_, _, _) => Some(4),
                _ => None,
            }
        } else {
            None
        },
        Scope::Effects => match data {
            ObjData::SetBGA(BGALayer::Layer1, _) => Some(0),
            ObjData::SetBGA(BGALayer::Layer2, _) => Some(1),
            ObjData::SetBGA(BGALayer::Layer3, _) => Some(2),
            ObjData::SetBGA(BGALayer::PoorBGA, _) => Some(3),
            ObjData::SetBPM(_) => Some(4),
            ObjData::Stop(_) => Some(5),
            _ => None,
        },
    }
}

/// Whether an object of the kind `k` stands among the objects from `a` up
/// to `b`.
pub open spec fn has_kind(objs: Seq<Obj>, scope: Scope, a: int, b: int, k: int) -> bool
    decreases b - a,
{
    if b <= a {
        false
    } else {
        kind_of(objs[b - 1].data, scope) == Some(k) || has_kind(objs, scope, a, b - 1, k)
    }
}

/// The kinds that stand among the objects from `a` up to `b`.
pub open spec fn kinds_in(objs: Seq<Obj>, scope: Scope, a: int, b: int) -> Seq<bool> {
    Seq::new(NKINDS as nat, |k: int| has_kind(objs, scope, a, b, k))
}

/// The kinds that may stay on one spot, of the kinds that stand there.
///
/// Among effects all may. Among the notes of a lane: the two ends of a long
/// note cancel each other; inside a long note no start, visible note or
/// bomb may stand, and outside of one no end; an invisible note may not
/// stand with an end of a long note; and of what is left only the kind of
/// the lowest rank stays, but that a bomb may stay with an invisible note.
pub open spec fn merged(kinds: Seq<bool>, scope: Scope, inside: bool) -> Seq<bool> {
    match scope {
        Scope::Effects => kinds,
        Scope::Notes(_) => {
            let both = kinds[0] && kinds[1];
            let done = kinds[0] && !both && inside;
            let start = kinds[1] && !both && !inside;
            let visible = kinds[2] && !inside;
            let invisible = kinds[3] && !done && !start;
            let bomb = kinds[4] && !inside;
            seq![
                done,
                !done && start,
                !done && !start && visible,
                !done && !start && !visible && invisible,
                !done && !start && !visible && bomb,
                false,
            ]
        },
    }
}

/// Whether a long note is open behind a spot, given the kinds that stay
/// there.
pub open spec fn inside_after(kinds: Seq<bool>, scope: Scope, inside: bool) -> bool {
    match scope {
        Scope::Effects => inside,
        Scope::Notes(_) => if kinds[1] {
            true
        } else if kinds[0] {
            false
        } else {
            inside
        },
    }
}

/// Where the spot that starts at `a` ends, looking from `j` on: at the
/// first object that lies behind the object at `a`.
pub open spec fn run_end(objs: Seq<Obj>, a: int, j: int) -> int
    decreases objs.len() - j,
{
    if 0 <= a <= j < objs.len() && objs[j].time@ <= objs[a].time@ {
        run_end(objs, a, j + 1)
    } else {
        j
    }
}

pub proof fn lemma_run_end_bounds(objs: Seq<Obj>, a: int, j: int)
    requires
        0 <= a <= j <= objs.len(),
    ensures
        j <= run_end(objs, a, j) <= objs.len(),
        forall|p: int| j <= p < run_end(objs, a, j) ==> (#[trigger] objs[p]).time@ <= objs[a].time@,
        run_end(objs, a, j) < objs.len() ==> objs[run_end(objs, a, j)].time@ > objs[a].time@,
        a == j < objs.len() ==> run_end(objs, a, j) > j,
    decreases objs.len() - j,
{
    if j < objs.len() && objs[j].time@ <= objs[a].time@ {
        lemma_run_end_bounds(objs, a, j + 1);
    }
}

/// Whether the object at `i` stays, where the spot reaches from `a` up to
/// `b`: it does if the pass does not look at it, or if it is the first of
/// its kind on the spot and its kind may stay.
pub open spec fn stays(objs: Seq<Obj>, scope: Scope, a: int, b: int, inside: bool, i: int) -> bool {
    match kind_of(objs[i].data, scope) {
        None => true,
        Some(k) => !has_kind(objs, scope, a, i, k) && merged(
            kinds_in(objs, scope, a, b),
            scope,
            inside,
        )[k],
    }
}

/// What is left of an object that does not stay.
pub open spec fn removed(obj: Obj) -> Obj {
    Obj { time: obj.time, data: obj.data.demoted() }
}

/// The objects after the spot from `a` up to `b` was put in order.
pub open spec fn fix_run(objs: Seq<Obj>, scope: Scope, a: int, b: int, inside: bool) -> Seq<Obj> {
    Seq::new(
        objs.len(),
        |i: int|
            if a <= i < b && !stays(objs, scope, a, b, inside, i) {
                removed(objs[i])
            } else {
                objs[i]
            },
    )
}

/// The objects after every spot from the object at `i` on was put in
/// order, and whether a long note is open at the end.
pub open spec fn fix_runs(objs: Seq<Obj>, scope: Scope, i: int, inside: bool) -> (Seq<Obj>, bool)
    decreases objs.len() - i,
{
    if 0 <= i < objs.len() {
        let j = run_end(objs, i, i);
        if j > i {
            proof {
                lemma_run_end_bounds(objs, i, i);
                assert(fix_run(objs, scope, i, j, inside).len() == objs.len());
            }
            fix_runs(
                fix_run(objs, scope, i, j, inside),
                scope,
                j,
                inside_after(merged(kinds_in(objs, scope, i, j), scope, inside), scope, inside),
            )
        } else {
            (objs, inside)
        }
    } else {
        (objs, inside)
    }
}

/// The index of the last start of a long note on the lane among the first
/// `n` objects, or -1.
pub open spec fn last_start(objs: Seq<Obj>, lane: usize, n: int) -> int
    decreases n,
{
    if n <= 0 {
        -1
    } else if objs[n - 1].data is LNStart && objs[n - 1].data.lane() == Some(Lane(lane)) {
        n - 1
    } else {
        last_start(objs, lane, n - 1)
    }
}

/// The objects without the last start of a long note on the lane.
pub open spec fn without_last_start(objs: Seq<Obj>, lane: usize) -> Seq<Obj> {
    let idx = last_start(objs, lane, objs.len() as int);
    if idx >= 0 {
        objs.update(idx, removed(objs[idx]))
    } else {
        objs
    }
}

/// The objects after the notes of one lane were put in order. A long note
/// that is left open at the end loses its start.
pub open spec fn fix_lane(objs: Seq<Obj>, lane: usize) -> Seq<Obj> {
    let (fixed, inside) = fix_runs(objs, Scope::Notes(lane), 0, false);
    if inside {
        without_last_start(fixed, lane)
    } else {
        fixed
    }
}

/// The objects after the notes of the first `n` lanes were put in order.
pub open spec fn fix_lanes(objs: Seq<Obj>, n: int) -> Seq<Obj>
    decreases n,
{
    if n <= 0 {
        objs
    } else {
        fix_lane(fix_lanes(objs, n - 1), (n - 1) as usize)
    }
}

/// The objects of a chart after it was sanitized.
pub open spec fn sanitized(objs: Seq<Obj>) -> Seq<Obj> {
    fix_runs(fix_lanes(sort_by_time(objs), NLANES as int), Scope::Effects, 0, false).0
}

/// The kind of an object in a pass, if the pass looks at it.
fn to_type(obj: &Obj, scope: Scope) -> (r: Option<usize>)
    ensures
        r is Some <==> kind_of(obj.data, scope) is Some,
        r matches Some(k) ==> kind_of(obj.data, scope) == Some(k as int) && k < NKINDS,
{
    match scope {
        Scope::Notes(lane) => match obj.data {
            ObjData::LNDone(l, _) => if l.0 == lane {
                Some(0)
            } else {
                None
            },
            ObjData::LNStart(l, _) => if l.0 == lane {
                Some(1)
            } else {
                None
            },
            ObjData::Visible(l, _) => if l.0 == lane {
                Some(2)
            } else {
                None
            },
            ObjData::Invisible(l, _) => if l.0 == lane {
                Some(3)
            } else {
                None
            },
            ObjData::Bomb(l, _, _) => if l.0 == lane {
                Some(4)
            } else {
                None
            },
            _ => None,
        },
        Scope::Effects => match obj.data {
            ObjData::SetBGA(BGALayer::Layer1, _) => Some(0),
            ObjData::SetBGA(BGALayer::Layer2, _) => Some(1),
            ObjData::SetBGA(BGALayer::Layer3, _) => Some(2),
            ObjData::SetBGA(BGALayer::PoorBGA, _) => Some(3),
            ObjData::SetBPM(_) => Some(4),
            ObjData::Stop(_) => Some(5),
            _ => None,
        },
    }
}

/// Turns a note with a sound into background music, and anything else into
/// a placeholder.
fn remove_or_replace_note(obj: &mut Obj)
    ensures
        *final(obj) == removed(*old(obj)),
{
    obj.data = match obj.data {
        ObjData::Visible(_, Some(sref)) => ObjData::BGM(sref),
        ObjData::Invisible(_, Some(sref)) => ObjData::BGM(sref),
        ObjData::LNStart(_, Some(sref)) => ObjData::BGM(sref),
        ObjData::LNDone(_, Some(sref)) => ObjData::BGM(sref),
        _ => ObjData::Deleted,
    };
}

/// The kinds that may stay on one spot, of the kinds that stand there.
fn merge_types(kinds: &[bool; 6], scope: Scope, inside: bool) -> (r: [bool; 6])
    ensures
        r@ == merged(kinds@, scope, inside),
{
    match scope {
        Scope::Effects => {
            let r = [kinds[0], kinds[1], kinds[2], kinds[3], kinds[4], kinds[5]];
            assert(r@ =~= kinds@);
            r
        },
        Scope::Notes(_) => {
            let both = kinds[0] && kinds[1];
            let done = kinds[0] && !both && inside;
            let start = kinds[1] && !both && !inside;
            let visible = kinds[2] && !inside;
            let invisible = kinds[3] && !done && !start;
            let bomb = kinds[4] && !inside;
            let r = [
                done,
                !done && start,
                !done && !start && visible,
                !done && !start && !visible && invisible,
                !done && !start && !visible && bomb,
                false,
            ];
            assert(r@ =~= merged(kinds@, scope, inside));
            r
        },
    }
}

/// Puts every spot in order, as far as the pass `scope` goes, and returns
/// whether a long note is open at the end.
fn sanitize(objs: &mut Vec<Obj>, scope: Scope) -> (inside: bool)
    ensures
        (final(objs)@, inside) == fix_runs(old(objs)@, scope, 0, false),
{
    let len = objs.len();
    let mut inside = false;
    let mut i: usize = 0;
    while i < len
        invariant
            i <= len == objs@.len(),
            fix_runs(objs@, scope, i as int, inside) == fix_runs(old(objs)@, scope, 0, false),
        decreases len - i,
    {
        let ghost orig = objs@;
        let cur = objs[i].time;
        let mut types = [false, false, false, false, false, false];
        let mut j = i;
        while j < len && objs[j].time.le(&cur)
            invariant
                i <= j <= len == objs@.len() == orig.len(),
                cur == orig[i as int].time,
                run_end(orig, i as int, i as int) == run_end(orig, i as int, j as int),
                forall|k: int| 0 <= k < NKINDS ==> types@[k] == has_kind(orig, scope, i as int, j as int, k),
                forall|p: int| 0 <= p < len ==> (#[trigger] objs@[p]).time == orig[p].time,
                forall|p: int|
                    i <= p < j ==> (#[trigger] objs@[p]) == if kind_of(orig[p].data, scope) matches Some(
                        k,
                    ) && has_kind(orig, scope, i as int, p, k) {
                        removed(orig[p])
                    } else {
                        orig[p]
                    },
                forall|p: int| 0 <= p < i || j <= p < len ==> (#[trigger] objs@[p]) == orig[p],
            decreases len - j,
        {
            match to_type(&objs[j], scope) {
                Some(t) => {
                    if types[t] {
                        let mut obj = objs[j];
                        remove_or_replace_note(&mut obj);
                        objs[j] = obj;
                    } else {
                        types[t] = true;
                    }
                },
                None => {},
            }
            j += 1;
        }
        assert(types@ =~= kinds_in(orig, scope, i as int, j as int));
        let kept = merge_types(&types, scope, inside);
        let ghost deduped = objs@;
        let mut p = i;
        while p < j
            invariant
                i <= p <= j <= len == objs@.len() == orig.len() == deduped.len(),
                kept@ == merged(kinds_in(orig, scope, i as int, j as int), scope, inside),
                forall|q: int| 0 <= q < len ==> (#[trigger] deduped[q]).time == orig[q].time,
                forall|q: int|
                    i <= q < j ==> (#[trigger] deduped[q]) == if kind_of(orig[q].data, scope) matches Some(
                        k,
                    ) && has_kind(orig, scope, i as int, q, k) {
                        removed(orig[q])
                    } else {
                        orig[q]
                    },
                forall|q: int| 0 <= q < i || j <= q < len ==> (#[trigger] deduped[q]) == orig[q],
                forall|q: int| p <= q < len ==> (#[trigger] objs@[q]) == deduped[q],
                forall|q: int| 0 <= q < p ==> (#[trigger] objs@[q]) == fix_run(orig, scope, i as int, j as int, inside)[q],
            decreases j - p,
        {
            assert(objs@[p as int] == deduped[p as int]);
            match to_type(&objs[p], scope) {
                Some(t) => {
                    if !kept[t] {
                        let mut obj = objs[p];
                        remove_or_replace_note(&mut obj);
                        objs[p] = obj;
                    }
                },
                None => {},
            }
            p += 1;
        }
        assert(objs@ =~= fix_run(orig, scope, i as int, j as int, inside));
        inside = match scope {
            Scope::Effects => inside,
            Scope::Notes(_) => if kept[1] {
                true
            } else if kept[0] {
                false
            } else {
                inside
            },
        };
        i = j;
    }
    inside
}

/// Whether no two objects that the pass looks at are of one kind on one
/// position, among the first `n` objects.
pub open spec fn unique_upto(objs: Seq<Obj>, scope: Scope, n: int) -> bool {
    forall|i: int, j: int|
        0 <= i < j < n && objs[i].time@ == objs[j].time@ && kind_of(
            #[trigger] objs[i].data,
            scope,
        ) is Some ==> kind_of(objs[i].data, scope) != kind_of(#[trigger] objs[j].data, scope)
}

/// Whether no two objects that the pass looks at are of one kind on one
/// position.
pub open spec fn unique_in(objs: Seq<Obj>, scope: Scope) -> bool {
    unique_upto(objs, scope, objs.len() as int)
}

/// Whether no two notes or bombs of the lane are of one kind on one
/// position.
pub open spec fn unique_on_lane(objs: Seq<Obj>, lane: usize) -> bool {
    unique_in(objs, Scope::Notes(lane))
}

/// Whether `after` is `before` but for objects that the pass looks at and
/// that were removed.
pub open spec fn refines(before: Seq<Obj>, after: Seq<Obj>, scope: Scope) -> bool {
    after.len() == before.len() && forall|i: int|
        0 <= i < before.len() ==> (#[trigger] after[i]) == before[i] || (kind_of(
            before[i].data,
            scope,
        ) is Some && after[i] == removed(before[i]))
}

/// Whether every object before the one at `i` lies before every object
/// from there on.
pub open spec fn new_spot(objs: Seq<Obj>, i: int) -> bool {
    forall|p: int, q: int|
        0 <= p < i <= q < objs.len() ==> (#[trigger] objs[p]).time@ < (#[trigger] objs[q]).time@
}

/// Whether the object starts a long note on the lane.
pub open spec fn is_start(obj: Obj, lane: usize) -> bool {
    obj.data is LNStart && obj.data.lane() == Some(Lane(lane))
}

/// Whether the object ends a long note on the lane.
pub open spec fn is_done(obj: Obj, lane: usize) -> bool {
    obj.data is LNDone && obj.data.lane() == Some(Lane(lane))
}

/// Whether a long note is open on the lane behind the first `n` objects:
/// whether the last of them that starts or ends one starts one.
pub open spec fn open_after(objs: Seq<Obj>, lane: usize, n: int) -> bool
    decreases n,
{
    if n <= 0 {
        false
    } else if is_start(objs[n - 1], lane) {
        true
    } else if is_done(objs[n - 1], lane) {
        false
    } else {
        open_after(objs, lane, n - 1)
    }
}

/// Whether, among the first `n` objects, starts and ends of long notes on
/// the lane take turns: a start stands only where no long note is open, and
/// an end only where one is.
pub open spec fn alternates_upto(objs: Seq<Obj>, lane: usize, n: int) -> bool {
    forall|m: int|
        0 <= m < n ==> (is_start(#[trigger] objs[m], lane) ==> !open_after(objs, lane, m)) && (
        is_done(objs[m], lane) ==> open_after(objs, lane, m))
}

/// Whether the long notes of the lane are whole: starts and ends take
/// turns, and none is open at the end.
pub open spec fn long_notes_whole(objs: Seq<Obj>, lane: usize) -> bool {
    alternates_upto(objs, lane, objs.len() as int) && !open_after(objs, lane, objs.len() as int)
}

/// Whether the object is a visible note or a bomb on the lane.
pub open spec fn is_hit(obj: Obj, lane: usize) -> bool {
    (obj.data is Visible || obj.data is Bomb) && obj.data.lane() == Some(Lane(lane))
}

/// Whether none of the first `n` objects is a visible note or a bomb on
/// the lane that stands where a long note of the lane is open.
pub open spec fn clear_upto(objs: Seq<Obj>, lane: usize, n: int) -> bool {
    forall|m: int| 0 <= m < n ==> is_hit(#[trigger] objs[m], lane) ==> !open_after(objs, lane, m)
}

/// Whether the long notes of the lane are clear: no visible note and no
/// bomb of the lane stands between the start of a long note and its end.
pub open spec fn long_notes_clear(objs: Seq<Obj>, lane: usize) -> bool {
    clear_upto(objs, lane, objs.len() as int)
}

/// What is left of a removed object is looked at by no pass.
pub proof fn lemma_removed_kind(obj: Obj, scope: Scope)
    ensures
        kind_of(removed(obj).data, scope) is None,
        forall|lane: usize| !is_start(removed(obj), lane) && !is_done(removed(obj), lane),
{
}

/// An object of a kind stands in a range that holds it.
pub proof fn lemma_has_kind_witness(objs: Seq<Obj>, scope: Scope, a: int, b: int, p: int, k: int)
    requires
        a <= p < b,
        kind_of(objs[p].data, scope) == Some(k),
    ensures
        has_kind(objs, scope, a, b, k),
    decreases b - a,
{
    if p < b - 1 {
        lemma_has_kind_witness(objs, scope, a, b - 1, p, k);
    }
}

/// Where a kind stands in a range, a first object of that kind does.
pub proof fn lemma_first_of_kind(objs: Seq<Obj>, scope: Scope, a: int, b: int, k: int) -> (p: int)
    requires
        has_kind(objs, scope, a, b, k),
    ensures
        a <= p < b,
        kind_of(objs[p].data, scope) == Some(k),
        !has_kind(objs, scope, a, p, k),
    decreases b - a,
{
    if has_kind(objs, scope, a, b - 1, k) {
        lemma_first_of_kind(objs, scope, a, b - 1, k)
    } else {
        b - 1
    }
}

/// Putting a pass's spots in order leaves sorted objects with no two of one
/// kind on one position, and changes only what the pass looks at.
pub proof fn lemma_fix_runs_unique(objs: Seq<Obj>, scope: Scope, i: int, inside: bool)
    requires
        sorted_by_time(objs),
        0 <= i <= objs.len(),
        new_spot(objs, i),
        unique_upto(objs, scope, i),
    ensures
        refines(objs, fix_runs(objs, scope, i, inside).0, scope),
        unique_in(fix_runs(objs, scope, i, inside).0, scope),
        forall|p: int| 0 <= p < i ==> fix_runs(objs, scope, i, inside).0[p] == objs[p],
    decreases objs.len() - i,
{
    if i < objs.len() {
        let j = run_end(objs, i, i);
        lemma_run_end_bounds(objs, i, i);
        let fixed = fix_run(objs, scope, i, j, inside);
        let next = inside_after(merged(kinds_in(objs, scope, i, j), scope, inside), scope, inside);
        assert forall|p: int| 0 <= p < fixed.len() implies (#[trigger] fixed[p]).time == objs[p].time by {}
        assert(sorted_by_time(fixed)) by {
            assert forall|p: int, q: int| 0 <= p <= q < fixed.len() implies fixed[p].time@
                <= fixed[q].time@ by {
                assert(fixed[p].time == objs[p].time && fixed[q].time == objs[q].time);
            }
        }
        assert(new_spot(fixed, j)) by {
            assert forall|p: int, q: int| 0 <= p < j <= q < fixed.len() implies (
            #[trigger] fixed[p]).time@ < (#[trigger] fixed[q]).time@ by {
                assert(fixed[p].time == objs[p].time && fixed[q].time == objs[q].time);
                assert(objs[j].time@ <= objs[q].time@);
                if p < i {
                    assert(objs[p].time@ <= objs[i].time@);
                } else {
                    assert(objs[p].time@ <= objs[i].time@);
                }
            }
        }
        assert(unique_upto(fixed, scope, j)) by {
            assert forall|p: int, q: int|
                0 <= p < q < j && fixed[p].time@ == fixed[q].time@ && kind_of(
                    #[trigger] fixed[p].data,
                    scope,
                ) is Some implies kind_of(fixed[p].data, scope) != kind_of(
                #[trigger] fixed[q].data,
                scope,
            ) by {
                assert(fixed[p].time == objs[p].time && fixed[q].time == objs[q].time);
                lemma_removed_kind(objs[p], scope);
                lemma_removed_kind(objs[q], scope);
                if kind_of(fixed[p].data, scope) == kind_of(fixed[q].data, scope) {
                    let k = kind_of(fixed[p].data, scope).unwrap();
                    assert(fixed[p] == objs[p]);
                    assert(fixed[q] == objs[q]);
                    if q < i {
                        assert(kind_of(objs[p].data, scope) != kind_of(objs[q].data, scope));
                    } else if p < i {
                        assert(objs[p].time@ < objs[q].time@);
                    } else {
                        assert(stays(objs, scope, i, j, inside, q));
                        lemma_has_kind_witness(objs, scope, i, q, p, k);
                    }
                }
            }
        }
        lemma_fix_runs_unique(fixed, scope, j, next);
        let r = fix_runs(fixed, scope, j, next).0;
        assert(r == fix_runs(objs, scope, i, inside).0);
        assert forall|p: int| 0 <= p < objs.len() implies (#[trigger] r[p]) == objs[p] || (kind_of(
            objs[p].data,
            scope,
        ) is Some && r[p] == removed(objs[p])) by {
            if p < j {
                assert(r[p] == fixed[p]);
            } else {
                assert(fixed[p] == objs[p]);
            }
        }
        assert forall|p: int| 0 <= p < i implies r[p] == objs[p] by {
            assert(r[p] == fixed[p]);
        }
    }
}

/// Whether a long note is open depends only on the objects before.
pub proof fn lemma_open_after_prefix(a: Seq<Obj>, b: Seq<Obj>, lane: usize, n: int)
    requires
        0 <= n <= a.len(),
        n <= b.len(),
        forall|m: int| 0 <= m < n ==> is_start(#[trigger] a[m], lane) == is_start(b[m], lane),
        forall|m: int| 0 <= m < n ==> is_done(#[trigger] a[m], lane) == is_done(b[m], lane),
    ensures
        open_after(a, lane, n) == open_after(b, lane, n),
    decreases n,
{
    if n > 0 {
        assert(is_start(a[n - 1], lane) == is_start(b[n - 1], lane));
        assert(is_done(a[n - 1], lane) == is_done(b[n - 1], lane));
        lemma_open_after_prefix(a, b, lane, n - 1);
    }
}

/// Where no long note starts or ends, none opens or closes.
pub proof fn lemma_open_after_range(objs: Seq<Obj>, lane: usize, a: int, b: int)
    requires
        0 <= a <= b <= objs.len(),
        forall|m: int| a <= m < b ==> !is_start(#[trigger] objs[m], lane) && !is_done(objs[m], lane),
    ensures
        open_after(objs, lane, b) == open_after(objs, lane, a),
    decreases b - a,
{
    if a < b {
        assert(!is_start(objs[b - 1], lane) && !is_done(objs[b - 1], lane));
        lemma_open_after_range(objs, lane, a, b - 1);
    }
}

/// Putting the spots of a lane in order leaves starts and ends of long
/// notes that take turns.
pub proof fn lemma_fix_runs_alternate(objs: Seq<Obj>, lane: usize, i: int, inside: bool)
    requires
        0 <= i <= objs.len(),
        alternates_upto(objs, lane, i),
        clear_upto(objs, lane, i),
        inside == open_after(objs, lane, i),
    ensures
        alternates_upto(
            fix_runs(objs, Scope::Notes(lane), i, inside).0,
            lane,
            objs.len() as int,
        ),
        clear_upto(fix_runs(objs, Scope::Notes(lane), i, inside).0, lane, objs.len() as int),
        fix_runs(objs, Scope::Notes(lane), i, inside).1 == open_after(
            fix_runs(objs, Scope::Notes(lane), i, inside).0,
            lane,
            objs.len() as int,
        ),
        fix_runs(objs, Scope::Notes(lane), i, inside).0.len() == objs.len(),
    decreases objs.len() - i,
{
    let scope = Scope::Notes(lane);
    if i < objs.len() {
        let j = run_end(objs, i, i);
        lemma_run_end_bounds(objs, i, i);
        let fixed = fix_run(objs, scope, i, j, inside);
        let kinds = merged(kinds_in(objs, scope, i, j), scope, inside);
        let next = inside_after(kinds, scope, inside);
        // below the spot nothing changed
        assert forall|m: int| 0 <= m < i implies is_start(#[trigger] fixed[m], lane) == is_start(
            objs[m],
            lane,
        ) && is_done(fixed[m], lane) == is_done(objs[m], lane) by {
            assert(fixed[m] == objs[m]);
        }
        assert forall|m: int| 0 <= m <= i implies open_after(fixed, lane, m) == open_after(
            objs,
            lane,
            m,
        ) by {
            assert forall|q: int| 0 <= q < m implies is_start(#[trigger] fixed[q], lane)
                == is_start(objs[q], lane) by {
                assert(fixed[q] == objs[q]);
            }
            assert forall|q: int| 0 <= q < m implies is_done(#[trigger] fixed[q], lane) == is_done(
                objs[q],
                lane,
            ) by {
                assert(fixed[q] == objs[q]);
            }
            lemma_open_after_prefix(fixed, objs, lane, m);
        }
        // on the spot, an end or a start stays only as the first of its kind
        assert forall|m: int| i <= m < j implies (is_start(#[trigger] fixed[m], lane) ==> kinds[1]
            && kind_of(objs[m].data, scope) == Some(1int) && !has_kind(objs, scope, i, m, 1)) && (
        is_done(fixed[m], lane) ==> kinds[0] && kind_of(objs[m].data, scope) == Some(0int)
            && !has_kind(objs, scope, i, m, 0)) by {
            lemma_removed_kind(objs[m], scope);
        }
        if kinds[1] {
            let e = lemma_first_of_kind(objs, scope, i, j, 1);
            assert(fixed[e] == objs[e]);
            assert(is_start(fixed[e], lane));
            assert forall|m: int| i <= m < j && m != e implies !is_start(
                #[trigger] fixed[m],
                lane,
            ) && !is_done(fixed[m], lane) by {
                if is_start(fixed[m], lane) {
                    if m > e {
                        lemma_has_kind_witness(objs, scope, i, m, e, 1);
                    } else {
                        lemma_has_kind_witness(objs, scope, i, e, m, 1);
                    }
                }
            }
            lemma_open_after_range(fixed, lane, i, e);
            lemma_open_after_range(fixed, lane, e + 1, j);
            assert forall|m: int| i <= m < j implies (is_start(#[trigger] fixed[m], lane)
                ==> !open_after(fixed, lane, m)) && (is_done(fixed[m], lane) ==> open_after(
                fixed,
                lane,
                m,
            )) by {
                if m == e {
                } else {
                    assert(!is_start(fixed[m], lane) && !is_done(fixed[m], lane));
                }
            }
        } else if kinds[0] {
            let e = lemma_first_of_kind(objs, scope, i, j, 0);
            assert(fixed[e] == objs[e]);
            assert(is_done(fixed[e], lane));
            assert forall|m: int| i <= m < j && m != e implies !is_start(
                #[trigger] fixed[m],
                lane,
            ) && !is_done(fixed[m], lane) by {
                if is_done(fixed[m], lane) {
                    if m > e {
                        lemma_has_kind_witness(objs, scope, i, m, e, 0);
                    } else {
                        lemma_has_kind_witness(objs, scope, i, e, m, 0);
                    }
                }
            }
            lemma_open_after_range(fixed, lane, i, e);
            lemma_open_after_range(fixed, lane, e + 1, j);
            assert forall|m: int| i <= m < j implies (is_start(#[trigger] fixed[m], lane)
                ==> !open_after(fixed, lane, m)) && (is_done(fixed[m], lane) ==> open_after(
                fixed,
                lane,
                m,
            )) by {
                if m == e {
                } else {
                    assert(!is_start(fixed[m], lane) && !is_done(fixed[m], lane));
                }
            }
        } else {
            lemma_open_after_range(fixed, lane, i, j);
        }
        assert(alternates_upto(fixed, lane, j)) by {
            assert forall|m: int| 0 <= m < j implies (is_start(#[trigger] fixed[m], lane)
                ==> !open_after(fixed, lane, m)) && (is_done(fixed[m], lane) ==> open_after(
                fixed,
                lane,
                m,
            )) by {
                if m < i {
                    assert(fixed[m] == objs[m]);
                    assert(is_start(objs[m], lane) ==> !open_after(objs, lane, m));
                }
            }
        }
        assert(next == open_after(fixed, lane, j));
        // a visible note or a bomb stays only where no long note is open
        assert forall|m: int| 0 <= m < j && is_hit(#[trigger] fixed[m], lane) implies !open_after(
            fixed,
            lane,
            m,
        ) by {
            if m < i {
                assert(fixed[m] == objs[m]);
            } else {
                lemma_removed_kind(objs[m], scope);
                assert(fixed[m] == objs[m]);
                assert(kinds[2] || kinds[4]);
                assert(!kinds[0] && !kinds[1] && !inside);
                assert forall|q: int| i <= q < m implies !is_start(#[trigger] fixed[q], lane)
                    && !is_done(fixed[q], lane) by {}
                lemma_open_after_range(fixed, lane, i, m);
            }
        }
        lemma_fix_runs_alternate(fixed, lane, j, next);
    }
}

/// Behind an open long note stands its start, and behind that neither a
/// start nor an end.
pub proof fn lemma_open_has_start(objs: Seq<Obj>, lane: usize, n: int)
    requires
        0 <= n <= objs.len(),
        open_after(objs, lane, n),
    ensures
        0 <= last_start(objs, lane, n) < n,
        is_start(objs[last_start(objs, lane, n)], lane),
        forall|m: int|
            last_start(objs, lane, n) < m < n ==> !is_start(#[trigger] objs[m], lane) && !is_done(
                objs[m],
                lane,
            ),
    decreases n,
{
    if n > 0 && !is_start(objs[n - 1], lane) {
        lemma_open_has_start(objs, lane, n - 1);
    }
}

/// Taking the start from a long note that is left open leaves the long
/// notes of the lane whole.
pub proof fn lemma_without_last_start(objs: Seq<Obj>, lane: usize)
    requires
        alternates_upto(objs, lane, objs.len() as int),
        open_after(objs, lane, objs.len() as int),
    ensures
        long_notes_whole(without_last_start(objs, lane), lane),
        refines(objs, without_last_start(objs, lane), Scope::Notes(lane)),
        long_notes_clear(objs, lane) ==> long_notes_clear(without_last_start(objs, lane), lane),
{
    let n = objs.len() as int;
    let idx = last_start(objs, lane, n);
    lemma_open_has_start(objs, lane, n);
    let r = without_last_start(objs, lane);
    lemma_removed_kind(objs[idx], Scope::Notes(lane));
    assert(r[idx] == removed(objs[idx]));
    assert forall|m: int| 0 <= m <= n implies open_after(r, lane, m) == (if m <= idx {
        open_after(objs, lane, m)
    } else {
        false
    }) by {
        if m <= idx {
            assert forall|q: int| 0 <= q < m implies is_start(#[trigger] r[q], lane) == is_start(
                objs[q],
                lane,
            ) by {
                assert(r[q] == objs[q]);
            }
            assert forall|q: int| 0 <= q < m implies is_done(#[trigger] r[q], lane) == is_done(
                objs[q],
                lane,
            ) by {
                assert(r[q] == objs[q]);
            }
            lemma_open_after_prefix(r, objs, lane, m);
        } else {
            assert forall|q: int| 0 <= q < idx implies is_start(#[trigger] r[q], lane) == is_start(
                objs[q],
                lane,
            ) by {
                assert(r[q] == objs[q]);
            }
            assert forall|q: int| 0 <= q < idx implies is_done(#[trigger] r[q], lane) == is_done(
                objs[q],
                lane,
            ) by {
                assert(r[q] == objs[q]);
            }
            lemma_open_after_prefix(r, objs, lane, idx);
            assert forall|q: int| idx <= q < m implies !is_start(#[trigger] r[q], lane) && !is_done(
                r[q],
                lane,
            ) by {
                if q > idx {
                    assert(r[q] == objs[q]);
                }
            }
            lemma_open_after_range(r, lane, idx, m);
            assert(is_start(objs[idx], lane));
        }
    }
    assert forall|m: int| 0 <= m < n implies (is_start(#[trigger] r[m], lane) ==> !open_after(
        r,
        lane,
        m,
    )) && (is_done(r[m], lane) ==> open_after(r, lane, m)) by {
        if m < idx {
            assert(r[m] == objs[m]);
            assert(is_start(objs[m], lane) ==> !open_after(objs, lane, m));
        } else if m > idx {
            assert(r[m] == objs[m]);
        }
    }
    assert forall|i: int| 0 <= i < objs.len() implies (#[trigger] r[i]) == objs[i] || (kind_of(
        objs[i].data,
        Scope::Notes(lane),
    ) is Some && r[i] == removed(objs[i])) by {
    }
    if long_notes_clear(objs, lane) {
        assert forall|m: int| 0 <= m < n && is_hit(#[trigger] r[m], lane) implies !open_after(
            r,
            lane,
            m,
        ) by {
            if m != idx {
                assert(r[m] == objs[m]);
            }
        }
    }
}

/// Removing objects keeps the rest sorted and, in every pass, no two of
/// one kind on one position.
pub proof fn lemma_refines_keeps(before: Seq<Obj>, after: Seq<Obj>, scope: Scope, other: Scope)
    requires
        refines(before, after, scope),
    ensures
        sorted_by_time(before) ==> sorted_by_time(after),
        unique_in(before, other) ==> unique_in(after, other),
{
    if sorted_by_time(before) {
        assert forall|i: int, j: int| 0 <= i <= j < after.len() implies after[i].time@
            <= after[j].time@ by {
            assert(after[i].time == before[i].time);
            assert(after[j].time == before[j].time);
        }
    }
    if unique_in(before, other) {
        assert forall|i: int, j: int|
            0 <= i < j < after.len() && after[i].time@ == after[j].time@ && kind_of(
                #[trigger] after[i].data,
                other,
            ) is Some implies kind_of(after[i].data, other) != kind_of(
            #[trigger] after[j].data,
            other,
        ) by {
            lemma_removed_kind(before[i], other);
            lemma_removed_kind(before[j], other);
            assert(after[i].time == before[i].time);
            assert(after[j].time == before[j].time);
            if kind_of(after[i].data, other) == kind_of(after[j].data, other) {
                assert(after[i] == before[i]);
                assert(after[j] == before[j]);
                assert(kind_of(before[i].data, other) != kind_of(before[j].data, other));
            }
        }
    }
}

/// Removing objects that a pass looks at keeps the long notes of the lanes
/// that the pass does not look at.
pub proof fn lemma_refines_keeps_lane(before: Seq<Obj>, after: Seq<Obj>, scope: Scope, lane: usize)
    requires
        refines(before, after, scope),
        scope != Scope::Notes(lane),
        long_notes_whole(before, lane),
    ensures
        long_notes_whole(after, lane),
        long_notes_clear(before, lane) ==> long_notes_clear(after, lane),
{
    let n = before.len() as int;
    assert forall|m: int| 0 <= m < n implies is_start(#[trigger] after[m], lane) == is_start(
        before[m],
        lane,
    ) && is_done(after[m], lane) == is_done(before[m], lane) by {
        lemma_removed_kind(before[m], scope);
    }
    assert forall|m: int| 0 <= m <= n implies open_after(after, lane, m) == open_after(
        before,
        lane,
        m,
    ) by {
        lemma_open_after_prefix(after, before, lane, m);
    }
    assert forall|m: int| 0 <= m < n implies (is_start(#[trigger] after[m], lane) ==> !open_after(
        after,
        lane,
        m,
    )) && (is_done(after[m], lane) ==> open_after(after, lane, m)) by {
        assert(is_start(before[m], lane) ==> !open_after(before, lane, m));
    }
    if long_notes_clear(before, lane) {
        assert forall|m: int| 0 <= m < n && is_hit(#[trigger] after[m], lane) implies !open_after(
            after,
            lane,
            m,
        ) by {
            lemma_removed_kind(before[m], scope);
            assert(after[m] == before[m]);
        }
    }
}

/// Putting the notes of one lane in order leaves them with no two of one
/// kind on one position and with whole long notes.
pub proof fn lemma_fix_lane(objs: Seq<Obj>, lane: usize)
    requires
        sorted_by_time(objs),
    ensures
        refines(objs, fix_lane(objs, lane), Scope::Notes(lane)),
        unique_in(fix_lane(objs, lane), Scope::Notes(lane)),
        long_notes_whole(fix_lane(objs, lane), lane),
        long_notes_clear(fix_lane(objs, lane), lane),
{
    let scope = Scope::Notes(lane);
    lemma_fix_runs_unique(objs, scope, 0, false);
    lemma_fix_runs_alternate(objs, lane, 0, false);
    let (fixed, inside) = fix_runs(objs, scope, 0, false);
    if inside {
        lemma_without_last_start(fixed, lane);
        let r = without_last_start(fixed, lane);
        lemma_refines_keeps(fixed, r, scope, scope);
        assert forall|i: int| 0 <= i < objs.len() implies (#[trigger] r[i]) == objs[i] || (kind_of(
            objs[i].data,
            scope,
        ) is Some && r[i] == removed(objs[i])) by {
            lemma_removed_kind(objs[i], scope);
            assert(fixed[i] == objs[i] || (kind_of(objs[i].data, scope) is Some && fixed[i]
                == removed(objs[i])));
            assert(r[i] == fixed[i] || (kind_of(fixed[i].data, scope) is Some && r[i] == removed(
                fixed[i],
            )));
        }
    }
}

/// What holds of the objects once the notes of the first `n` lanes were put
/// in order.
pub proof fn lemma_fix_lanes(objs: Seq<Obj>, n: int)
    requires
        sorted_by_time(objs),
        0 <= n <= NLANES,
    ensures
        sorted_by_time(fix_lanes(objs, n)),
        fix_lanes(objs, n).len() == objs.len(),
        forall|lane: usize|
            lane < n ==> #[trigger] unique_on_lane(fix_lanes(objs, n), lane),
        forall|lane: usize| lane < n ==> #[trigger] long_notes_whole(fix_lanes(objs, n), lane),
        forall|lane: usize| lane < n ==> #[trigger] long_notes_clear(fix_lanes(objs, n), lane),
        forall|i: int| 0 <= i < objs.len() ==> (#[trigger] fix_lanes(objs, n)[i]).time == objs[i].time,
    decreases n,
{
    if n > 0 {
        lemma_fix_lanes(objs, n - 1);
        let before = fix_lanes(objs, n - 1);
        let last = (n - 1) as usize;
        lemma_fix_lane(before, last);
        let after = fix_lane(before, last);
        lemma_refines_keeps(before, after, Scope::Notes(last), Scope::Notes(last));
        assert forall|lane: usize| lane < n implies #[trigger] unique_on_lane(after, lane) by {
            if lane < n - 1 {
                assert(unique_on_lane(before, lane));
                lemma_refines_keeps(before, after, Scope::Notes(last), Scope::Notes(lane));
            }
        }
        assert forall|lane: usize| lane < n implies #[trigger] long_notes_whole(after, lane) by {
            if lane < n - 1 {
                lemma_refines_keeps_lane(before, after, Scope::Notes(last), lane);
            }
        }
        assert forall|lane: usize| lane < n implies #[trigger] long_notes_clear(after, lane) by {
            if lane < n - 1 {
                assert(long_notes_whole(before, lane));
                assert(long_notes_clear(before, lane));
                lemma_refines_keeps_lane(before, after, Scope::Notes(last), lane);
            }
        }
        assert forall|i: int| 0 <= i < objs.len() implies (#[trigger] after[i]).time
            == objs[i].time by {
            assert(before[i].time == objs[i].time);
        }
    }
}

/// A sanitized chart is sorted by position; no lane holds two objects of
/// one kind on one position, and no two effects of one kind stand on one
/// position; on every lane the starts and ends of long notes take turns,
/// with none left open; and no visible note or bomb of a lane stands
/// between the start of a long note of that lane and its end.
pub proof fn lemma_sanitized(objs: Seq<Obj>)
    ensures
        sorted_by_time(sanitized(objs)),
        sanitized(objs).len() == objs.len(),
        unique_in(sanitized(objs), Scope::Effects),
        forall|lane: usize| lane < NLANES ==> #[trigger] unique_on_lane(sanitized(objs), lane),
        forall|lane: usize| lane < NLANES ==> #[trigger] long_notes_whole(sanitized(objs), lane),
        forall|lane: usize| lane < NLANES ==> #[trigger] long_notes_clear(sanitized(objs), lane),
{
    let sorted = sort_by_time(objs);
    lemma_sort_by_time(objs);
    lemma_fix_lanes(sorted, NLANES as int);
    let lanes = fix_lanes(sorted, NLANES as int);
    lemma_fix_runs_unique(lanes, Scope::Effects, 0, false);
    let r = sanitized(objs);
    lemma_refines_keeps(lanes, r, Scope::Effects, Scope::Effects);
    assert forall|lane: usize| lane < NLANES implies #[trigger] unique_on_lane(r, lane) by {
        assert(unique_on_lane(lanes, lane));
        lemma_refines_keeps(lanes, r, Scope::Effects, Scope::Notes(lane));
    }
    assert forall|lane: usize| lane < NLANES implies #[trigger] long_notes_whole(r, lane) by {
        lemma_refines_keeps_lane(lanes, r, Scope::Effects, lane);
    }
    assert forall|lane: usize| lane < NLANES implies #[trigger] long_notes_clear(r, lane) by {
        assert(long_notes_whole(lanes, lane));
        assert(long_notes_clear(lanes, lane));
        lemma_refines_keeps_lane(lanes, r, Scope::Effects, lane);
    }
}

/// In a lane whose long notes are whole, the next start or end of a long
/// note behind a start is an end.
pub proof fn lemma_start_has_end(objs: Seq<Obj>, lane: usize, i: int) -> (j: int)
    requires
        long_notes_whole(objs, lane),
        0 <= i < objs.len(),
        is_start(objs[i], lane),
    ensures
        i < j < objs.len(),
        is_done(objs[j], lane),
        forall|m: int| i < m < j ==> !is_start(#[trigger] objs[m], lane) && !is_done(objs[m], lane),
{
    lemma_next_end(objs, lane, i, objs.len() as int)
}

/// In a lane whose long notes are whole, the last start or end of a long
/// note before an end is a start.
pub proof fn lemma_end_has_start(objs: Seq<Obj>, lane: usize, j: int) -> (i: int)
    requires
        long_notes_whole(objs, lane),
        0 <= j < objs.len(),
        is_done(objs[j], lane),
    ensures
        0 <= i < j,
        is_start(objs[i], lane),
        forall|m: int| i < m < j ==> !is_start(#[trigger] objs[m], lane) && !is_done(objs[m], lane),
{
    assert(open_after(objs, lane, j));
    lemma_open_has_start(objs, lane, j);
    last_start(objs, lane, j)
}

/// In a lane whose long notes are clear, no visible note and no bomb of
/// the lane stands behind the start of a long note before the next start
/// or end of one.
pub proof fn lemma_nothing_inside(objs: Seq<Obj>, lane: usize, i: int, m: int)
    requires
        long_notes_clear(objs, lane),
        0 <= i < m < objs.len(),
        is_start(objs[i], lane),
        forall|q: int| i < q < m ==> !is_start(#[trigger] objs[q], lane) && !is_done(objs[q], lane),
    ensures
        !is_hit(objs[m], lane),
{
    lemma_open_after_range(objs, lane, i + 1, m);
    assert(open_after(objs, lane, i + 1));
}

/// Between a spot where a long note is open and a later one where none is,
/// the long note ends before another starts.
proof fn lemma_next_end(objs: Seq<Obj>, lane: usize, i: int, n: int) -> (j: int)
    requires
        alternates_upto(objs, lane, objs.len() as int),
        0 <= i < n <= objs.len(),
        is_start(objs[i], lane),
        !open_after(objs, lane, n),
    ensures
        i < j < n,
        is_done(objs[j], lane),
        forall|m: int| i < m < j ==> !is_start(#[trigger] objs[m], lane) && !is_done(objs[m], lane),
    decreases n - i,
{
    // the first start or end behind `i`
    let j = first_turn(objs, lane, i + 1, n);
    lemma_first_turn(objs, lane, i + 1, n);
    lemma_open_after_range(objs, lane, i + 1, j);
    assert(open_after(objs, lane, i + 1));
    if j == n {
        assert(false);
    }
    if is_start(objs[j], lane) {
        assert(!open_after(objs, lane, j));
        assert(false);
    }
    j
}

/// The first index from `a` up to `n` of an object that starts or ends a
/// long note on the lane, or `n`.
pub open spec fn first_turn(objs: Seq<Obj>, lane: usize, a: int, n: int) -> int
    decreases n - a,
{
    if a >= n || is_start(objs[a], lane) || is_done(objs[a], lane) {
        if a >= n {
            n
        } else {
            a
        }
    } else {
        first_turn(objs, lane, a + 1, n)
    }
}

pub proof fn lemma_first_turn(objs: Seq<Obj>, lane: usize, a: int, n: int)
    requires
        a <= n,
    ensures
        a <= first_turn(objs, lane, a, n) <= n,
        first_turn(objs, lane, a, n) < n ==> is_start(objs[first_turn(objs, lane, a, n)], lane)
            || is_done(objs[first_turn(objs, lane, a, n)], lane),
        forall|m: int|
            a <= m < first_turn(objs, lane, a, n) ==> !is_start(#[trigger] objs[m], lane)
                && !is_done(objs[m], lane),
    decreases n - a,
{
    if !(a >= n || is_start(objs[a], lane) || is_done(objs[a], lane)) {
        lemma_first_turn(objs, lane, a + 1, n);
    }
}

/// Takes the last start of a long note from the lane.
fn remove_last_start(objs: &mut Vec<Obj>, lane: usize)
    ensures
        final(objs)@ == without_last_start(old(objs)@, lane),
{
    let mut n = objs.len();
    while n > 0
        invariant
            n <= objs@.len(),
            *objs == *old(objs),
            last_start(objs@, lane, objs@.len() as int) == last_start(objs@, lane, n as int),
        decreases n,
    {
        let found = match objs[n - 1].data {
            ObjData::LNStart(l, _) => l.0 == lane,
            _ => false,
        };
        if found {
            let mut obj = objs[n - 1];
            remove_or_replace_note(&mut obj);
            objs[n - 1] = obj;
            return ;
        }
        n -= 1;
    }
}

/// Puts the objects of a chart in order, as [`sanitize_bms`] does.
pub fn sanitize_objs(objs: &mut Vec<Obj>)
    ensures
        final(objs)@ == sanitized(old(objs)@),
{
    sort_objs(objs);
    let ghost sorted = objs@;
    let mut lane: usize = 0;
    while lane < NLANES
        invariant
            lane <= NLANES,
            objs@ == fix_lanes(sorted, lane as int),
        decreases NLANES - lane,
    {
        let inside = sanitize(objs, Scope::Notes(lane));
        if inside {
            remove_last_start(objs, lane);
        }
        lane += 1;
    }
    let _ = sanitize(objs, Scope::Effects);
}

/// Sanitizes a chart: sorts its objects by position and removes what
/// cannot be played.
///
/// Afterwards the objects are sorted; no lane holds two objects of one kind
/// on one position, nor do two effects of one kind stand on one position;
/// on every lane the starts and ends of long notes take turns, with none
/// left open; and no visible note or bomb of a lane stands between the
/// start of a long note of that lane and its end.
pub fn sanitize_bms(bms: &mut Bms)
    ensures
        final(bms)@ == (BmsModel { objs: sanitized(old(bms)@.objs), ..old(bms)@ }),
        sorted_by_time(final(bms)@.objs),
        unique_in(final(bms)@.objs, Scope::Effects),
        forall|lane: usize| lane < NLANES ==> #[trigger] unique_on_lane(final(bms)@.objs, lane),
        forall|lane: usize| lane < NLANES ==> #[trigger] long_notes_whole(final(bms)@.objs, lane),
        forall|lane: usize| lane < NLANES ==> #[trigger] long_notes_clear(final(bms)@.objs, lane),
{
    proof {
        lemma_sanitized(bms@.objs);
    }
    sanitize_objs(&mut bms.objs);
}

/// Whether the object lies in no lane, or in a lane that is played.
pub open spec fn in_layout(kinds: Seq<Option<KeyKind>>, data: ObjData) -> bool {
    match data.lane() {
        Some(lane) => lane.0 < kinds.len() && kinds[lane.0 as int] is Some,
        None => true,
    }
}

/// The first `n` objects without those in lanes that are not played, and
/// without placeholders. What is removed leaves its sound behind as
/// background music, if it is a note with a sound.
pub open spec fn compacted_upto(objs: Seq<Obj>, kinds: Seq<Option<KeyKind>>, n: int) -> Seq<Obj>
    decreases n,
{
    if n <= 0 {
        Seq::empty()
    } else {
        let before = compacted_upto(objs, kinds, n - 1);
        let obj = if in_layout(kinds, objs[n - 1].data) {
            objs[n - 1]
        } else {
            removed(objs[n - 1])
        };
        if obj.data is Deleted {
            before
        } else {
            before.push(obj)
        }
    }
}

/// The objects without those in lanes that are not played, and without
/// placeholders.
pub open spec fn compacted(objs: Seq<Obj>, kinds: Seq<Option<KeyKind>>) -> Seq<Obj> {
    compacted_upto(objs, kinds, objs.len() as int)
}

/// What is left is in lanes that are played, holds no placeholder, and is
/// in the order that it was in.
pub proof fn lemma_compacted(objs: Seq<Obj>, kinds: Seq<Option<KeyKind>>, n: int)
    requires
        0 <= n <= objs.len(),
    ensures
        compacted_upto(objs, kinds, n).len() <= n,
        forall|i: int|
            0 <= i < compacted_upto(objs, kinds, n).len() ==> in_layout(
                kinds,
                (#[trigger] compacted_upto(objs, kinds, n)[i]).data,
            ) && !(compacted_upto(objs, kinds, n)[i].data is Deleted),
        sorted_by_time(objs) ==> sorted_by_time(compacted_upto(objs, kinds, n)) && forall|i: int|
            0 <= i < compacted_upto(objs, kinds, n).len() && n > 0 ==> (#[trigger] compacted_upto(
                objs,
                kinds,
                n,
            )[i]).time@ <= objs[n - 1].time@,
    decreases n,
{
    if n > 0 {
        lemma_compacted(objs, kinds, n - 1);
        let before = compacted_upto(objs, kinds, n - 1);
        let after = compacted_upto(objs, kinds, n);
        if sorted_by_time(objs) {
            assert forall|i: int| 0 <= i < before.len() implies (#[trigger] before[i]).time@
                <= objs[n - 1].time@ by {
                if n > 1 {
                    assert(before[i].time@ <= objs[n - 2].time@);
                }
            }
            assert forall|i: int, j: int| 0 <= i <= j < after.len() implies after[i].time@
                <= after[j].time@ by {
                if j < before.len() {
                    assert(after[i] == before[i] && after[j] == before[j]);
                } else if i < before.len() {
                    assert(after[i] == before[i]);
                }
            }
        }
    }
}

/// Removes the objects in lanes that are not played, and the placeholders
/// that sanitizing leaves.
pub fn compact_bms(bms: &mut Bms, keyspec: &KeySpec)
    ensures
        final(bms)@ == (BmsModel { objs: compacted(old(bms)@.objs, keyspec.kinds@), ..old(bms)@ }),
        forall|i: int|
            0 <= i < final(bms)@.objs.len() ==> in_layout(
                keyspec.kinds@,
                (#[trigger] final(bms)@.objs[i]).data,
            ) && !(final(bms)@.objs[i].data is Deleted),
        sorted_by_time(old(bms)@.objs) ==> sorted_by_time(final(bms)@.objs),
{
    let mut kept: Vec<Obj> = Vec::new();
    let mut i: usize = 0;
    while i < bms.objs.len()
        invariant
            i <= bms.objs@.len(),
            *bms == *old(bms),
            kept@ == compacted_upto(bms.objs@, keyspec.kinds@, i as int),
        decreases bms.objs@.len() - i,
    {
        let mut obj = bms.objs[i];
        let played = match obj.data {
            ObjData::Visible(lane, _) | ObjData::Invisible(lane, _) | ObjData::LNStart(lane, _)
            | ObjData::LNDone(lane, _) | ObjData::Bomb(lane, _, _) => lane.0 < keyspec.kinds.len()
                && keyspec.kinds[lane.0].is_some(),
            _ => true,
        };
        if !played {
            remove_or_replace_note(&mut obj);
        }
        if !matches!(obj.data, ObjData::Deleted) {
            kept.push(obj);
        }
        i += 1;
    }
    proof {
        lemma_compacted(bms.objs@, keyspec.kinds@, bms.objs@.len() as int);
    }
    bms.objs = kept;
}

} // verus!
