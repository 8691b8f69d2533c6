//! Cursors over the objects of a chart.
//!
//! A chart that is played is never changed again, so any number of
//! pointers may share it. A pointer is an index into the objects of the
//! chart; it may stand behind the last object.

use std::rc::Rc;
use vstd::prelude::*;
use crate::bms::Bms;
use crate::obj::{Obj, ObjData};
use crate::ratio::{abs_real, representable, Overflow, Ratio};

verus! {

/// A position among the objects of a chart.
pub struct Pointer {
    /// The chart.
    pub bms: Rc<Bms>,
    /// The index of the object pointed at, or the number of objects.
    pub pos: usize,
    /// Where the next call of a `next_*` method moves the pointer first. This
    /// lets such a call be made before the object at hand is looked at,
    /// without skipping it: the first call moves nothing.
    pub next: Option<usize>,
}

/// The first index from `pos` on of an object that does not lie before
/// `limit`, or the number of objects.
pub open spec fn first_from(objs: Seq<Obj>, pos: int, limit: real) -> int
    decreases objs.len() - pos,
{
    if 0 <= pos < objs.len() && objs[pos].time@ < limit {
        first_from(objs, pos + 1, limit)
    } else {
        pos
    }
}

pub proof fn lemma_first_from(objs: Seq<Obj>, pos: int, limit: real)
    requires
        0 <= pos <= objs.len(),
    ensures
        pos <= first_from(objs, pos, limit) <= objs.len(),
        forall|i: int| pos <= i < first_from(objs, pos, limit) ==> (#[trigger] objs[i]).time@ < limit,
        first_from(objs, pos, limit) < objs.len() ==> objs[first_from(objs, pos, limit)].time@
            >= limit,
        first_from(objs, first_from(objs, pos, limit), limit) == first_from(objs, pos, limit),
    decreases objs.len() - pos,
{
    if pos < objs.len() && objs[pos].time@ < limit {
        lemma_first_from(objs, pos + 1, limit);
    }
}

impl Pointer {
    /// The objects of the chart.
    pub open spec fn objs(&self) -> Seq<Obj> {
        self.bms.objs@
    }

    /// Whether the pointer, and the place it would move to first, lie among
    /// the objects or right behind them.
    pub open spec fn wf(&self) -> bool {
        self.pos <= self.objs().len() && (self.next matches Some(next) ==> next
            <= self.objs().len())
    }

    /// The place from which the next call of a `next_*` method looks.
    pub open spec fn cursor(&self) -> usize {
        match self.next {
            Some(next) => next,
            None => self.pos,
        }
    }

    /// A pointer at the first object of the chart.
    pub fn new(bms: Rc<Bms>) -> (r: Pointer)
        ensures
            r.bms == bms,
            r.pos == 0,
            r.next is None,
            r.wf(),
    {
        Pointer { bms, pos: 0, next: None }
    }

    /// A pointer at the object with the index `pos`.
    pub fn new_with_pos(bms: Rc<Bms>, pos: usize) -> (r: Pointer)
        ensures
            r.bms == bms,
            r.pos == pos,
            r.next is None,
    {
        Pointer { bms, pos, next: None }
    }

    /// The position of the object pointed at.
    pub fn time(&self) -> (r: Ratio)
        requires
            self.pos < self.objs().len(),
        ensures
            r == self.objs()[self.pos as int].time,
    {
        self.bms.objs[self.pos].time
    }

    /// The number of the measure that holds the object pointed at.
    pub fn measure(&self) -> (r: i64)
        requires
            self.pos < self.objs().len(),
        ensures
            r == self.objs()[self.pos as int].time@.floor(),
    {
        self.bms.objs[self.pos].measure()
    }

    /// What the object pointed at is.
    pub fn data(&self) -> (r: ObjData)
        requires
            self.pos < self.objs().len(),
        ensures
            r == self.objs()[self.pos as int].data,
    {
        self.bms.objs[self.pos].data
    }

    /// Forgets where the next call of a `next_*` method would move first.
    pub fn reset(&mut self)
        ensures
            final(self).bms == old(self).bms,
            final(self).pos == old(self).pos,
            final(self).next is None,
    {
        self.next = None;
    }

    /// Moves forward to the first object that does not lie before `limit`.
    /// A second call with the same limit moves nothing.
    pub fn seek_until(&mut self, limit: &Ratio)
        ensures
            final(self).bms == old(self).bms,
            final(self).pos == first_from(old(self).objs(), old(self).pos as int, limit@),
            final(self).pos >= old(self).pos,
            final(self).next is None,
            old(self).pos <= old(self).objs().len() ==> final(self).wf(),
    {
        let nobjs = self.bms.objs.len();
        while self.pos < nobjs && self.bms.objs[self.pos].time.lt(limit)
            invariant
                self.bms == old(self).bms,
                nobjs == self.objs().len(),
                old(self).pos <= self.pos,
                old(self).pos <= nobjs ==> self.pos <= nobjs,
                first_from(self.objs(), self.pos as int, limit@) == first_from(
                    old(self).objs(),
                    old(self).pos as int,
                    limit@,
                ),
            decreases nobjs - self.pos,
        {
            self.pos += 1;
        }
        self.next = None;
    }

    /// Moves to the next object if it lies before `limit`, and says whether
    /// it does. The first call after a reset looks at the object pointed at
    /// without moving.
    pub fn next_until(&mut self, limit: &Ratio) -> (r: bool)
        ensures
            final(self).bms == old(self).bms,
            final(self).pos == old(self).cursor(),
            r == (final(self).pos < old(self).objs().len() && old(self).objs()[final(self).pos as int].time@
                < limit@),
            final(self).next == if r {
                Some((final(self).pos + 1) as usize)
            } else {
                None
            },
            old(self).wf() ==> final(self).wf(),
    {
        match self.next {
            Some(next) => {
                self.pos = next;
            },
            None => {},
        }
        if self.pos < self.bms.objs.len() && self.bms.objs[self.pos].time.lt(limit) {
            self.next = Some(self.pos + 1);
            true
        } else {
            self.next = None;
            false
        }
    }

    /// Moves to where `limit` points.
    pub fn seek_to(&mut self, limit: &Pointer)
        requires
            limit.bms == old(self).bms,
            limit.pos <= limit.objs().len(),
        ensures
            final(self).bms == old(self).bms,
            final(self).pos == limit.pos,
            final(self).next is None,
            final(self).wf(),
    {
        self.pos = limit.pos;
        self.next = None;
    }

    /// Moves to the next object if it comes before the one that `limit`
    /// points at, and says whether it does. The first call after a reset
    /// looks at the object pointed at without moving.
    pub fn next_to(&mut self, limit: &Pointer) -> (r: bool)
        requires
            limit.bms == old(self).bms,
        ensures
            final(self).bms == old(self).bms,
            final(self).pos == old(self).cursor(),
            r == (final(self).pos < limit.pos),
            final(self).next == if r {
                Some((final(self).pos + 1) as usize)
            } else {
                old(self).next
            },
            old(self).wf() && limit.pos <= limit.objs().len() ==> final(self).wf(),
    {
        match self.next {
            Some(next) => {
                self.pos = next;
            },
            None => {},
        }
        if self.pos >= limit.pos {
            return false;
        }
        self.next = Some(self.pos + 1);
        true
    }

    /// Moves behind the last object.
    pub fn seek_to_end(&mut self)
        ensures
            final(self).bms == old(self).bms,
            final(self).pos == old(self).objs().len(),
            final(self).next is None,
            final(self).wf(),
    {
        self.pos = self.bms.objs.len();
        self.next = None;
    }

    /// Moves to the next object if there is one, and says whether there
    /// is. The first call after a reset looks at the object pointed at
    /// without moving.
    pub fn next_to_end(&mut self) -> (r: bool)
        ensures
            final(self).bms == old(self).bms,
            final(self).pos == old(self).cursor(),
            r == (final(self).pos < final(self).objs().len()),
            final(self).next == if r {
                Some((final(self).pos + 1) as usize)
            } else {
                old(self).next
            },
            old(self).wf() ==> final(self).wf(),
    {
        match self.next {
            Some(next) => {
                self.pos = next;
            },
            None => {},
        }
        if self.pos >= self.bms.objs.len() {
            return false;
        }
        self.next = Some(self.pos + 1);
        true
    }

    /// Whether both pointers stand at the same object.
    pub fn same_pos(&self, other: &Pointer) -> (r: bool)
        requires
            self.bms == other.bms,
        ensures
            r == (self.pos == other.pos),
    {
        self.pos == other.pos
    }

    /// Whether this pointer stands before the other.
    pub fn before(&self, other: &Pointer) -> (r: bool)
        requires
            self.bms == other.bms,
        ensures
            r == (self.pos < other.pos),
    {
        self.pos < other.pos
    }
}

/// The first index from `pos` up to `n` of an object of which `cond` says
/// yes, or `n`.
pub open spec fn next_match<F: Fn(&Obj) -> bool>(objs: Seq<Obj>, cond: F, pos: int, n: int) -> int
    decreases n - pos,
{
    if pos >= n || call_ensures(cond, (&objs[pos],), true) {
        if pos >= n {
            n
        } else {
            pos
        }
    } else {
        next_match(objs, cond, pos + 1, n)
    }
}

/// The last index below `pos` of an object of which `cond` says yes, or
/// -1.
pub open spec fn previous_match<F: Fn(&Obj) -> bool>(objs: Seq<Obj>, cond: F, pos: int) -> int
    decreases pos,
{
    if pos <= 0 {
        -1
    } else if call_ensures(cond, (&objs[pos - 1],), true) {
        pos - 1
    } else {
        previous_match(objs, cond, pos - 1)
    }
}

/// Whether `cond` can be asked of every object and gives one answer for
/// each.
pub open spec fn decides<F: Fn(&Obj) -> bool>(cond: F) -> bool {
    forall|obj: Obj|
        #![trigger call_requires(cond, (&obj,))]
        call_requires(cond, (&obj,)) && !(call_ensures(cond, (&obj,), true) && call_ensures(
            cond,
            (&obj,),
            false,
        ))
}

impl Clone for Pointer {
    /// A pointer at the same object, with nothing kept of where a `next_*`
    /// method would move first.
    fn clone(&self) -> (r: Pointer)
        ensures
            r.bms == self.bms,
            r.pos == self.pos,
            r.next is None,
    {
        Pointer { bms: self.bms.clone(), pos: self.pos, next: None }
    }
}

impl Pointer {
    /// The index of the first object, from the one pointed at on, of which
    /// `cond` says yes.
    fn scan_forward<F: Fn(&Obj) -> bool>(&self, cond: &F) -> (r: Option<usize>)
        requires
            decides(*cond),
        ensures
            r is Some <==> next_match(self.objs(), *cond, self.pos as int, self.objs().len() as int)
                < self.objs().len(),
            r matches Some(i) ==> i == next_match(
                self.objs(),
                *cond,
                self.pos as int,
                self.objs().len() as int,
            ),
    {
        let nobjs = self.bms.objs.len();
        let mut i = self.pos;
        while i < nobjs
            invariant
                self.pos <= i,
                nobjs == self.objs().len(),
                decides(*cond),
                next_match(self.objs(), *cond, i as int, nobjs as int) == next_match(
                    self.objs(),
                    *cond,
                    self.pos as int,
                    nobjs as int,
                ),
            decreases nobjs - i,
        {
            let ghost obj = self.objs()[i as int];
            assert(call_requires(*cond, (&obj,)));
            if (*cond)(&self.bms.objs[i]) {
                return Some(i);
            }
            i += 1;
        }
        None
    }

    /// The index of the last object before the one pointed at of which
    /// `cond` says yes.
    fn scan_backward<F: Fn(&Obj) -> bool>(&self, cond: &F) -> (r: Option<usize>)
        requires
            self.pos <= self.objs().len(),
            decides(*cond),
        ensures
            r is Some <==> previous_match(self.objs(), *cond, self.pos as int) >= 0,
            r matches Some(i) ==> i == previous_match(self.objs(), *cond, self.pos as int) && i
                < self.pos,
    {
        let mut i = self.pos;
        while i > 0
            invariant
                i <= self.pos <= self.objs().len(),
                decides(*cond),
                previous_match(self.objs(), *cond, i as int) == previous_match(
                    self.objs(),
                    *cond,
                    self.pos as int,
                ),
            decreases i,
        {
            i -= 1;
            let ghost obj = self.objs()[i as int];
            assert(call_requires(*cond, (&obj,)));
            if (*cond)(&self.bms.objs[i]) {
                return Some(i);
            }
        }
        None
    }

    /// Finds the first object, from the one pointed at on, of which `cond`
    /// says yes. The pointer itself does not move.
    pub fn find_next_of_type<F: Fn(&Obj) -> bool>(&self, cond: F) -> (r: Option<Pointer>)
        requires
            decides(cond),
        ensures
            r is Some <==> next_match(self.objs(), cond, self.pos as int, self.objs().len() as int)
                < self.objs().len(),
            r matches Some(p) ==> p.bms == self.bms && p.next is None && p.pos == next_match(
                self.objs(),
                cond,
                self.pos as int,
                self.objs().len() as int,
            ),
    {
        match self.scan_forward(&cond) {
            Some(i) => Some(Pointer { bms: self.bms.clone(), pos: i, next: None }),
            None => None,
        }
    }

    /// Finds the last object before the one pointed at of which `cond` says
    /// yes. The pointer itself does not move.
    pub fn find_previous_of_type<F: Fn(&Obj) -> bool>(&self, cond: F) -> (r: Option<Pointer>)
        requires
            self.pos <= self.objs().len(),
            decides(cond),
        ensures
            r is Some <==> previous_match(self.objs(), cond, self.pos as int) >= 0,
            r matches Some(p) ==> p.bms == self.bms && p.next is None && p.pos == previous_match(
                self.objs(),
                cond,
                self.pos as int,
            ) && p.pos < self.pos,
    {
        match self.scan_backward(&cond) {
            Some(i) => Some(Pointer { bms: self.bms.clone(), pos: i, next: None }),
            None => None,
        }
    }
}

/// Which of two objects is taken as the closest to `base`: the one before
/// where only it exists or where it is closer, and else the one behind.
pub open spec fn closest(objs: Seq<Obj>, base: real, previous: int, next: int) -> int {
    if previous < 0 {
        if next < objs.len() {
            next
        } else {
            -1
        }
    } else if next >= objs.len() {
        previous
    } else if abs_real(objs[previous].time@ - base) < abs_real(objs[next].time@ - base) {
        previous
    } else {
        next
    }
}

/// Whether the two distances that tell the closest object can be
/// represented, where both objects exist.
pub open spec fn closest_fits(objs: Seq<Obj>, base: real, previous: int, next: int) -> bool {
    0 <= previous && next < objs.len() ==> representable(objs[previous].time@ - base)
        && representable(abs_real(objs[previous].time@ - base)) && representable(
        objs[next].time@ - base,
    ) && representable(abs_real(objs[next].time@ - base))
}

impl Pointer {
    /// Finds, of the last object before the one pointed at and the first
    /// from there on of which `cond` says yes, the one that is closer to
    /// the position `base`; the later one where both are as close. The
    /// pointer itself does not move.
    pub fn find_closest_of_type<F: Fn(&Obj) -> bool>(&self, base: &Ratio, cond: F) -> (r: Result<
        Option<Pointer>,
        Overflow,
    >)
        requires
            self.pos <= self.objs().len(),
            decides(cond),
        ensures
            r is Ok <==> closest_fits(
                self.objs(),
                base@,
                previous_match(self.objs(), cond, self.pos as int),
                next_match(self.objs(), cond, self.pos as int, self.objs().len() as int),
            ),
            r matches Ok(found) ==> {
                let at = closest(
                    self.objs(),
                    base@,
                    previous_match(self.objs(), cond, self.pos as int),
                    next_match(self.objs(), cond, self.pos as int, self.objs().len() as int),
                );
                &&& found is Some <==> at >= 0
                &&& found matches Some(p) ==> p.bms == self.bms && p.next is None && p.pos == at
                    && p.pos < self.objs().len()
            },
    {
        proof {
            lemma_next_match_bounds(self.objs(), cond, self.pos as int, self.objs().len() as int);
        }
        let previous = self.scan_backward(&cond);
        let next = self.scan_forward(&cond);
        let at = match (previous, next) {
            (None, None) => {
                return Ok(None);
            },
            (None, Some(next)) => next,
            (Some(previous), None) => previous,
            (Some(previous), Some(next)) => {
                let before = distance(&self.bms.objs[previous].time, base);
                let behind = distance(&self.bms.objs[next].time, base);
                match (before, behind) {
                    (Some(before), Some(behind)) => {
                        if before.lt(&behind) {
                            previous
                        } else {
                            next
                        }
                    },
                    _ => {
                        return Err(Overflow);
                    },
                }
            },
        };
        Ok(Some(Pointer { bms: self.bms.clone(), pos: at, next: None }))
    }
}

/// How far the position `time` lies from the position `base`.
pub fn distance(time: &Ratio, base: &Ratio) -> (r: Option<Ratio>)
    ensures
        r is Some <==> representable(time@ - base@) && representable(abs_real(time@ - base@)),
        r matches Some(d) ==> d@ == abs_real(time@ - base@),
{
    match time.sub(base) {
        Some(d) => d.abs(),
        None => None,
    }
}

pub proof fn lemma_next_match_bounds<F: Fn(&Obj) -> bool>(objs: Seq<Obj>, cond: F, pos: int, n: int)
    requires
        pos <= n,
    ensures
        pos <= next_match(objs, cond, pos, n) <= n,
        next_match(objs, cond, pos, n) < n ==> call_ensures(
            cond,
            (&objs[next_match(objs, cond, pos, n)],),
            true,
        ),
        forall|k: int|
            pos <= k < next_match(objs, cond, pos, n) ==> !call_ensures(
                cond,
                (&#[trigger] objs[k],),
                true,
            ),
    decreases n - pos,
{
    if !(pos >= n || call_ensures(cond, (&objs[pos],), true)) {
        lemma_next_match_bounds(objs, cond, pos + 1, n);
    }
}

} // verus!
