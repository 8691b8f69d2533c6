//! The speeds at which the notes fall, and the beep that tells of a
//! change of speed.
//!
//! The speed is changed in steps, from one mark to the next. The speed
//! itself may stand between two marks, and a mark that is less than a
//! thousandth away from it counts as the speed itself.

use vstd::prelude::*;
use crate::ratio::{canonical, lemma_quot_arith, quot, Ratio};
use crate::replay::lemma_representable;

verus! {

/// The number of marks.
pub const NMARKS: usize = 25;

/// The marks in tenths, from the slowest to the fastest.
pub open spec fn speed_marks() -> Seq<i64> {
    seq![1, 2, 4, 6, 8, 10, 12, 15, 20, 25, 30, 35, 40, 45, 50, 55, 60, 70, 80, 100, 150, 250, 400, 600, 990]
}

/// The mark at the place `i`.
pub open spec fn mark(i: int) -> real {
    quot(speed_marks()[i] as int, 10)
}

/// Whether the mark at the place `i` is slower than the speed, by more
/// than a thousandth.
pub open spec fn is_slower(i: int, speed: real) -> bool {
    mark(i) + quot(1, 1000) < speed
}

/// Whether the mark at the place `i` is faster than the speed, by more
/// than a thousandth.
pub open spec fn is_faster(i: int, speed: real) -> bool {
    mark(i) - quot(1, 1000) > speed
}

/// The first place at or behind `i` whose mark is not slower than the
/// speed, or the number of marks if there is none.
pub open spec fn first_not_slower(i: int, speed: real) -> int
    decreases NMARKS - i,
{
    if 0 <= i < NMARKS && is_slower(i, speed) {
        first_not_slower(i + 1, speed)
    } else {
        i
    }
}

/// The last place before `i` whose mark is not faster than the speed, or
/// -1 if there is none.
pub open spec fn last_not_faster(i: int, speed: real) -> int
    decreases i,
{
    if 0 < i <= NMARKS && is_faster(i - 1, speed) {
        last_not_faster(i - 1, speed)
    } else {
        i - 1
    }
}

/// The mark that is one step slower than the speed: the fastest of the
/// marks that are slower. There is none where no mark is slower, and none
/// where every mark is.
pub open spec fn slower_mark(speed: real) -> Option<real> {
    let k = first_not_slower(0, speed);
    if 0 < k < NMARKS {
        Some(mark(k - 1))
    } else {
        None
    }
}

/// The mark that is one step faster than the speed: the slowest of the
/// marks that are faster. There is none where no mark is faster, and none
/// where every mark is.
pub open spec fn faster_mark(speed: real) -> Option<real> {
    let k = last_not_faster(NMARKS as int, speed);
    if 0 <= k < NMARKS - 1 {
        Some(mark(k + 1))
    } else {
        None
    }
}

/// The marks in tenths.
fn marks() -> (r: [i64; 25])
    ensures
        r@ == speed_marks(),
{
    let r: [i64; 25] = [
        1, 2, 4, 6, 8, 10, 12, 15, 20, 25, 30, 35, 40, 45, 50, 55, 60, 70, 80, 100, 150, 250, 400, 600, 990,
    ];
    assert(r@ =~= speed_marks());
    r
}

/// The mark of `tenths` tenths.
fn mark_of(tenths: i64) -> (r: Ratio)
    requires
        0 < tenths <= 990,
    ensures
        r@ == quot(tenths as int, 10),
        r == canonical(r@),
{
    proof {
        lemma_representable(tenths as int, 10);
    }
    Ratio::new(tenths, 10).unwrap()
}

/// The mark of `tenths` tenths and a thousandth more, or a thousandth
/// less where `up` is not set.
fn near_mark(tenths: i64, up: bool) -> (r: Ratio)
    requires
        0 < tenths <= 990,
    ensures
        r@ == if up {
            quot(tenths as int, 10) + quot(1, 1000)
        } else {
            quot(tenths as int, 10) - quot(1, 1000)
        },
{
    let n: i64 = if up {
        1000 * tenths + 10
    } else {
        1000 * tenths - 10
    };
    proof {
        lemma_quot_arith(tenths as int, 10, 1, 1000);
        lemma_representable(n as int, 10000);
    }
    Ratio::new(n, 10000).unwrap()
}

/// Finds the mark that is one step slower than the speed.
pub fn next_speed_mark(current: &Ratio) -> (r: Option<Ratio>)
    ensures
        r is Some <==> slower_mark(current@) is Some,
        r matches Some(v) ==> slower_mark(current@) == Some(v@) && v == canonical(v@),
{
    let table = marks();
    let mut prev: Option<Ratio> = None;
    let mut i: usize = 0;
    while i < NMARKS
        invariant
            i <= NMARKS,
            table@ == speed_marks(),
            first_not_slower(0, current@) == first_not_slower(i as int, current@),
            i == 0 ==> prev is None,
            i > 0 ==> (prev matches Some(v) && v@ == mark(i - 1) && v == canonical(v@)),
        decreases NMARKS - i,
    {
        let tenths = table[i];
        assert(0 < tenths <= 990);
        if near_mark(tenths, true).lt(current) {
            prev = Some(mark_of(tenths));
        } else {
            return prev;
        }
        i += 1;
    }
    None
}

/// Finds the mark that is one step faster than the speed.
pub fn previous_speed_mark(current: &Ratio) -> (r: Option<Ratio>)
    ensures
        r is Some <==> faster_mark(current@) is Some,
        r matches Some(v) ==> faster_mark(current@) == Some(v@) && v == canonical(v@),
{
    let table = marks();
    let mut next: Option<Ratio> = None;
    let mut i: usize = NMARKS;
    while i > 0
        invariant
            i <= NMARKS,
            table@ == speed_marks(),
            last_not_faster(NMARKS as int, current@) == last_not_faster(i as int, current@),
            i == NMARKS ==> next is None,
            i < NMARKS ==> (next matches Some(v) && v@ == mark(i as int) && v == canonical(v@)),
        decreases i,
    {
        let tenths = table[i - 1];
        assert(0 < tenths <= 990);
        if current.lt(&near_mark(tenths, false)) {
            next = Some(mark_of(tenths));
        } else {
            assert(!is_faster(i - 1, current@));
            assert(last_not_faster(i as int, current@) == i - 1);
            return next;
        }
        i -= 1;
    }
    None
}

/// The number of samples of the beep.
pub const BEEP_SAMPLES: usize = 12000;

/// The sample of the beep at the place `i`: a sawtooth with a period of
/// 28 samples, which fades out towards the end.
pub open spec fn beep_sample(i: int) -> int {
    let loudness = (12000 - i) * (12000 - i) / 50000;
    (i % 28 - 14) * if loudness < 2000 {
        loudness
    } else {
        2000
    }
}

/// The beep that sounds when the speed changes, sample by sample.
pub fn beep_samples() -> (r: Vec<i32>)
    ensures
        r@.len() == BEEP_SAMPLES,
        forall|i: int| 0 <= i < BEEP_SAMPLES ==> r@[i] == beep_sample(i),
{
    let mut r: Vec<i32> = Vec::new();
    let mut i: i32 = 0;
    while i < 12000
        invariant
            0 <= i <= 12000,
            r@.len() == i,
            forall|j: int| 0 <= j < i ==> r@[j] == beep_sample(j),
        decreases 12000 - i,
    {
        let rest: i32 = 12000 - i;
        assert(0 < rest * rest <= 144000000) by (nonlinear_arith)
            requires
                0 < rest <= 12000,
        {
        }
        let loudness: i32 = rest * rest / 50000;
        let level: i32 = if loudness < 2000 {
            loudness
        } else {
            2000
        };
        assert(-28000 <= (i % 28 - 14) * level <= 28000) by (nonlinear_arith)
            requires
                -14 <= i % 28 - 14 <= 13,
                0 <= level <= 2000,
        {
        }
        r.push((i % 28 - 14) * level);
        i += 1;
    }
    r
}

} // verus!
