//! Positions and distances on a time line whose measures differ in
//! length.
//!
//! A position counts measures: its whole part is the number of a measure,
//! its fraction the place within that measure. Each measure has a scaling
//! factor, one unless the chart says otherwise, and the distance that a
//! measure covers is that factor. [`position_at`] goes a distance forward
//! from a position, and [`distance_between`] measures the distance between
//! two positions.

use vstd::prelude::*;
use crate::bms::Bms;
use crate::ratio::{canonical, representable, Ratio};

verus! {

/// The scaling factor of a measure: what the list holds for it, and one for
/// a measure that the list does not reach.
pub open spec fn shorten_at(shortens: Seq<Ratio>, measure: int) -> real {
    if 0 <= measure < shortens.len() {
        shortens[measure]@
    } else {
        1real
    }
}

/// The scaling factor of a measure, as it is kept.
pub open spec fn shorten_ratio(shortens: Seq<Ratio>, measure: int) -> Ratio {
    if 0 <= measure < shortens.len() {
        shortens[measure]
    } else {
        canonical(1real)
    }
}

/// Whether every scaling factor is above zero.
pub open spec fn shortens_positive(shortens: Seq<Ratio>) -> bool {
    forall|i: int| 0 <= i < shortens.len() ==> (#[trigger] shortens[i])@ > 0real
}

/// The position that lies `rem` behind the start of the measure `i`, where
/// `rem` is not below zero.
pub open spec fn advance(shortens: Seq<Ratio>, i: int, rem: real) -> real
    decreases shortens.len() - i,
{
    let s = shorten_at(shortens, i);
    if i >= shortens.len() {
        i as real + rem
    } else if rem < s {
        i as real + rem / s
    } else {
        advance(shortens, i + 1, rem - s)
    }
}

/// The position that lies the distance `offset` behind the position
/// `base`.
pub open spec fn position_at(shortens: Seq<Ratio>, base: real, offset: real) -> real {
    let m = base.floor();
    let s = shorten_at(shortens, m);
    let tonext = (1real - (base - m as real)) * s;
    if offset < tonext {
        base + offset / s
    } else {
        advance(shortens, m + 1, offset - tonext)
    }
}

/// The distance that the measures from `a` up to `b` cover.
pub open spec fn span(shortens: Seq<Ratio>, a: int, b: int) -> real
    decreases b - a,
{
    if b <= a {
        0real
    } else {
        span(shortens, a, b - 1) + shorten_at(shortens, b - 1)
    }
}

/// The distance from the position `base` to the position `time`.
pub open spec fn distance_between(shortens: Seq<Ratio>, base: real, time: real) -> real {
    let bm = base.floor();
    let tm = time.floor();
    (time - tm as real) * shorten_at(shortens, tm) - (base - bm as real) * shorten_at(shortens, bm)
        + span(shortens, bm, tm)
}

/// The distance of a run of measures is that of its first measure and that
/// of the rest.
pub proof fn lemma_span_first(shortens: Seq<Ratio>, a: int, b: int)
    requires
        a < b,
    ensures
        span(shortens, a, b) == shorten_at(shortens, a) + span(shortens, a + 1, b),
    decreases b - a,
{
    if a + 1 < b {
        lemma_span_first(shortens, a, b - 1);
    } else {
        assert(span(shortens, a, a) == 0real);
        assert(span(shortens, a + 1, a + 1) == 0real);
    }
}

/// Measures that the list does not reach cover one each.
pub proof fn lemma_span_ones(shortens: Seq<Ratio>, a: int, b: int)
    requires
        shortens.len() <= a <= b,
    ensures
        span(shortens, a, b) == (b - a) as real,
    decreases b - a,
{
    if a < b {
        lemma_span_ones(shortens, a, b - 1);
    }
}

/// Going on from the start of a measure lands in that measure or a later
/// one, and the distance gone is what was asked for.
pub proof fn lemma_advance(shortens: Seq<Ratio>, i: int, rem: real)
    requires
        shortens_positive(shortens),
        rem >= 0real,
    ensures
        advance(shortens, i, rem).floor() >= i,
        (advance(shortens, i, rem) - advance(shortens, i, rem).floor() as real) * shorten_at(
            shortens,
            advance(shortens, i, rem).floor(),
        ) + span(shortens, i, advance(shortens, i, rem).floor()) == rem,
    decreases shortens.len() - i,
{
    let s = shorten_at(shortens, i);
    let p = advance(shortens, i, rem);
    assert(s > 0real);
    if i >= shortens.len() {
        let k = rem.floor();
        assert(p.floor() == i + k);
        lemma_span_ones(shortens, i, i + k);
        assert(shorten_at(shortens, i + k) == 1real);
    } else if rem < s {
        let q = rem / s;
        assert(0real <= q < 1real && q * s == rem) by (nonlinear_arith)
            requires
                0real <= rem < s,
                q == rem / s,
        {
        }
        assert(p.floor() == i);
        assert(span(shortens, i, i) == 0real);
    } else {
        lemma_advance(shortens, i + 1, rem - s);
        lemma_span_first(shortens, i, p.floor());
    }
}

/// Going no distance leaves a position where it is.
pub proof fn lemma_position_at_zero(shortens: Seq<Ratio>, base: real)
    requires
        shortens_positive(shortens),
    ensures
        position_at(shortens, base, 0real) == base,
{
    let m = base.floor();
    let s = shorten_at(shortens, m);
    let rest = 1real - (base - m as real);
    assert(s > 0real);
    assert(rest * s > 0real) by (nonlinear_arith)
        requires
            rest > 0real,
            s > 0real,
    {
    }
    assert(0real / s == 0real) by (nonlinear_arith)
        requires
            s > 0real,
    {
    }
}

/// The distance from a position to the position that lies a distance
/// behind it is that distance.
pub proof fn lemma_round_trip(shortens: Seq<Ratio>, base: real, d: real)
    requires
        shortens_positive(shortens),
        d >= 0real,
    ensures
        distance_between(shortens, base, position_at(shortens, base, d)) == d,
{
    let m = base.floor();
    let f = base - m as real;
    let s = shorten_at(shortens, m);
    let tonext = (1real - f) * s;
    let p = position_at(shortens, base, d);
    assert(s > 0real);
    if d < tonext {
        let q = d / s;
        assert(0real <= q && q * s == d && f + q < 1real) by (nonlinear_arith)
            requires
                0real <= d < (1real - f) * s,
                s > 0real,
                q == d / s,
        {
        }
        assert(p == base + q);
        assert(p.floor() == m);
        assert(span(shortens, m, m) == 0real);
        assert((f + q) * s - f * s == q * s) by (nonlinear_arith);
    } else {
        let rem = d - tonext;
        lemma_advance(shortens, m + 1, rem);
        let pm = p.floor();
        lemma_span_first(shortens, m, pm);
        assert((1real - f) * s + f * s == s) by (nonlinear_arith);
    }
}

/// What [`Bms::adjust_object_time`] yields for no distance, where it
/// yields anything, is the position it was given.
pub proof fn lemma_adjust_zero(shortens: Seq<Ratio>, base: Ratio)
    requires
        shortens_positive(shortens),
        base == canonical(base@),
    ensures
        canonical(position_at(shortens, base@, 0real)) == base,
{
    lemma_position_at_zero(shortens, base@);
}

/// What [`Bms::adjust_object_position`] yields for the position that
/// [`Bms::adjust_object_time`] has yielded for a distance, where both yield
/// anything, is that distance.
pub proof fn lemma_adjust_round_trip(shortens: Seq<Ratio>, base: real, d: Ratio)
    requires
        shortens_positive(shortens),
        d@ >= 0real,
        d == canonical(d@),
        representable(position_at(shortens, base, d@)),
    ensures
        canonical(distance_between(shortens, base, canonical(position_at(shortens, base, d@))@))
            == d,
{
    lemma_round_trip(shortens, base, d@);
    crate::ratio::lemma_canonical_value(position_at(shortens, base, d@));
}

/// Whether every number met on the way of [`advance`] can be represented.
pub open spec fn advance_fits(shortens: Seq<Ratio>, i: int, rem: real) -> bool
    decreases shortens.len() - i,
{
    let s = shorten_at(shortens, i);
    if i >= shortens.len() {
        representable(i as real + rem)
    } else if rem < s {
        s != 0real && representable(rem / s) && representable(i as real + rem / s)
    } else {
        i < i64::MAX && representable(rem - s) && advance_fits(shortens, i + 1, rem - s)
    }
}

/// Whether every number met on the way of [`position_at`] can be
/// represented.
pub open spec fn position_fits(shortens: Seq<Ratio>, base: real, offset: real) -> bool {
    let m = base.floor();
    let s = shorten_at(shortens, m);
    let f = base - m as real;
    let tonext = (1real - f) * s;
    &&& representable(f)
    &&& representable(1real - f)
    &&& representable(tonext)
    &&& if offset < tonext {
        s != 0real && representable(offset / s) && representable(base + offset / s)
    } else {
        m < i64::MAX && representable(offset - tonext) && advance_fits(
            shortens,
            m + 1,
            offset - tonext,
        )
    }
}

/// Whether `start` and the distance of each run of measures from `a` that
/// ends at or before `b` add up to a number that can be represented.
pub open spec fn sum_fits(shortens: Seq<Ratio>, start: real, a: int, b: int) -> bool
    decreases b - a,
{
    if b <= a {
        true
    } else {
        sum_fits(shortens, start, a, b - 1) && representable(start + span(shortens, a, b))
    }
}

/// Whether every number met on the way of [`distance_between`] can be
/// represented.
pub open spec fn distance_fits(shortens: Seq<Ratio>, base: real, time: real) -> bool {
    let bm = base.floor();
    let tm = time.floor();
    let bf = base - bm as real;
    let tf = time - tm as real;
    let start = tf * shorten_at(shortens, tm) - bf * shorten_at(shortens, bm);
    &&& representable(bf)
    &&& representable(tf)
    &&& representable(tf * shorten_at(shortens, tm))
    &&& representable(bf * shorten_at(shortens, bm))
    &&& representable(start)
    &&& sum_fits(shortens, start, bm, tm)
}

/// Where a sum cannot be represented, no longer sum is tried.
pub proof fn lemma_sum_fits_prefix(shortens: Seq<Ratio>, start: real, a: int, b: int, c: int)
    requires
        b <= c,
        sum_fits(shortens, start, a, c),
    ensures
        sum_fits(shortens, start, a, b),
    decreases c - b,
{
    if b < c && a < c {
        lemma_sum_fits_prefix(shortens, start, a, b, c - 1);
    }
}

impl Bms {
    /// The scaling factor of a measure. It is one for every measure that the
    /// list of factors does not reach.
    pub fn shorten(&self, measure: i64) -> (r: Ratio)
        ensures
            r@ == shorten_at(self.shortens@, measure as int),
            r == shorten_ratio(self.shortens@, measure as int),
    {
        if measure < 0 || measure as u64 >= self.shortens.len() as u64 {
            Ratio::from_int(1)
        } else {
            self.shortens[measure as usize]
        }
    }

    /// The position that lies the distance `offset` behind the position
    /// `base`: the scaling factors are taken one measure after the other, so
    /// that, where the first four measures are scaled to a quarter each, the
    /// distance two from the position zero ends at the position five. `None`
    /// where a number on the way cannot be represented.
    pub fn adjust_object_time(&self, base: &Ratio, offset: &Ratio) -> (r: Option<Ratio>)
        ensures
            r is Some <==> position_fits(self.shortens@, base@, offset@),
            r matches Some(v) ==> v@ == position_at(self.shortens@, base@, offset@) && v
                == canonical(v@),
    {
        let m = base.floor();
        let s = self.shorten(m);
        let f = match base.sub(&Ratio::from_int(m)) {
            Some(f) => f,
            None => {
                return None;
            },
        };
        let rest = match Ratio::from_int(1).sub(&f) {
            Some(rest) => rest,
            None => {
                return None;
            },
        };
        let tonext = match rest.mul(&s) {
            Some(tonext) => tonext,
            None => {
                return None;
            },
        };
        if offset.lt(&tonext) {
            match offset.div(&s) {
                Some(q) => base.add(&q),
                None => None,
            }
        } else {
            if m == i64::MAX {
                return None;
            }
            let mut rem = match offset.sub(&tonext) {
                Some(rem) => rem,
                None => {
                    return None;
                },
            };
            let mut i: i64 = m + 1;
            loop
                invariant
                    rem == canonical(rem@),
                    advance(self.shortens@, i as int, rem@) == position_at(
                        self.shortens@,
                        base@,
                        offset@,
                    ),
                    advance_fits(self.shortens@, i as int, rem@) == position_fits(
                        self.shortens@,
                        base@,
                        offset@,
                    ),
                decreases self.shortens@.len() - i,
            {
                if i >= 0 && i as u64 >= self.shortens.len() as u64 {
                    return Ratio::from_int(i).add(&rem);
                }
                let cur = self.shorten(i);
                if rem.lt(&cur) {
                    return match rem.div(&cur) {
                        Some(q) => Ratio::from_int(i).add(&q),
                        None => None,
                    };
                }
                if i == i64::MAX {
                    return None;
                }
                rem = match rem.sub(&cur) {
                    Some(rem) => rem,
                    None => {
                        return None;
                    },
                };
                i += 1;
            }
        }
    }

    /// The distance from the position `base` to the position `time`, where
    /// each measure counts by its scaling factor: where the first measure is
    /// scaled to six fifths, the distance from the position zero to the
    /// position two is eleven fifths. `None` where a number on the way cannot
    /// be represented.
    pub fn adjust_object_position(&self, base: &Ratio, time: &Ratio) -> (r: Option<Ratio>)
        ensures
            r is Some <==> distance_fits(self.shortens@, base@, time@),
            r matches Some(v) ==> v@ == distance_between(self.shortens@, base@, time@) && v
                == canonical(v@),
    {
        let bm = base.floor();
        let tm = time.floor();
        let bf = match base.sub(&Ratio::from_int(bm)) {
            Some(x) => x,
            None => {
                return None;
            },
        };
        let tf = match time.sub(&Ratio::from_int(tm)) {
            Some(x) => x,
            None => {
                return None;
            },
        };
        let a = match tf.mul(&self.shorten(tm)) {
            Some(x) => x,
            None => {
                return None;
            },
        };
        let b = match bf.mul(&self.shorten(bm)) {
            Some(x) => x,
            None => {
                return None;
            },
        };
        let mut pos = match a.sub(&b) {
            Some(x) => x,
            None => {
                return None;
            },
        };
        let ghost start = pos@;
        let mut i = bm;
        assert(span(self.shortens@, bm as int, bm as int) == 0real);
        while i < tm
            invariant
                bm <= i,
                i <= tm || tm < bm,
                tm < bm ==> i == bm,
                pos@ == start + span(self.shortens@, bm as int, i as int),
                pos == canonical(pos@),
                sum_fits(self.shortens@, start, bm as int, i as int),
                distance_fits(self.shortens@, base@, time@) == sum_fits(
                    self.shortens@,
                    start,
                    bm as int,
                    tm as int,
                ),
                distance_between(self.shortens@, base@, time@) == start + span(
                    self.shortens@,
                    bm as int,
                    tm as int,
                ),
            decreases tm - i,
        {
            pos = match pos.add(&self.shorten(i)) {
                Some(x) => x,
                None => {
                    proof {
                        if sum_fits(self.shortens@, start, bm as int, tm as int) {
                            lemma_sum_fits_prefix(self.shortens@, start, bm as int, i + 1, tm as int);
                        }
                    }
                    return None;
                },
            };
            i += 1;
        }
        proof {
            if tm < bm {
                assert(i == bm);
                assert(span(self.shortens@, bm as int, tm as int) == 0real);
                assert(span(self.shortens@, bm as int, bm as int) == 0real);
            } else {
                assert(i == tm);
            }
        }
        Some(pos)
    }
}

} // verus!
