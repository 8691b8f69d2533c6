//! From the time on the wall to the position in the chart.
//!
//! While nothing changes, the position grows evenly with the time: by the
//! tempo, and against the scaling factor of the measure. The clock keeps
//! the last point at which something changed, in time and in position, and
//! reckons from there. A change of tempo or of scaling factor, and a stop,
//! move that point to where the change takes place, so that the position
//! never jumps.

use vstd::prelude::*;
use crate::obj::{Duration, BPM};
use crate::ratio::{canonical, representable, Overflow, Ratio};

verus! {

/// The milliseconds that `measure` measures take at the tempo `bpm`.
pub open spec fn measure_to_msec(bpm: real, measure: real) -> real {
    measure * 240000real / bpm
}

/// The measures that pass in `msec` milliseconds at the tempo `bpm`.
pub open spec fn msec_to_measure(bpm: real, msec: real) -> real {
    msec * bpm / 240000real
}

/// The milliseconds that a duration takes at the tempo `bpm`.
pub open spec fn duration_msec(duration: Duration, bpm: real) -> real {
    match duration {
        Duration::Seconds(secs) => secs@ * 1000real,
        Duration::Measures(measures) => measure_to_msec(bpm, measures@),
    }
}

impl BPM {
    /// The milliseconds that `measure` measures take at this tempo. `None`
    /// where the tempo is zero or a number on the way cannot be
    /// represented.
    pub fn measure_to_msec(&self, measure: &Ratio) -> (r: Option<Ratio>)
        ensures
            r is Some <==> representable(measure@ * 240000real) && self.0@ != 0real
                && representable(measure_to_msec(self.0@, measure@)),
            r matches Some(v) ==> v@ == measure_to_msec(self.0@, measure@) && v == canonical(v@),
    {
        match measure.mul(&Ratio::from_int(240000)) {
            Some(scaled) => scaled.div(&self.0),
            None => None,
        }
    }

    /// The measures that pass in `msec` milliseconds at this tempo. `None`
    /// where a number on the way cannot be represented.
    pub fn msec_to_measure(&self, msec: &Ratio) -> (r: Option<Ratio>)
        ensures
            r is Some <==> representable(msec@ * self.0@) && representable(
                msec_to_measure(self.0@, msec@),
            ),
            r matches Some(v) ==> v@ == msec_to_measure(self.0@, msec@) && v == canonical(v@),
    {
        match msec.mul(&self.0) {
            Some(scaled) => scaled.div(&Ratio::from_int(240000)),
            None => None,
        }
    }
}

impl Duration {
    /// The milliseconds that the duration takes at the tempo `bpm`. `None`
    /// where the tempo is needed and zero, or a number on the way cannot be
    /// represented.
    pub fn to_msec(&self, bpm: BPM) -> (r: Option<Ratio>)
        ensures
            r is Some <==> match *self {
                Duration::Seconds(secs) => representable(secs@ * 1000real),
                Duration::Measures(measures) => representable(measures@ * 240000real) && bpm.0@
                    != 0real && representable(measure_to_msec(bpm.0@, measures@)),
            },
            r matches Some(v) ==> v@ == duration_msec(*self, bpm.0@) && v == canonical(v@),
    {
        match self {
            Duration::Seconds(secs) => secs.mul(&Ratio::from_int(1000)),
            Duration::Measures(measures) => bpm.measure_to_msec(measures),
        }
    }
}

/// The clock of a play.
#[derive(Clone, Copy, Debug, PartialEq, Eq)]
pub struct Clock {
    /// The tempo.
    pub bpm: BPM,
    /// The time, in milliseconds, of the last point at which something
    /// changed.
    pub starttime: i64,
    /// The time at which the stop that is going on ends, if one is.
    pub stoptime: Option<i64>,
    /// The position of the last point at which something changed.
    pub startoffset: Ratio,
    /// The scaling factor of the measure that is being played.
    pub startshorten: Ratio,
}

impl Clock {
    /// The clock once a stop that has run out by `now` is over: the chart
    /// moves on from the time at which the stop ended.
    pub open spec fn resumed(self, now: i64) -> Clock {
        match self.stoptime {
            Some(t) => if now >= t {
                Clock { starttime: t, stoptime: None, ..self }
            } else {
                self
            },
            None => self,
        }
    }

    /// The position at the time `now`: where the last change took place
    /// while a stop is going on or has just ended, and else as far behind it
    /// as the time since then makes at the tempo, against the scaling
    /// factor.
    pub open spec fn position(self, now: i64) -> real {
        match self.stoptime {
            Some(_) => self.startoffset@,
            None => self.startoffset@ + msec_to_measure(
                self.bpm.0@,
                (now - self.starttime) as real,
            ) / self.startshorten@,
        }
    }

    /// Whether every number met on the way to the position at the time
    /// `now` can be represented.
    pub open spec fn position_fits(self, now: i64) -> bool {
        self.stoptime is None ==> {
            let elapsed = (now - self.starttime) as real;
            let measures = msec_to_measure(self.bpm.0@, elapsed);
            &&& i64::MIN <= now - self.starttime <= i64::MAX
            &&& representable(elapsed * self.bpm.0@)
            &&& representable(measures)
            &&& self.startshorten@ != 0real
            &&& representable(measures / self.startshorten@)
            &&& representable(self.startoffset@ + measures / self.startshorten@)
        }
    }

    /// The time that has passed while the chart moved from the position of
    /// the last change to the position `at`, in whole milliseconds.
    pub open spec fn time_to(self, at: real) -> int {
        (measure_to_msec(self.bpm.0@, at - self.startoffset@) * self.startshorten@).floor()
    }

    /// Whether every number met on the way of [`Clock::rebased`] can be
    /// represented.
    pub open spec fn rebase_fits(self, at: real) -> bool {
        let distance = at - self.startoffset@;
        &&& representable(distance)
        &&& representable(distance * 240000real)
        &&& self.bpm.0@ != 0real
        &&& representable(measure_to_msec(self.bpm.0@, distance))
        &&& representable(measure_to_msec(self.bpm.0@, distance) * self.startshorten@)
        &&& i64::MIN <= self.starttime + self.time_to(at) <= i64::MAX
    }

    /// The clock with the point of the last change moved to the position
    /// `at`: the time of that point moves on by the time that the chart took
    /// to get there.
    pub open spec fn rebased(self, at: Ratio) -> Clock {
        Clock { starttime: (self.starttime + self.time_to(at@)) as i64, startoffset: at, ..self }
    }

    /// A clock that starts at the time `now` from the position `origin`.
    pub fn new(bpm: BPM, now: i64, origin: Ratio, shorten: Ratio) -> (r: Clock)
        ensures
            r == (Clock {
                bpm,
                starttime: now,
                stoptime: None,
                startoffset: origin,
                startshorten: shorten,
            }),
    {
        Clock { bpm, starttime: now, stoptime: None, startoffset: origin, startshorten: shorten }
    }

    /// Ends a stop that has run out by `now`, and returns the position at
    /// that time.
    pub fn tick(&mut self, now: i64) -> (r: Result<Ratio, Overflow>)
        ensures
            r is Ok <==> old(self).position_fits(now),
            r matches Ok(bottom) ==> bottom@ == old(self).position(now) && bottom == canonical(
                bottom@,
            ),
            *final(self) == old(self).resumed(now),
    {
        match self.stoptime {
            Some(t) => {
                if now >= t {
                    self.starttime = t;
                    self.stoptime = None;
                }
                let _ = self.startoffset.parts();
                Ok(self.startoffset)
            },
            None => {
                let diff: i128 = (now as i128) - (self.starttime as i128);
                if diff < i64::MIN as i128 || diff > i64::MAX as i128 {
                    return Err(Overflow);
                }
                let elapsed = Ratio::from_int(diff as i64);
                let measures = match self.bpm.msec_to_measure(&elapsed) {
                    Some(x) => x,
                    None => {
                        return Err(Overflow);
                    },
                };
                let scaled = match measures.div(&self.startshorten) {
                    Some(x) => x,
                    None => {
                        return Err(Overflow);
                    },
                };
                match self.startoffset.add(&scaled) {
                    Some(x) => Ok(x),
                    None => Err(Overflow),
                }
            },
        }
    }

    /// Moves the point of the last change to the position `at`.
    pub fn break_continuity(&mut self, at: Ratio) -> (r: Result<(), Overflow>)
        ensures
            r is Ok <==> old(self).rebase_fits(at@),
            r is Ok ==> *final(self) == old(self).rebased(at),
            r is Err ==> *final(self) == *old(self),
    {
        let distance = match at.sub(&self.startoffset) {
            Some(x) => x,
            None => {
                return Err(Overflow);
            },
        };
        let msec = match self.bpm.measure_to_msec(&distance) {
            Some(x) => x,
            None => {
                return Err(Overflow);
            },
        };
        let scaled = match msec.mul(&self.startshorten) {
            Some(x) => x,
            None => {
                return Err(Overflow);
            },
        };
        let moved: i128 = (self.starttime as i128) + (scaled.floor() as i128);
        if moved < i64::MIN as i128 || moved > i64::MAX as i128 {
            return Err(Overflow);
        }
        self.starttime = moved as i64;
        self.startoffset = at;
        Ok(())
    }
}

} // verus!
