//! What can be told of a chart before it is played.

use vstd::prelude::*;
use crate::bms::Bms;
use crate::clock::{duration_msec, measure_to_msec};
use crate::grade::clamp_u64;
use crate::obj::{Duration, Obj, ObjData, SoundRef, BPM};
use crate::ratio::{canonical, representable, Overflow, Ratio};
use crate::timeline::{distance_between, distance_fits};

verus! {

/// What was found out about a chart.
#[derive(Clone, Copy, Debug, PartialEq, Eq, Structural)]
pub struct BmsInfo {
    /// The position at which the play starts: -1 if a note lies in the
    /// first measure, so that there is time to get ready, and else 0.
    pub originoffset: i64,
    /// Whether the tempo changes.
    pub hasbpmchange: bool,
    /// Whether there are long notes.
    pub haslongnote: bool,
    /// The number of notes. A long note counts once.
    pub nnotes: u64,
    /// The highest score that can be reached.
    pub maxscore: u64,
}

/// Whether the object is counted as a note: a visible note or the start of
/// a long note.
pub open spec fn counts_as_note(data: ObjData) -> bool {
    data is Visible || data is LNStart
}

/// The number of notes among the first `n` objects.
pub open spec fn count_notes(objs: Seq<Obj>, n: int) -> nat
    decreases n,
{
    if n <= 0 {
        0
    } else {
        count_notes(objs, n - 1) + if counts_as_note(objs[n - 1].data) {
            1nat
        } else {
            0nat
        }
    }
}

/// Whether a note among the first `n` objects lies before the position
/// one.
pub open spec fn early_note(objs: Seq<Obj>, n: int) -> bool
    decreases n,
{
    if n <= 0 {
        false
    } else {
        early_note(objs, n - 1) || (counts_as_note(objs[n - 1].data) && objs[n - 1].time@ < 1real)
    }
}

/// Whether an object of the first `n` starts a long note.
pub open spec fn any_long_note(objs: Seq<Obj>, n: int) -> bool
    decreases n,
{
    if n <= 0 {
        false
    } else {
        any_long_note(objs, n - 1) || objs[n - 1].data is LNStart
    }
}

/// Whether an object of the first `n` changes the tempo.
pub open spec fn any_bpm_change(objs: Seq<Obj>, n: int) -> bool
    decreases n,
{
    if n <= 0 {
        false
    } else {
        any_bpm_change(objs, n - 1) || objs[n - 1].data is SetBPM
    }
}

/// The score of the first `k` of `nnotes` notes where each is played
/// exactly: the `i`th earns 300 and as much again as the share of the
/// notes before it, in whole points.
pub open spec fn full_score(nnotes: int, k: int) -> nat
    decreases k,
{
    if k <= 0 || nnotes <= 0 {
        0
    } else {
        full_score(nnotes, k - 1) + (300 + (300 * (k - 1)) / nnotes) as nat
    }
}

pub proof fn lemma_full_score_bound(nnotes: int, k: int)
    requires
        0 <= k <= nnotes,
    ensures
        full_score(nnotes, k) <= 600 * k,
    decreases k,
{
    if k > 0 {
        lemma_full_score_bound(nnotes, k - 1);
        assert((300 * (k - 1)) / nnotes <= 300) by (nonlinear_arith)
            requires
                0 <= k - 1 < nnotes,
        {
        }
    }
}

/// Looks through a chart.
pub fn analyze_bms(bms: &Bms) -> (r: BmsInfo)
    ensures
        r.originoffset == (if early_note(bms.objs@, bms.objs@.len() as int) {
            -1i64
        } else {
            0i64
        }),
        r.hasbpmchange == any_bpm_change(bms.objs@, bms.objs@.len() as int),
        r.haslongnote == any_long_note(bms.objs@, bms.objs@.len() as int),
        r.nnotes == count_notes(bms.objs@, bms.objs@.len() as int),
        r.maxscore == clamp_u64(full_score(r.nnotes as int, r.nnotes as int) as int),
{
    let mut originoffset: i64 = 0;
    let mut hasbpmchange = false;
    let mut haslongnote = false;
    let mut nnotes: u64 = 0;
    let one = Ratio::from_int(1);
    let mut i: usize = 0;
    while i < bms.objs.len()
        invariant
            i <= bms.objs@.len(),
            one@ == 1real,
            originoffset == (if early_note(bms.objs@, i as int) {
                -1i64
            } else {
                0i64
            }),
            hasbpmchange == any_bpm_change(bms.objs@, i as int),
            haslongnote == any_long_note(bms.objs@, i as int),
            nnotes == count_notes(bms.objs@, i as int),
            nnotes <= i,
        decreases bms.objs@.len() - i,
    {
        let obj = &bms.objs[i];
        let is_start = matches!(obj.data, ObjData::LNStart(..));
        let is_visible = matches!(obj.data, ObjData::Visible(..));
        if is_start {
            haslongnote = true;
        }
        if matches!(obj.data, ObjData::SetBPM(..)) {
            hasbpmchange = true;
        }
        if is_start || is_visible {
            nnotes += 1;
            if obj.time.lt(&one) {
                originoffset = -1;
            }
        }
        i += 1;
    }
    let mut maxscore: u128 = 0;
    let mut k: u64 = 0;
    while k < nnotes
        invariant
            k <= nnotes,
            maxscore == full_score(nnotes as int, k as int),
            maxscore <= 600 * k,
        decreases nnotes - k,
    {
        proof {
            lemma_full_score_bound(nnotes as int, k + 1);
        }
        maxscore += 300 + (300 * (k as u128)) / (nnotes as u128);
        k += 1;
    }
    BmsInfo {
        originoffset,
        hasbpmchange,
        haslongnote,
        nnotes,
        maxscore: if maxscore > u64::MAX as u128 {
            u64::MAX
        } else {
            maxscore as u64
        },
    }
}

/// How long a sound lasts, in seconds: what the list holds for its key, and
/// nothing for a key that the list does not reach.
pub open spec fn sound_seconds(lengths: Seq<Ratio>, sref: SoundRef) -> real {
    if 0 <= sref.0.0 < lengths.len() {
        lengths[sref.0.0 as int]@
    } else {
        0real
    }
}

/// The sound of an object that counts for the length of a chart: that of
/// a visible note, of the start of a long note, and of background music.
pub open spec fn lasting_sound(data: ObjData) -> Option<SoundRef> {
    match data {
        ObjData::Visible(_, Some(sref)) => Some(sref),
        ObjData::LNStart(_, Some(sref)) => Some(sref),
        ObjData::BGM(sref) => Some(sref),
        _ => None,
    }
}

/// How far a chart has been followed.
pub struct Elapsed {
    /// The position.
    pub pos: real,
    /// The tempo.
    pub bpm: real,
    /// The time that has passed, in milliseconds.
    pub time: real,
    /// The time at which the last sound ends, in milliseconds.
    pub sndtime: real,
}

/// The time that the chart takes from the position `from` to the position
/// `to` at the tempo `bpm`, in milliseconds.
pub open spec fn travel(shortens: Seq<Ratio>, bpm: real, from: real, to: real) -> real {
    measure_to_msec(bpm, distance_between(shortens, from, to))
}

/// Whether every number met on the way of [`travel`] can be represented.
pub open spec fn travel_fits(shortens: Seq<Ratio>, bpm: real, from: real, to: real) -> bool {
    &&& distance_fits(shortens, from, to)
    &&& representable(distance_between(shortens, from, to) * 240000real)
    &&& bpm != 0real
    &&& representable(travel(shortens, bpm, from, to))
}

/// Whether the chart ends at the object: it does at a change to a tempo
/// below zero, from where it runs backwards.
pub open spec fn turns_back(data: ObjData) -> bool {
    data matches ObjData::SetBPM(bpm) && bpm.0@ < 0real
}

/// Whether every number met while the chart is followed to the object
/// `obj` can be represented.
pub open spec fn follow_fits(shortens: Seq<Ratio>, lengths: Seq<Ratio>, origin: real, st: Elapsed, obj: Obj) -> bool {
    let arrived = st.time + travel(shortens, st.bpm, st.pos, obj.time@);
    &&& travel_fits(shortens, st.bpm, st.pos, obj.time@)
    &&& representable(arrived)
    &&& lasting_sound(obj.data) matches Some(sref) ==> representable(
        sound_seconds(lengths, sref) * 1000real,
    ) && representable(arrived + sound_seconds(lengths, sref) * 1000real)
    &&& obj.data matches ObjData::SetBPM(bpm) ==> (bpm.0@ < 0real ==> representable(-bpm.0@)
        && travel_fits(shortens, -bpm.0@, origin, st.pos) && representable(
        arrived + travel(shortens, -bpm.0@, origin, st.pos),
    ))
    &&& obj.data matches ObjData::Stop(duration) ==> {
        &&& match duration {
            Duration::Seconds(secs) => representable(secs@ * 1000real),
            Duration::Measures(measures) => representable(measures@ * 240000real) && st.bpm
                != 0real && representable(measure_to_msec(st.bpm, measures@)),
        }
        &&& representable(arrived + duration_msec(duration, st.bpm))
    }
}

/// The chart followed to the object `obj`: the time goes on by what the
/// way to the object takes at the tempo; a sound may end later than all
/// before it; a tempo above zero is taken, one of zero is passed over, and
/// one below zero lets the chart run back to the position `origin` at that
/// speed; and a stop takes its time.
pub open spec fn follow(shortens: Seq<Ratio>, lengths: Seq<Ratio>, origin: real, st: Elapsed, obj: Obj) -> Elapsed {
    let arrived = st.time + travel(shortens, st.bpm, st.pos, obj.time@);
    let sndtime = match lasting_sound(obj.data) {
        Some(sref) => {
            let sndend = arrived + sound_seconds(lengths, sref) * 1000real;
            if st.sndtime < sndend {
                sndend
            } else {
                st.sndtime
            }
        },
        None => st.sndtime,
    };
    match obj.data {
        ObjData::SetBPM(bpm) => if bpm.0@ > 0real {
            Elapsed { pos: obj.time@, bpm: bpm.0@, time: arrived, sndtime }
        } else if bpm.0@ < 0real {
            Elapsed {
                pos: st.pos,
                bpm: bpm.0@,
                time: arrived + travel(shortens, -bpm.0@, origin, st.pos),
                sndtime,
            }
        } else {
            Elapsed { pos: obj.time@, bpm: st.bpm, time: arrived, sndtime }
        },
        ObjData::Stop(duration) => Elapsed {
            pos: obj.time@,
            bpm: st.bpm,
            time: arrived + duration_msec(duration, st.bpm),
            sndtime,
        },
        _ => Elapsed { pos: obj.time@, bpm: st.bpm, time: arrived, sndtime },
    }
}

/// The length of a chart in seconds, from the state `st` before the object
/// with the index `i`: the chart is followed object by object, and at a
/// tempo above zero on to the end of the measure after the last; the length
/// is the time that this takes, or that at which the last sound ends if
/// that is later. `None` if a number on the way cannot be represented.
pub open spec fn duration_from(
    shortens: Seq<Ratio>,
    lengths: Seq<Ratio>,
    objs: Seq<Obj>,
    origin: real,
    nmeasures: usize,
    st: Elapsed,
    i: int,
) -> Option<real>
    decreases objs.len() - i,
{
    if 0 <= i < objs.len() {
        if !follow_fits(shortens, lengths, origin, st, objs[i]) {
            None
        } else if turns_back(objs[i].data) {
            duration_at_end(shortens, follow(shortens, lengths, origin, st, objs[i]), nmeasures)
        } else {
            duration_from(
                shortens,
                lengths,
                objs,
                origin,
                nmeasures,
                follow(shortens, lengths, origin, st, objs[i]),
                i + 1,
            )
        }
    } else {
        duration_at_end(shortens, st, nmeasures)
    }
}

/// The length of a chart in seconds, from the state behind its last
/// object.
pub open spec fn duration_at_end(shortens: Seq<Ratio>, st: Elapsed, nmeasures: usize) -> Option<real> {
    let end = (nmeasures + 1) as real;
    let time = if st.bpm > 0real {
        st.time + travel(shortens, st.bpm, st.pos, end)
    } else {
        st.time
    };
    let longest = if time > st.sndtime {
        time
    } else {
        st.sndtime
    };
    if (st.bpm > 0real ==> nmeasures < i64::MAX && travel_fits(shortens, st.bpm, st.pos, end)
        && representable(time)) && representable(longest / 1000real) {
        Some(longest / 1000real)
    } else {
        None
    }
}

/// The length of a chart in seconds.
pub open spec fn duration_of(
    shortens: Seq<Ratio>,
    lengths: Seq<Ratio>,
    objs: Seq<Obj>,
    initbpm: real,
    origin: real,
    nmeasures: usize,
) -> Option<real> {
    duration_from(
        shortens,
        lengths,
        objs,
        origin,
        nmeasures,
        Elapsed { pos: origin, bpm: initbpm, time: 0real, sndtime: 0real },
        0,
    )
}

/// The time that the chart takes from the position `from` to the position
/// `to` at the tempo `bpm`.
fn travel_time(bms: &Bms, bpm: BPM, from: &Ratio, to: &Ratio) -> (r: Option<Ratio>)
    ensures
        r is Some <==> travel_fits(bms.shortens@, bpm.0@, from@, to@),
        r matches Some(v) ==> v@ == travel(bms.shortens@, bpm.0@, from@, to@),
{
    match bms.adjust_object_position(from, to) {
        Some(delta) => bpm.measure_to_msec(&delta),
        None => None,
    }
}

/// Reckons the length of a chart in seconds, from the position
/// `originoffset` on. `sound_length` holds, for each key, how long its
/// sound lasts in seconds.
pub fn bms_duration(bms: &Bms, originoffset: &Ratio, sound_length: &Vec<Ratio>) -> (r: Result<
    Ratio,
    Overflow,
>)
    ensures
        r is Ok <==> duration_of(
            bms.shortens@,
            sound_length@,
            bms.objs@,
            bms.initbpm.0@,
            originoffset@,
            bms.nmeasures,
        ) is Some,
        r matches Ok(v) ==> Some(v@) == duration_of(
            bms.shortens@,
            sound_length@,
            bms.objs@,
            bms.initbpm.0@,
            originoffset@,
            bms.nmeasures,
        ),
{
    let mut pos = *originoffset;
    let mut bpm = bms.initbpm;
    let mut time = Ratio::from_int(0);
    let mut sndtime = Ratio::from_int(0);
    let thousand = Ratio::from_int(1000);
    let mut i: usize = 0;
    let mut turned = false;
    while !turned && i < bms.objs.len()
        invariant
            i <= bms.objs@.len(),
            thousand@ == 1000real,
            !turned ==> duration_from(
                bms.shortens@,
                sound_length@,
                bms.objs@,
                originoffset@,
                bms.nmeasures,
                Elapsed { pos: pos@, bpm: bpm.0@, time: time@, sndtime: sndtime@ },
                i as int,
            ) == duration_of(
                bms.shortens@,
                sound_length@,
                bms.objs@,
                bms.initbpm.0@,
                originoffset@,
                bms.nmeasures,
            ),
            turned ==> duration_at_end(
                bms.shortens@,
                Elapsed { pos: pos@, bpm: bpm.0@, time: time@, sndtime: sndtime@ },
                bms.nmeasures,
            ) == duration_of(
                bms.shortens@,
                sound_length@,
                bms.objs@,
                bms.initbpm.0@,
                originoffset@,
                bms.nmeasures,
            ),
        decreases bms.objs@.len() - i + (if turned { 0int } else { 1int }),
    {
        let obj = bms.objs[i];
        let ghost st = Elapsed { pos: pos@, bpm: bpm.0@, time: time@, sndtime: sndtime@ };
        let way = match travel_time(bms, bpm, &pos, &obj.time) {
            Some(x) => x,
            None => {
                return Err(Overflow);
            },
        };
        let arrived = match time.add(&way) {
            Some(x) => x,
            None => {
                return Err(Overflow);
            },
        };
        let sound = match obj.data {
            ObjData::Visible(_, Some(sref)) => Some(sref),
            ObjData::LNStart(_, Some(sref)) => Some(sref),
            ObjData::BGM(sref) => Some(sref),
            _ => None,
        };
        match sound {
            Some(sref) => {
                let secs = if 0 <= sref.0.0 && (sref.0.0 as u64) < (sound_length.len() as u64) {
                    sound_length[sref.0.0 as usize]
                } else {
                    Ratio::from_int(0)
                };
                let msecs = match secs.mul(&thousand) {
                    Some(x) => x,
                    None => {
                        return Err(Overflow);
                    },
                };
                let sndend = match arrived.add(&msecs) {
                    Some(x) => x,
                    None => {
                        return Err(Overflow);
                    },
                };
                if sndtime.lt(&sndend) {
                    sndtime = sndend;
                }
            },
            None => {},
        }
        time = arrived;
        match obj.data {
            ObjData::SetBPM(newbpm) => {
                if newbpm.0.is_positive() {
                    bpm = newbpm;
                    pos = obj.time;
                } else if newbpm.0.is_negative() {
                    let speed = match newbpm.0.neg() {
                        Some(x) => x,
                        None => {
                            return Err(Overflow);
                        },
                    };
                    let back = match travel_time(bms, BPM(speed), originoffset, &pos) {
                        Some(x) => x,
                        None => {
                            return Err(Overflow);
                        },
                    };
                    time = match time.add(&back) {
                        Some(x) => x,
                        None => {
                            return Err(Overflow);
                        },
                    };
                    bpm = newbpm;
                    turned = true;
                } else {
                    pos = obj.time;
                }
            },
            ObjData::Stop(duration) => {
                let msecs = match duration.to_msec(bpm) {
                    Some(x) => x,
                    None => {
                        return Err(Overflow);
                    },
                };
                time = match time.add(&msecs) {
                    Some(x) => x,
                    None => {
                        return Err(Overflow);
                    },
                };
                pos = obj.time;
            },
            _ => {
                pos = obj.time;
            },
        }
        if !turned {
            i += 1;
        }
    }
    if bpm.0.is_positive() {
        if bms.nmeasures as u64 >= i64::MAX as u64 {
            return Err(Overflow);
        }
        let end = Ratio::from_int((bms.nmeasures as i64) + 1);
        let way = match travel_time(bms, bpm, &pos, &end) {
            Some(x) => x,
            None => {
                return Err(Overflow);
            },
        };
        time = match time.add(&way) {
            Some(x) => x,
            None => {
                return Err(Overflow);
            },
        };
    }
    let longest = if sndtime.lt(&time) {
        time
    } else {
        sndtime
    };
    match longest.div(&thousand) {
        Some(x) => Ok(x),
        None => Err(Overflow),
    }
}

} // verus!
