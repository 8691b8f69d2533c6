//! The state of a play, and how it moves.
//!
//! A play is driven from outside, once for every picture that is drawn:
//! first [`Player::advance`] takes the time and applies what the chart holds
//! up to the position that this time stands for; then every change of a key
//! goes to [`Player::key_event`]; and at last [`Player::finish`] sets off
//! the bombs that passed a key held down, gives a miss to every note that
//! got away, and says whether the play goes on. What has to sound is handed
//! back as a list of actions.
//!
//! Every note is graded once and no more: a list keeps, for each object,
//! the grade that was given for it.

use std::rc::Rc;
use vstd::prelude::*;
use crate::bms::Bms;
use crate::clock::{measure_to_msec, Clock};
use crate::grade::{
    grade_from_distance, grade_of, score_weight, weight_from_distance, Grade, Tally,
};
use crate::lane::{Lane, NLANES};
use crate::obj::{BGALayer, Damage, Duration, ImageRef, Obj, ObjData, SoundRef, BPM, NLAYERS};
use crate::key::Key;
use crate::ratio::{abs_real, canonical, quot, representable, Overflow, Ratio};
use crate::clock::duration_msec;
use crate::pointer::{closest, closest_fits, distance, first_from};
use crate::timeline::{shorten_at, shorten_ratio};

verus! {

/// The state of one input element.
///
/// An element that is down is positive or negative, and there is no
/// difference between the two but that they differ: the stick of a joystick
/// can go from one side to the other without a rest between, and this
/// counts as letting go and pressing again.
#[derive(Clone, Copy, Debug, PartialEq, Eq, Structural)]
pub enum InputState {
    Positive,
    Neutral,
    Negative,
}

/// What the play asks of the world outside.
#[derive(Clone, Copy, Debug, PartialEq, Eq, Structural)]
pub enum Action {
    /// Play the sound: as background music, or as the sound of a key.
    PlaySound(SoundRef, bool),
}

/// How a step of the play ended.
#[derive(Clone, Copy, Debug, PartialEq, Eq, Structural)]
pub enum Status {
    /// The play goes on.
    Running,
    /// The chart is over: the position lies behind the measure after the
    /// last.
    Finished,
    /// The chart ran backwards, under a tempo below zero, to before its
    /// start.
    Rewound,
    /// A deadly bomb went off.
    Died,
}

/// The images that the layers show. At the start the layer for missed
/// notes shows the image of the key `00`, and the others nothing.
pub fn initial_bga_state() -> (r: Vec<Option<ImageRef>>)
    ensures
        r@ == seq![None, None, None, Some(ImageRef(Key(0)))],
{
    let mut r: Vec<Option<ImageRef>> = Vec::new();
    r.push(None);
    r.push(None);
    r.push(None);
    r.push(Some(ImageRef(Key(0))));
    assert(r@ =~= seq![None, None, None, Some(ImageRef(Key(0)))]);
    r
}

/// A play.
pub struct Player {
    /// The chart.
    pub bms: Rc<Bms>,
    /// The position at which the play starts.
    pub originoffset: i64,
    /// Whether the notes play themselves.
    pub autoplay: bool,
    /// The clock.
    pub clock: Clock,
    /// The time of the last step, in milliseconds.
    pub now: i64,
    /// The position at the lower edge of what is seen.
    pub bottom: Ratio,
    /// The position of the grading line. It is that of the lower edge.
    pub line: Ratio,
    /// The scaling factor of the measure that holds the grading line.
    pub lineshorten: Ratio,
    /// The image of each layer.
    pub bga: Vec<Option<ImageRef>>,
    /// The index of the first object at or behind the lower edge.
    pub pfront: usize,
    /// The index of the first object at or behind the grading line.
    pub pcur: usize,
    /// The index of the first object that may still be graded.
    pub pcheck: usize,
    /// Where `pcur` stood before the last step.
    pub prevpcur: usize,
    /// For each lane, the index of the start of the long note that is being
    /// held, if one is.
    pub pthru: Vec<Option<usize>>,
    /// For each object, whether it is not to be graded any more.
    pub nograding: Vec<bool>,
    /// For each object, the grade that was given for it, if one was.
    pub grades: Vec<Option<Grade>>,
    /// What widens or narrows the grading windows.
    pub gradefactor: Ratio,
    /// Grades, combo, score and gauge.
    pub tally: Tally,
    /// For each lane, the number of keys and buttons that hold it down.
    pub keymultiplicity: Vec<u64>,
    /// For each lane, the state of the stick that plays it.
    pub joystate: Vec<InputState>,
}

/// [`Player`] as a mathematical value.
pub struct PlayerModel {
    pub objs: Seq<Obj>,
    pub shortens: Seq<Ratio>,
    pub nmeasures: usize,
    pub originoffset: i64,
    pub autoplay: bool,
    pub clock: Clock,
    pub now: i64,
    pub bottom: Ratio,
    pub line: Ratio,
    pub lineshorten: Ratio,
    pub bga: Seq<Option<ImageRef>>,
    pub pfront: usize,
    pub pcur: usize,
    pub pcheck: usize,
    pub prevpcur: usize,
    pub pthru: Seq<Option<usize>>,
    pub nograding: Seq<bool>,
    pub grades: Seq<Option<Grade>>,
    pub gradefactor: Ratio,
    pub tally: Tally,
    pub keymultiplicity: Seq<u64>,
    pub joystate: Seq<InputState>,
}

impl View for Player {
    type V = PlayerModel;

    open spec fn view(&self) -> PlayerModel {
        PlayerModel {
            objs: self.bms.objs@,
            shortens: self.bms.shortens@,
            nmeasures: self.bms.nmeasures,
            originoffset: self.originoffset,
            autoplay: self.autoplay,
            clock: self.clock,
            now: self.now,
            bottom: self.bottom,
            line: self.line,
            lineshorten: self.lineshorten,
            bga: self.bga@,
            pfront: self.pfront,
            pcur: self.pcur,
            pcheck: self.pcheck,
            prevpcur: self.prevpcur,
            pthru: self.pthru@,
            nograding: self.nograding@,
            grades: self.grades@,
            gradefactor: self.gradefactor,
            tally: self.tally,
            keymultiplicity: self.keymultiplicity@,
            joystate: self.joystate@,
        }
    }
}

/// Whether the object is a note that must be graded: a visible note or the
/// start of a long note, in one of the lanes.
pub open spec fn must_be_graded(obj: Obj) -> bool {
    (obj.data is Visible || obj.data is LNStart) && obj.data.lane().unwrap().0 < NLANES
}

/// The damage of a miss that no bomb gave.
pub open spec fn miss_damage() -> Damage {
    Damage::GaugeDamage(canonical(quot(59, 1000)))
}

/// The damage of a bad.
pub open spec fn bad_damage() -> Damage {
    Damage::GaugeDamage(canonical(quot(30, 1000)))
}

/// The damage that comes with a grade which a key earned.
pub open spec fn damage_of(grade: Grade) -> Option<Damage> {
    match grade {
        Grade::MISS => Some(miss_damage()),
        Grade::BAD => Some(bad_damage()),
        _ => None,
    }
}

/// How far off, in milliseconds as normalized, an object at the distance
/// `delta` from the grading line is: the time that the distance takes at
/// the tempo, by the scaling factor and by the factor of the grading
/// windows.
pub open spec fn normalized(bpm: real, delta: real, shorten: real, factor: real) -> real {
    measure_to_msec(bpm, delta) * shorten * factor
}

/// Whether every number met on the way of [`normalized`] can be
/// represented.
pub open spec fn normalized_fits(bpm: real, delta: real, shorten: real, factor: real) -> bool {
    &&& representable(delta * 240000real)
    &&& bpm != 0real
    &&& representable(measure_to_msec(bpm, delta))
    &&& representable(measure_to_msec(bpm, delta) * shorten)
    &&& representable(normalized(bpm, delta, shorten, factor))
}

impl PlayerModel {
    /// Whether the lists have their lengths, the indices lie among the
    /// objects in their order, and the grades are kept as they must be: a
    /// graded object is not graded again, every note that must be graded
    /// has its grade once it got away, and as many grades were counted as
    /// there are objects with a grade.
    pub open spec fn wf(self) -> bool {
        &&& self.nograding.len() == self.objs.len()
        &&& self.grades.len() == self.objs.len()
        &&& self.pthru.len() == NLANES
        &&& self.keymultiplicity.len() == NLANES
        &&& self.joystate.len() == NLANES
        &&& self.bga.len() == NLAYERS
        &&& self.pfront <= self.objs.len()
        &&& self.pcheck <= self.pcur <= self.objs.len()
        &&& self.prevpcur <= self.pcur
        &&& self.tally.wf()
        &&& forall|lane: int|
            0 <= lane < NLANES ==> ((#[trigger] self.pthru[lane]) matches Some(s) ==> s
                < self.objs.len())
        &&& forall|i: int|
            0 <= i < self.objs.len() ==> ((#[trigger] self.grades[i]) is Some ==> self.nograding[i])
        &&& forall|i: int|
            0 <= i < self.objs.len() ==> (#[trigger] self.nograding[i] && must_be_graded(
                self.objs[i],
            ) ==> self.grades[i] is Some)
        &&& forall|i: int|
            0 <= i < (if self.autoplay {
                self.pcur
            } else {
                self.pcheck
            }) ==> (must_be_graded(#[trigger] self.objs[i]) ==> self.grades[i] is Some)
        &&& self.tally.total() == graded_count(self.grades, self.grades.len() as int)
    }

    /// The play with the grade `grade` given for the object with the index
    /// `i`, which earns the share `weight` of the score, with the damage
    /// `damage`.
    pub open spec fn graded(self, i: int, grade: Grade, weight: real, damage: Option<Damage>) -> PlayerModel {
        PlayerModel {
            tally: self.tally.graded(grade, weight, damage, self.now),
            grades: self.grades.update(i, Some(grade)),
            nograding: self.nograding.update(i, true),
            ..self
        }
    }
}

/// The number of the first `n` objects that have a grade.
pub open spec fn graded_count(grades: Seq<Option<Grade>>, n: int) -> int
    decreases n,
{
    if n <= 0 {
        0
    } else {
        graded_count(grades, n - 1) + if grades[n - 1] is Some {
            1int
        } else {
            0int
        }
    }
}

/// No more objects have a grade than there are.
pub proof fn lemma_graded_count_bound(grades: Seq<Option<Grade>>, n: int)
    requires
        0 <= n <= grades.len(),
    ensures
        0 <= graded_count(grades, n) <= n,
        (exists|i: int| 0 <= i < n && (#[trigger] grades[i]) is None) ==> graded_count(grades, n) < n,
    decreases n,
{
    if n > 0 {
        lemma_graded_count_bound(grades, n - 1);
    }
}

/// Where no object has a grade, none is counted.
pub proof fn lemma_graded_count_none(grades: Seq<Option<Grade>>, n: int)
    requires
        0 <= n <= grades.len(),
        forall|i: int| 0 <= i < n ==> (#[trigger] grades[i]) is None,
    ensures
        graded_count(grades, n) == 0,
    decreases n,
{
    if n > 0 {
        lemma_graded_count_none(grades, n - 1);
    }
}

/// A grade for an object that had none makes one more object with a grade.
pub proof fn lemma_graded_count_update(grades: Seq<Option<Grade>>, i: int, grade: Grade, n: int)
    requires
        0 <= i < grades.len(),
        0 <= n <= grades.len(),
        grades[i] is None,
    ensures
        graded_count(grades.update(i, Some(grade)), n) == graded_count(grades, n) + if i < n {
            1int
        } else {
            0int
        },
    decreases n,
{
    if n > 0 {
        lemma_graded_count_update(grades, i, grade, n - 1);
    }
}

/// The grades are counted once for each object: as many grades were given
/// in all as there are objects with a grade.
pub proof fn lemma_counted_once(p: PlayerModel)
    requires
        p.wf(),
    ensures
        p.tally.total() == graded_count(p.grades, p.grades.len() as int),
{
}

/// Whether nothing that was graded in `before` is undone in `after`: every
/// grade that `before` holds stands unchanged, an object that was marked
/// as done with stays marked, and the line behind which every note has its
/// grade has not gone back.
pub open spec fn keeps_grades(before: PlayerModel, after: PlayerModel) -> bool {
    &&& after.grades.len() == before.grades.len()
    &&& after.nograding.len() == before.nograding.len()
    &&& before.pcheck <= after.pcheck
    &&& forall|i: int|
        0 <= i < before.grades.len() ==> ((#[trigger] before.grades[i]) is Some ==> after.grades[i]
            == before.grades[i])
    &&& forall|i: int|
        0 <= i < before.nograding.len() ==> (#[trigger] before.nograding[i] ==> after.nograding[i])
}

/// When the last object got away, every note that must be graded has its
/// one grade.
pub proof fn lemma_all_graded(p: PlayerModel)
    requires
        p.wf(),
        !p.autoplay,
        p.pcheck == p.objs.len(),
    ensures
        forall|i: int|
            0 <= i < p.objs.len() && must_be_graded(#[trigger] p.objs[i]) ==> p.grades[i] is Some,
{
}

/// The sound of a note as an action, if the note has a sound with a key
/// other than `00`.
pub open spec fn key_sound(sref: Option<SoundRef>) -> Seq<Action> {
    match sref {
        Some(sound) => if sound.0.0 > 0 {
            seq![Action::PlaySound(sound, false)]
        } else {
            seq![]
        },
        None => seq![],
    }
}

/// The time at which a stop of `msecs` milliseconds that starts at `now`
/// ends. A length below zero counts as none.
pub open spec fn stop_end(now: i64, msecs: real) -> int {
    now + if msecs.floor() < 0 {
        0
    } else {
        msecs.floor()
    }
}

impl PlayerModel {
    /// Whether every number met while the object with the index `i` takes
    /// effect can be represented.
    pub open spec fn effect_fits(self, i: int) -> bool {
        let obj = self.objs[i];
        match obj.data {
            ObjData::SetBPM(_) => self.clock.rebase_fits(obj.time@),
            ObjData::Stop(duration) => {
                &&& match duration {
                    Duration::Seconds(secs) => representable(secs@ * 1000real),
                    Duration::Measures(measures) => representable(measures@ * 240000real)
                        && self.clock.bpm.0@ != 0real && representable(
                        measure_to_msec(self.clock.bpm.0@, measures@),
                    ),
                }
                &&& stop_end(self.now, duration_msec(duration, self.clock.bpm.0@)) <= i64::MAX
            },
            ObjData::Visible(_, _) | ObjData::LNStart(_, _) => self.autoplay && !self.nograding[i]
                ==> self.tally.grade_fits(1real, None),
            _ => true,
        }
    }

    /// The play after the object with the index `i` took effect as it
    /// passed the grading line, and what has to sound.
    ///
    /// Background music sounds, unless its key is `00`. An image goes on
    /// its layer. A change of tempo moves the point from which the clock
    /// reckons to the object, and sets the tempo. A stop holds the clock at
    /// the object until its time is over, or until that of a longer stop that
    /// is going on. And where the notes play themselves, a visible note or the
    /// start of a long note sounds and gets the best grade.
    pub open spec fn effect(self, i: int) -> (PlayerModel, Seq<Action>) {
        let obj = self.objs[i];
        let passed = PlayerModel { pcur: (i + 1) as usize, ..self };
        match obj.data {
            ObjData::BGM(sref) => (
                passed,
                if sref.0.0 > 0 {
                    seq![Action::PlaySound(sref, true)]
                } else {
                    seq![]
                },
            ),
            ObjData::SetBGA(layer, iref) => (
                PlayerModel { bga: self.bga.update(layer.index_of(), iref), ..passed },
                seq![],
            ),
            ObjData::SetBPM(newbpm) => (
                PlayerModel { clock: Clock { bpm: newbpm, ..self.clock.rebased(obj.time) }, ..passed },
                seq![],
            ),
            ObjData::Stop(duration) => {
                let end = stop_end(self.now, duration_msec(duration, self.clock.bpm.0@)) as i64;
                let stoptime = match self.clock.stoptime {
                    Some(t) => if t > end {
                        t
                    } else {
                        end
                    },
                    None => end,
                };
                (
                    PlayerModel {
                        clock: Clock {
                            stoptime: Some(stoptime),
                            startoffset: obj.time,
                            ..self.clock
                        },
                        ..passed
                    },
                    seq![],
                )
            },
            ObjData::Visible(_, sref) | ObjData::LNStart(_, sref) => if self.autoplay {
                (
                    if self.nograding[i] {
                        passed
                    } else {
                        passed.graded(i, Grade::COOL, 1real, None)
                    },
                    key_sound(sref),
                )
            } else {
                (passed, seq![])
            },
            _ => (passed, seq![]),
        }
    }

    /// The play after every object from the one with the index `i` on that
    /// lies before the grading line took effect, and what has to sound,
    /// behind the actions `actions`; or `None` if a number on the way cannot
    /// be represented.
    pub open spec fn effects(self, actions: Seq<Action>, i: int) -> Option<(PlayerModel, Seq<Action>)>
        decreases self.objs.len() - i,
    {
        if 0 <= i < self.objs.len() && self.objs[i].time@ < self.line@ {
            if self.effect_fits(i) {
                let (next, more) = self.effect(i);
                if next.objs.len() == self.objs.len() {
                    next.effects(actions + more, i + 1)
                } else {
                    None
                }
            } else {
                None
            }
        } else {
            Some((self, actions))
        }
    }

    /// Whether a change of the scaling factor makes the clock reckon anew
    /// at the time `now`.
    pub open spec fn rescales(self, now: i64) -> bool {
        let measure = self.clock.position(now).floor();
        measure >= -1 && self.clock.startshorten@ != shorten_at(self.shortens, measure)
    }

    /// The play at the time `now`, before any object takes effect: the
    /// clock gives the position; where the scaling factor of the measure at
    /// that position is not the one that the clock reckons with, the clock
    /// reckons anew from the start of that measure; and the grading line
    /// lies at the position.
    pub open spec fn moved(self, now: i64) -> PlayerModel {
        let bottom = canonical(self.clock.position(now));
        let measure = bottom@.floor();
        let shorten = shorten_ratio(self.shortens, measure);
        let clock = self.clock.resumed(now);
        PlayerModel {
            now,
            clock: if self.rescales(now) {
                Clock { startshorten: shorten, ..clock.rebased(canonical(measure as real)) }
            } else {
                clock
            },
            bottom,
            line: bottom,
            lineshorten: shorten,
            pfront: first_from(self.objs, self.pfront as int, bottom@) as usize,
            prevpcur: self.pcur,
            ..self
        }
    }

    /// Whether every number met on the way of [`PlayerModel::moved`] can be
    /// represented.
    pub open spec fn move_fits(self, now: i64) -> bool {
        &&& self.clock.position_fits(now)
        &&& self.rescales(now) ==> self.clock.resumed(now).rebase_fits(
            self.clock.position(now).floor() as real,
        )
    }

    /// The play at the time `now`, with every object that lies before the
    /// grading line applied, and what has to sound; or `None` if a number on
    /// the way cannot be represented.
    pub open spec fn advanced(self, now: i64) -> Option<(PlayerModel, Seq<Action>)> {
        if self.move_fits(now) {
            self.moved(now).effects(seq![], self.pcur as int)
        } else {
            None
        }
    }
}

impl Player {
    /// Takes a grade for the object with the index `i`, and says whether
    /// the play goes on.
    fn record(&mut self, i: usize, grade: Grade, scoredelta: &Ratio, damage: Option<Damage>) -> (r:
        Result<bool, Overflow>)
        requires
            old(self)@.wf(),
            i < old(self)@.objs.len(),
            !old(self)@.nograding[i as int],
        ensures
            r is Ok <==> old(self)@.tally.grade_fits(scoredelta@, damage),
            r matches Ok(alive) ==> alive == Tally::survives(damage) && final(self)@ == old(self)@.graded(i as int, grade, scoredelta@, damage),
            r is Err ==> final(self)@ == old(self)@,
            final(self).bms == old(self).bms,
            final(self)@.wf(),
            keeps_grades(old(self)@, final(self)@),
    {
        let len = self.grades.len();
        proof {
            assert(self@.grades[i as int] is None);
            lemma_graded_count_bound(self@.grades, self@.grades.len() as int);
            lemma_graded_count_update(self@.grades, i as int, grade, self@.grades.len() as int);
            assert(self@.tally.total() < len);
            assert(self@.tally.counted(grade).total() == self@.tally.total() + 1);
        }
        match self.tally.update_grade(grade, scoredelta, damage, self.now) {
            Ok(alive) => {
                self.grades[i] = Some(grade);
                self.nograding[i] = true;
                Ok(alive)
            },
            Err(e) => Err(e),
        }
    }

    /// Lets the object at the grading line take effect.
    fn apply_effect(&mut self, actions: &mut Vec<Action>) -> (r: Result<(), Overflow>)
        requires
            old(self)@.wf(),
            old(self).pcur < old(self)@.objs.len(),
        ensures
            r is Ok <==> old(self)@.effect_fits(old(self).pcur as int),
            r is Ok ==> final(self)@ == old(self)@.effect(old(self).pcur as int).0 && final(actions)@ == old(actions)@ + old(self)@.effect(old(self).pcur as int).1,
            final(self).bms == old(self).bms,
            final(self)@.wf(),
            keeps_grades(old(self)@, final(self)@),
    {
        let i = self.pcur;
        let _ = self.bms.objs.len();
        let obj = self.bms.objs[i];
        let ghost before = actions@;
        let ghost start = self@;
        match obj.data {
            ObjData::BGM(sref) => {
                if sref.0.0 > 0 {
                    actions.push(Action::PlaySound(sref, true));
                    assert(actions@ =~= before + seq![Action::PlaySound(sref, true)]);
                } else {
                    assert(actions@ =~= before + Seq::<Action>::empty());
                }
            },
            ObjData::SetBGA(layer, iref) => {
                self.bga[layer.index()] = iref;
                assert(actions@ =~= before + Seq::<Action>::empty());
            },
            ObjData::SetBPM(newbpm) => {
                match self.clock.break_continuity(obj.time) {
                    Ok(()) => {},
                    Err(e) => {
                        return Err(e);
                    },
                }
                self.clock.bpm = newbpm;
                assert(actions@ =~= before + Seq::<Action>::empty());
            },
            ObjData::Stop(duration) => {
                let msecs = match duration.to_msec(self.clock.bpm) {
                    Some(x) => x.floor(),
                    None => {
                        return Err(Overflow);
                    },
                };
                let length: i128 = if msecs < 0 {
                    0
                } else {
                    msecs as i128
                };
                let end: i128 = (self.now as i128) + length;
                if end > i64::MAX as i128 {
                    return Err(Overflow);
                }
                let end = end as i64;
                let stoptime = match self.clock.stoptime {
                    Some(t) => if t > end {
                        t
                    } else {
                        end
                    },
                    None => end,
                };
                self.clock.stoptime = Some(stoptime);
                self.clock.startoffset = obj.time;
                assert(actions@ =~= before + Seq::<Action>::empty());
            },
            ObjData::Visible(_, sref) | ObjData::LNStart(_, sref) => {
                if self.autoplay {
                    if !self.nograding[i] {
                        match self.record(i, Grade::COOL, &Ratio::from_int(1), None) {
                            Ok(_) => {},
                            Err(e) => {
                                return Err(e);
                            },
                        }
                    }
                    match sref {
                        Some(sound) => {
                            if sound.0.0 > 0 {
                                actions.push(Action::PlaySound(sound, false));
                            }
                        },
                        None => {},
                    }
                    assert(actions@ =~= before + key_sound(sref));
                } else {
                    assert(actions@ =~= before + Seq::<Action>::empty());
                }
            },
            _ => {
                assert(actions@ =~= before + Seq::<Action>::empty());
            },
        }
        self.pcur = i + 1;
        Ok(())
    }

    /// Takes the time `now` and applies what the chart holds up to the
    /// position that this time stands for. What has to sound is added to
    /// `actions`.
    pub fn advance(&mut self, now: i64, actions: &mut Vec<Action>) -> (r: Result<(), Overflow>)
        requires
            old(self)@.wf(),
        ensures
            r is Ok <==> old(self)@.advanced(now) is Some,
            r is Ok ==> final(self)@ == old(self)@.advanced(now).unwrap().0 && final(actions)@
                == old(actions)@ + old(self)@.advanced(now).unwrap().1,
            final(self).bms == old(self).bms,
            final(self)@.wf(),
            keeps_grades(old(self)@, final(self)@),
    {
        let ghost first = actions@;
        let bottom = match self.clock.tick(now) {
            Ok(x) => x,
            Err(e) => {
                return Err(e);
            },
        };
        let measure = bottom.floor();
        let shorten = self.bms.shorten(measure);
        if measure >= -1 && !self.clock.startshorten.same(&shorten) {
            match self.clock.break_continuity(Ratio::from_int(measure)) {
                Ok(()) => {},
                Err(e) => {
                    return Err(e);
                },
            }
            self.clock.startshorten = shorten;
        }
        self.now = now;
        self.bottom = bottom;
        self.line = bottom;
        self.lineshorten = shorten;
        self.prevpcur = self.pcur;
        let len = self.bms.objs.len();
        proof {
            crate::pointer::lemma_first_from(self@.objs, self.pfront as int, bottom@);
        }
        while self.pfront < len && self.bms.objs[self.pfront].time.lt(&bottom)
            invariant
                self.bms == old(self).bms,
                len == self@.objs.len(),
                self.pfront <= len,
                first_from(self@.objs, self.pfront as int, bottom@) == first_from(
                    self@.objs,
                    old(self).pfront as int,
                    bottom@,
                ),
                self@ == (PlayerModel { pfront: self.pfront, ..old(self)@.moved(now) }),
                self.pcur == old(self).pcur,
            decreases len - self.pfront,
        {
            self.pfront += 1;
        }
        assert(self@ == old(self)@.moved(now));
        let ghost moved = self@;
        assert(actions@ =~= first + Seq::<Action>::empty());
        while self.pcur < len && self.bms.objs[self.pcur].time.lt(&self.line)
            invariant
                self.bms == old(self).bms,
                len == self@.objs.len(),
                self@.wf(),
                keeps_grades(old(self)@, self@),
                old(self)@.move_fits(now),
                moved == old(self)@.moved(now),
                exists|sofar: Seq<Action>|
                    actions@ == first + sofar && #[trigger] self@.effects(sofar, self.pcur as int)
                        == moved.effects(seq![], old(self).pcur as int),
            decreases len - self.pcur,
        {
            let ghost sofar = choose|sofar: Seq<Action>|
                actions@ == first + sofar && #[trigger] self@.effects(sofar, self.pcur as int)
                    == moved.effects(seq![], old(self).pcur as int);
            let ghost step = self@;
            match self.apply_effect(actions) {
                Ok(()) => {
                    proof {
                        let more = step.effect(step.pcur as int).1;
                        assert(actions@ =~= first + (sofar + more));
                        assert(self@.effects(sofar + more, self.pcur as int) == moved.effects(
                            seq![],
                            old(self).pcur as int,
                        ));
                    }
                },
                Err(e) => {
                    return Err(e);
                },
            }
        }
        Ok(())
    }
}

/// What is looked for in a lane.
#[derive(Clone, Copy, Debug, PartialEq, Eq, Structural)]
pub enum Want {
    /// The end of a long note.
    Done,
    /// A note that can give its sound to a key.
    Soundable,
    /// A note that is graded.
    Gradable,
}

/// Whether the object is what is looked for in the lane.
pub open spec fn wanted(data: ObjData, lane: usize, want: Want) -> bool {
    data.lane() == Some(Lane(lane)) && match want {
        Want::Done => data is LNDone,
        Want::Soundable => data.is_note(),
        Want::Gradable => data is Visible || data is LNStart || data is LNDone,
    }
}

/// The first index from `pos` on of an object that is what is looked for,
/// or the number of objects.
pub open spec fn next_wanted(objs: Seq<Obj>, lane: usize, want: Want, pos: int) -> int
    decreases objs.len() - pos,
{
    if 0 <= pos < objs.len() && !wanted(objs[pos].data, lane, want) {
        next_wanted(objs, lane, want, pos + 1)
    } else if pos < objs.len() {
        pos
    } else {
        objs.len() as int
    }
}

/// The last index below `pos` of an object that is what is looked for, or
/// -1.
pub open spec fn previous_wanted(objs: Seq<Obj>, lane: usize, want: Want, pos: int) -> int
    decreases pos,
{
    if pos <= 0 {
        -1
    } else if wanted(objs[pos - 1].data, lane, want) {
        pos - 1
    } else {
        previous_wanted(objs, lane, want, pos - 1)
    }
}

/// What is found is what was looked for, and nothing before it is.
pub proof fn lemma_next_wanted(objs: Seq<Obj>, lane: usize, want: Want, pos: int)
    requires
        0 <= pos <= objs.len(),
    ensures
        pos <= next_wanted(objs, lane, want, pos) <= objs.len(),
        next_wanted(objs, lane, want, pos) < objs.len() ==> wanted(
            objs[next_wanted(objs, lane, want, pos)].data,
            lane,
            want,
        ),
    decreases objs.len() - pos,
{
    if pos < objs.len() && !wanted(objs[pos].data, lane, want) {
        lemma_next_wanted(objs, lane, want, pos + 1);
    }
}

/// The sounds of an object as actions.
pub open spec fn sounds_of(data: ObjData) -> Seq<Action> {
    match data.note_sound() {
        Some(sound) => seq![Action::PlaySound(sound, false)],
        None => seq![],
    }
}

impl PlayerModel {
    /// Whether the lane is held down.
    pub open spec fn key_pressed(self, lane: int) -> bool {
        self.keymultiplicity[lane] > 0 || self.joystate[lane] != InputState::Neutral
    }

    /// The index of the object that lies closest to the grading line, of
    /// the last before the object at the line and the first from there on
    /// that are what is looked for in the lane; or -1.
    pub open spec fn closest_wanted(self, lane: usize, want: Want) -> int {
        crate::pointer::closest(
            self.objs,
            self.line@,
            previous_wanted(self.objs, lane, want, self.pcur as int),
            next_wanted(self.objs, lane, want, self.pcur as int),
        )
    }

    /// Whether the distances that tell the closest object can be
    /// represented.
    pub open spec fn closest_wanted_fits(self, lane: usize, want: Want) -> bool {
        crate::pointer::closest_fits(
            self.objs,
            self.line@,
            previous_wanted(self.objs, lane, want, self.pcur as int),
            next_wanted(self.objs, lane, want, self.pcur as int),
        )
    }

    /// How far off the object with the index `p` is from the grading line,
    /// in milliseconds as normalized.
    pub open spec fn offness(self, p: int) -> real {
        normalized(
            self.clock.bpm.0@,
            self.objs[p].time@ - self.line@,
            self.lineshorten@,
            self.gradefactor@,
        )
    }

    /// Whether every number met on the way of [`PlayerModel::offness`] can
    /// be represented.
    pub open spec fn offness_fits(self, p: int) -> bool {
        &&& representable(self.objs[p].time@ - self.line@)
        &&& normalized_fits(
            self.clock.bpm.0@,
            self.objs[p].time@ - self.line@,
            self.lineshorten@,
            self.gradefactor@,
        )
        &&& representable(abs_real(self.offness(p)))
    }

    /// Whether the key of the lane, when it is let go, ends a long note in
    /// time or too early: the index of the end of the long note that is held,
    /// where there is one.
    pub open spec fn held_end(self, lane: usize) -> Option<int> {
        match self.pthru[lane as int] {
            Some(thru) => {
                let p = next_wanted(self.objs, lane, Want::Done, thru as int);
                if p < self.objs.len() {
                    Some(p)
                } else {
                    None
                }
            },
            None => None,
        }
    }

    /// Whether every number met while the key of the lane is let go can be
    /// represented.
    pub open spec fn unpress_fits(self, lane: usize) -> bool {
        self.held_end(lane) matches Some(p) ==> self.offness_fits(p) && (abs_real(self.offness(p))
            >= 144real && !self.nograding[p] ==> self.tally.grade_fits(0real, Some(miss_damage())))
    }

    /// The play after the key of the lane was let go. Where a long note is
    /// held, its end is done with: without a grade if the key is let go
    /// within the widest window around the end, and with a miss if not.
    pub open spec fn unpressed(self, lane: usize) -> PlayerModel {
        let after = match self.held_end(lane) {
            Some(p) => if abs_real(self.offness(p)) < 144real {
                PlayerModel { nograding: self.nograding.update(p, true), ..self }
            } else if !self.nograding[p] {
                self.graded(p, Grade::MISS, 0real, Some(miss_damage()))
            } else {
                self
            },
            None => self,
        };
        PlayerModel { pthru: self.pthru.update(lane as int, None), ..after }
    }

    /// The index of the note that a press of the key of the lane grades, or
    /// -1: the closest graded note of the lane, if it did not get away, was
    /// not graded before, is not the end of a long note, and lies within the
    /// widest window.
    pub open spec fn pressed_note(self, lane: usize) -> int {
        let p = self.closest_wanted(lane, Want::Gradable);
        if p >= 0 && p >= self.pcheck && !self.nograding[p] && !(self.objs[p].data is LNDone)
            && abs_real(self.offness(p)) < 144real {
            p
        } else {
            -1
        }
    }

    /// Whether every number met while the key of the lane is pressed can be
    /// represented.
    pub open spec fn press_fits(self, lane: usize) -> bool {
        &&& self.closest_wanted_fits(lane, Want::Soundable)
        &&& self.closest_wanted_fits(lane, Want::Gradable)
        &&& {
            let p = self.closest_wanted(lane, Want::Gradable);
            p >= 0 && p >= self.pcheck && !self.nograding[p] && !(self.objs[p].data is LNDone)
                ==> self.offness_fits(p)
        }
        &&& {
            let p = self.pressed_note(lane);
            p >= 0 ==> {
                &&& representable(abs_real(self.offness(p)) / 144real)
                &&& representable(1real - abs_real(self.offness(p)) / 144real)
                &&& self.tally.grade_fits(
                    score_weight(self.offness(p)),
                    damage_of(grade_of(self.offness(p))),
                )
            }
        }
    }

    /// The play after the key of the lane was pressed, and what has to
    /// sound: the closest note of the lane gives its sound, and the closest
    /// graded note is graded by how far off it is. The start of a long note
    /// that is graded is held from then on.
    pub open spec fn pressed(self, lane: usize) -> (PlayerModel, Seq<Action>) {
        let s = self.closest_wanted(lane, Want::Soundable);
        let sounds = if s >= 0 {
            sounds_of(self.objs[s].data)
        } else {
            seq![]
        };
        let p = self.pressed_note(lane);
        if p >= 0 {
            let dist = self.offness(p);
            let held = if self.objs[p].data is LNStart {
                PlayerModel { pthru: self.pthru.update(lane as int, Some(p as usize)), ..self }
            } else {
                self
            };
            (held.graded(p, grade_of(dist), score_weight(dist), damage_of(grade_of(dist))), sounds)
        } else {
            (self, sounds)
        }
    }

    /// Whether the change of an input element to the state `state` lets
    /// the lane go: it does if the element comes to rest, or if a stick goes
    /// over to the other side. `continuous` tells a stick from a key.
    pub open spec fn lets_go(self, lane: usize, continuous: bool, state: InputState) -> bool {
        let rests = state == InputState::Neutral || (continuous && self.joystate[lane as int]
            != state);
        rests && (continuous || self.keymultiplicity[lane as int] <= 1)
    }

    /// The input elements of the lane after one was let go, if one was.
    pub open spec fn released_keys(self, lane: usize, continuous: bool, state: InputState) -> PlayerModel {
        let rests = state == InputState::Neutral || (continuous && self.joystate[lane as int]
            != state);
        if !rests {
            self
        } else if continuous {
            PlayerModel { joystate: self.joystate.update(lane as int, state), ..self }
        } else if self.keymultiplicity[lane as int] > 0 {
            PlayerModel {
                keymultiplicity: self.keymultiplicity.update(
                    lane as int,
                    (self.keymultiplicity[lane as int] - 1) as u64,
                ),
                ..self
            }
        } else {
            self
        }
    }

    /// Whether the change of an input element to the state `state` presses
    /// the lane: it does if the element leaves its rest and, where it is a
    /// key, no other key holds the lane down.
    pub open spec fn presses(self, lane: usize, continuous: bool, state: InputState) -> bool {
        state != InputState::Neutral && (continuous || self.keymultiplicity[lane as int] == 0)
    }

    /// The input elements of the lane after one was pressed, if one was.
    pub open spec fn pressed_keys(self, lane: usize, continuous: bool, state: InputState) -> PlayerModel {
        if state == InputState::Neutral {
            self
        } else if continuous {
            PlayerModel { joystate: self.joystate.update(lane as int, state), ..self }
        } else {
            PlayerModel {
                keymultiplicity: self.keymultiplicity.update(
                    lane as int,
                    crate::grade::bump(self.keymultiplicity[lane as int]),
                ),
                ..self
            }
        }
    }

    /// The play after an input element of the lane changed to the state
    /// `state`, and what has to sound; or `None` if a number on the way
    /// cannot be represented. Where the notes play themselves, nothing
    /// happens.
    pub open spec fn after_key(self, lane: usize, continuous: bool, state: InputState) -> Option<
        (PlayerModel, Seq<Action>),
    > {
        if self.autoplay {
            Some((self, seq![]))
        } else {
            let let_go = self.lets_go(lane, continuous, state);
            let keys = self.released_keys(lane, continuous, state);
            if let_go && !keys.unpress_fits(lane) {
                None
            } else {
                let up = if let_go {
                    keys.unpressed(lane)
                } else {
                    keys
                };
                let down = up.presses(lane, continuous, state);
                let keys = up.pressed_keys(lane, continuous, state);
                if down && !keys.press_fits(lane) {
                    None
                } else if down {
                    Some(keys.pressed(lane))
                } else {
                    Some((keys, seq![]))
                }
            }
        }
    }
}

/// Whether the object is what is looked for in the lane.
fn is_wanted(data: &ObjData, lane: usize, want: Want) -> (r: bool)
    ensures
        r == wanted(*data, lane, want),
{
    match data {
        ObjData::Visible(l, _) => l.0 == lane && !matches!(want, Want::Done),
        ObjData::Invisible(l, _) => l.0 == lane && matches!(want, Want::Soundable),
        ObjData::LNStart(l, _) => l.0 == lane && !matches!(want, Want::Done),
        ObjData::LNDone(l, _) => l.0 == lane,
        _ => false,
    }
}

/// The damage of a miss that no bomb gave.
fn standard_miss() -> (r: Damage)
    ensures
        r == miss_damage(),
{
    proof {
        crate::replay::lemma_representable(59, 1000);
    }
    match Ratio::new(59, 1000) {
        Some(share) => Damage::GaugeDamage(share),
        None => Damage::InstantDeath,
    }
}

/// The damage that comes with a grade which a key earned.
fn standard_damage(grade: Grade) -> (r: Option<Damage>)
    ensures
        r == damage_of(grade),
{
    proof {
        crate::replay::lemma_representable(30, 1000);
    }
    match grade {
        Grade::MISS => Some(standard_miss()),
        Grade::BAD => match Ratio::new(30, 1000) {
            Some(share) => Some(Damage::GaugeDamage(share)),
            None => None,
        },
        _ => None,
    }
}

impl Player {
    /// Whether the lane is held down.
    pub fn key_pressed(&self, lane: Lane) -> (r: bool)
        requires
            self@.wf(),
            lane.0 < NLANES,
        ensures
            r == self@.key_pressed(lane.0 as int),
    {
        self.keymultiplicity[lane.0] > 0 || !matches!(self.joystate[lane.0], InputState::Neutral)
    }

    /// The first index from `pos` on of an object that is what is looked
    /// for in the lane, or the number of objects.
    fn find_next(&self, lane: usize, want: Want, pos: usize) -> (r: usize)
        requires
            pos <= self@.objs.len(),
        ensures
            r == next_wanted(self@.objs, lane, want, pos as int),
            pos <= r <= self@.objs.len(),
    {
        let len = self.bms.objs.len();
        let mut i = pos;
        while i < len && !is_wanted(&self.bms.objs[i].data, lane, want)
            invariant
                pos <= i <= len == self@.objs.len(),
                next_wanted(self@.objs, lane, want, i as int) == next_wanted(
                    self@.objs,
                    lane,
                    want,
                    pos as int,
                ),
            decreases len - i,
        {
            i += 1;
        }
        i
    }

    /// The last index below `pos` of an object that is what is looked for
    /// in the lane.
    fn find_previous(&self, lane: usize, want: Want, pos: usize) -> (r: Option<usize>)
        requires
            pos <= self@.objs.len(),
        ensures
            r is Some <==> previous_wanted(self@.objs, lane, want, pos as int) >= 0,
            r matches Some(i) ==> i == previous_wanted(self@.objs, lane, want, pos as int) && i
                < pos,
    {
        let mut i = pos;
        while i > 0
            invariant
                i <= pos <= self@.objs.len(),
                previous_wanted(self@.objs, lane, want, i as int) == previous_wanted(
                    self@.objs,
                    lane,
                    want,
                    pos as int,
                ),
            decreases i,
        {
            i -= 1;
            if is_wanted(&self.bms.objs[i].data, lane, want) {
                return Some(i);
            }
        }
        None
    }

    /// The index of the object closest to the grading line that is what is
    /// looked for in the lane.
    fn find_closest(&self, lane: usize, want: Want) -> (r: Result<Option<usize>, Overflow>)
        requires
            self@.wf(),
        ensures
            r is Ok <==> self@.closest_wanted_fits(lane, want),
            r matches Ok(found) ==> (found is Some <==> self@.closest_wanted(lane, want) >= 0) && (
            found matches Some(p) ==> p == self@.closest_wanted(lane, want) && p
                < self@.objs.len()),
    {
        let len = self.bms.objs.len();
        let previous = self.find_previous(lane, want, self.pcur);
        let next = self.find_next(lane, want, self.pcur);
        match previous {
            None => if next < len {
                Ok(Some(next))
            } else {
                Ok(None)
            },
            Some(previous) => if next >= len {
                Ok(Some(previous))
            } else {
                let before = distance(&self.bms.objs[previous].time, &self.line);
                let behind = distance(&self.bms.objs[next].time, &self.line);
                match (before, behind) {
                    (Some(before), Some(behind)) => if before.lt(&behind) {
                        Ok(Some(previous))
                    } else {
                        Ok(Some(next))
                    },
                    _ => Err(Overflow),
                }
            },
        }
    }

    /// How far off the object with the index `p` is from the grading line,
    /// and the magnitude of that.
    fn offness(&self, p: usize) -> (r: Result<(Ratio, Ratio), Overflow>)
        requires
            p < self@.objs.len(),
        ensures
            r is Ok <==> self@.offness_fits(p as int),
            r matches Ok((dist, size)) ==> dist@ == self@.offness(p as int) && size@ == abs_real(
                dist@,
            ),
    {
        let delta = match self.bms.objs[p].time.sub(&self.line) {
            Some(x) => x,
            None => {
                return Err(Overflow);
            },
        };
        let msec = match self.clock.bpm.measure_to_msec(&delta) {
            Some(x) => x,
            None => {
                return Err(Overflow);
            },
        };
        let scaled = match msec.mul(&self.lineshorten) {
            Some(x) => x,
            None => {
                return Err(Overflow);
            },
        };
        let dist = match scaled.mul(&self.gradefactor) {
            Some(x) => x,
            None => {
                return Err(Overflow);
            },
        };
        match dist.abs() {
            Some(size) => Ok((dist, size)),
            None => Err(Overflow),
        }
    }

    /// Does what letting go of the key of the lane asks for.
    fn process_unpress(&mut self, lane: usize) -> (r: Result<(), Overflow>)
        requires
            old(self)@.wf(),
            lane < NLANES,
        ensures
            r is Ok <==> old(self)@.unpress_fits(lane),
            r is Ok ==> final(self)@ == old(self)@.unpressed(lane),
            final(self).bms == old(self).bms,
            final(self)@.wf(),
            keeps_grades(old(self)@, final(self)@),
    {
        let len = self.bms.objs.len();
        match self.pthru[lane] {
            Some(thru) => {
                let p = self.find_next(lane, Want::Done, thru);
                proof {
                    lemma_next_wanted(self@.objs, lane, Want::Done, thru as int);
                }
                if p < len {
                    let (_, size) = match self.offness(p) {
                        Ok(x) => x,
                        Err(e) => {
                            return Err(e);
                        },
                    };
                    if size.lt(&Ratio::from_int(144)) {
                        self.nograding[p] = true;
                    } else if !self.nograding[p] {
                        match self.record(p, Grade::MISS, &Ratio::from_int(0), Some(standard_miss())) {
                            Ok(_) => {},
                            Err(e) => {
                                return Err(e);
                            },
                        }
                    }
                }
            },
            None => {},
        }
        self.pthru[lane] = None;
        Ok(())
    }

    /// Does what pressing the key of the lane asks for.
    fn process_press(&mut self, lane: usize, actions: &mut Vec<Action>) -> (r: Result<(), Overflow>)
        requires
            old(self)@.wf(),
            lane < NLANES,
        ensures
            r is Ok <==> old(self)@.press_fits(lane),
            r is Ok ==> final(self)@ == old(self)@.pressed(lane).0 && final(actions)@ == old(actions)@ + old(self)@.pressed(lane).1,
            final(self).bms == old(self).bms,
            final(self)@.wf(),
            keeps_grades(old(self)@, final(self)@),
    {
        let ghost before = actions@;
        let soundable = match self.find_closest(lane, Want::Soundable) {
            Ok(x) => x,
            Err(e) => {
                return Err(e);
            },
        };
        let gradable = match self.find_closest(lane, Want::Gradable) {
            Ok(x) => x,
            Err(e) => {
                return Err(e);
            },
        };
        let p = match gradable {
            Some(p) => p,
            None => {
                self.push_sounds(soundable, actions);
                return Ok(());
            },
        };
        let data = self.bms.objs[p].data;
        if !(p >= self.pcheck && !self.nograding[p] && !matches!(data, ObjData::LNDone(..))) {
            self.push_sounds(soundable, actions);
            return Ok(());
        }
        let (dist, size) = match self.offness(p) {
            Ok(x) => x,
            Err(e) => {
                return Err(e);
            },
        };
        if !size.lt(&Ratio::from_int(144)) {
            self.push_sounds(soundable, actions);
            return Ok(());
        }
        let grade = match grade_from_distance(&dist) {
            Ok(x) => x,
            Err(e) => {
                return Err(e);
            },
        };
        let weight = match weight_from_distance(&dist) {
            Ok(x) => x,
            Err(e) => {
                return Err(e);
            },
        };
        let ghost start = self@;
        match self.record(p, grade, &weight, standard_damage(grade)) {
            Ok(_) => {},
            Err(e) => {
                return Err(e);
            },
        }
        if matches!(data, ObjData::LNStart(..)) {
            self.pthru[lane] = Some(p);
        }
        self.push_sounds(soundable, actions);
        Ok(())
    }

    /// Adds the sounds of the object with the index `s`, if there is one,
    /// to the actions.
    fn push_sounds(&self, s: Option<usize>, actions: &mut Vec<Action>)
        requires
            s matches Some(i) ==> i < self@.objs.len(),
        ensures
            final(actions)@ == old(actions)@ + match s {
                Some(i) => sounds_of(self@.objs[i as int].data),
                None => seq![],
            },
    {
        let ghost before = actions@;
        match s {
            Some(i) => match self.bms.objs[i].data {
                ObjData::Visible(_, Some(sound)) | ObjData::Invisible(_, Some(sound))
                | ObjData::LNStart(_, Some(sound)) | ObjData::LNDone(_, Some(sound)) => {
                    actions.push(Action::PlaySound(sound, false));
                    assert(actions@ =~= before + seq![Action::PlaySound(sound, false)]);
                },
                _ => {
                    assert(actions@ =~= before + Seq::<Action>::empty());
                },
            },
            None => {
                assert(actions@ =~= before + Seq::<Action>::empty());
            },
        }
    }

    /// Takes the change of an input element of the lane `lane` to the state
    /// `state`. `continuous` tells a stick, which can go from one side to the
    /// other, from a key or button. What has to sound is added to `actions`.
    pub fn key_event(&mut self, lane: Lane, continuous: bool, state: InputState, actions: &mut Vec<
        Action,
    >) -> (r: Result<(), Overflow>)
        requires
            old(self)@.wf(),
            lane.0 < NLANES,
        ensures
            r is Ok <==> old(self)@.after_key(lane.0, continuous, state) is Some,
            r is Ok ==> final(self)@ == old(self)@.after_key(lane.0, continuous, state).unwrap().0
                && final(actions)@ == old(actions)@ + old(self)@.after_key(
                lane.0,
                continuous,
                state,
            ).unwrap().1,
            final(self).bms == old(self).bms,
            final(self)@.wf(),
            keeps_grades(old(self)@, final(self)@),
    {
        let ghost before = actions@;
        if self.autoplay {
            assert(actions@ =~= before + Seq::<Action>::empty());
            return Ok(());
        }
        let lane = lane.0;
        let neutral = matches!(state, InputState::Neutral);
        let moved = match (self.joystate[lane], state) {
            (InputState::Positive, InputState::Positive) => false,
            (InputState::Neutral, InputState::Neutral) => false,
            (InputState::Negative, InputState::Negative) => false,
            _ => true,
        };
        let mut let_go = false;
        if neutral || (continuous && moved) {
            if continuous {
                self.joystate[lane] = state;
                let_go = true;
            } else {
                if self.keymultiplicity[lane] > 0 {
                    self.keymultiplicity[lane] = self.keymultiplicity[lane] - 1;
                }
                let_go = self.keymultiplicity[lane] == 0;
            }
        }
        assert(self@ == old(self)@.released_keys(lane, continuous, state));
        assert(let_go == old(self)@.lets_go(lane, continuous, state));
        if let_go {
            match self.process_unpress(lane) {
                Ok(()) => {},
                Err(e) => {
                    return Err(e);
                },
            }
        }
        let ghost up = self@;
        assert(up == if let_go {
            old(self)@.released_keys(lane, continuous, state).unpressed(lane)
        } else {
            old(self)@.released_keys(lane, continuous, state)
        });
        let mut down = false;
        if !neutral {
            if continuous {
                self.joystate[lane] = state;
                down = true;
            } else {
                let held = self.keymultiplicity[lane];
                down = held == 0;
                self.keymultiplicity[lane] = if held < u64::MAX {
                    held + 1
                } else {
                    held
                };
            }
        }
        assert(actions@ == before);
        assert(down == up.presses(lane, continuous, state));
        assert(self@ == up.pressed_keys(lane, continuous, state));
        if down {
            self.process_press(lane, actions)
        } else {
            assert(actions@ =~= before + Seq::<Action>::empty());
            Ok(())
        }
    }
}

impl PlayerModel {
    /// Whether the object is a bomb in a lane that is held down.
    pub open spec fn goes_off(self, i: int) -> bool {
        self.objs[i].data matches ObjData::Bomb(lane, _, _) && lane.0 < NLANES && self.key_pressed(
            lane.0 as int,
        )
    }

    /// Whether every number met while the bomb with the index `i` goes off
    /// can be represented.
    pub open spec fn bomb_fits(self, i: int) -> bool {
        self.goes_off(i) && !self.nograding[i] ==> self.tally.grade_fits(
            0real,
            self.objs[i].data.damage_on_pass(),
        )
    }

    /// The play after the object with the index `i` passed the keys, what
    /// has to sound, and whether the play goes on. A bomb in a lane that is
    /// held down goes off: it ends the long note that is held there, sounds,
    /// and gives a miss with its own damage.
    pub open spec fn bomb(self, i: int) -> (PlayerModel, Seq<Action>, bool) {
        if self.goes_off(i) {
            let data = self.objs[i].data;
            let lane = data.lane().unwrap().0;
            let cleared = PlayerModel { pthru: self.pthru.update(lane as int, None), ..self };
            let sound = match data.sound_on_pass() {
                Some(sound) => seq![Action::PlaySound(sound, false)],
                None => seq![],
            };
            if self.nograding[i] {
                (cleared, sound, true)
            } else {
                (
                    cleared.graded(i, Grade::MISS, 0real, data.damage_on_pass()),
                    sound,
                    Tally::survives(data.damage_on_pass()),
                )
            }
        } else {
            (self, seq![], true)
        }
    }

    /// The play after the objects from the index `i` up to the grading line
    /// passed the keys, what has to sound behind `actions`, and whether the
    /// play goes on; or `None` if a number on the way cannot be represented.
    /// Nothing passes behind a deadly bomb.
    pub open spec fn bombs(self, actions: Seq<Action>, i: int) -> Option<
        (PlayerModel, Seq<Action>, bool),
    >
        decreases self.pcur - i,
    {
        if 0 <= i < self.pcur {
            if self.bomb_fits(i) {
                let (next, more, alive) = self.bomb(i);
                if !alive || next.pcur != self.pcur {
                    Some((next, actions + more, alive))
                } else {
                    next.bombs(actions + more, i + 1)
                }
            } else {
                None
            }
        } else {
            Some((self, actions, true))
        }
    }

    /// How far behind the grading line the object with the index `i` lies,
    /// in milliseconds as normalized by the scaling factor of its own
    /// measure.
    pub open spec fn lateness(self, i: int) -> real {
        normalized(
            self.clock.bpm.0@,
            self.line@ - self.objs[i].time@,
            shorten_at(self.shortens, self.objs[i].time@.floor()),
            self.gradefactor@,
        )
    }

    /// Whether every number met on the way of [`PlayerModel::lateness`] can
    /// be represented.
    pub open spec fn lateness_fits(self, i: int) -> bool {
        &&& representable(self.line@ - self.objs[i].time@)
        &&& normalized_fits(
            self.clock.bpm.0@,
            self.line@ - self.objs[i].time@,
            shorten_at(self.shortens, self.objs[i].time@.floor()),
            self.gradefactor@,
        )
    }

    /// Whether the object with the index `i` gets a miss when it gets away:
    /// it does if it was not graded, lies in a lane, and is a visible note,
    /// the start of a long note, or the end of the long note that is held in
    /// its lane.
    pub open spec fn missable(self, i: int) -> bool {
        let data = self.objs[i].data;
        !self.nograding[i] && match data.lane() {
            Some(lane) => lane.0 < NLANES && (data is Visible || data is LNStart || (data is LNDone
                && self.pthru[lane.0 as int] is Some)),
            None => false,
        }
    }

    /// The play after the object with the index `i` got away.
    pub open spec fn missed(self, i: int) -> PlayerModel {
        if self.missable(i) {
            PlayerModel {
                pthru: self.pthru.update(self.objs[i].data.lane().unwrap().0 as int, None),
                ..self.graded(i, Grade::MISS, 0real, Some(miss_damage()))
            }
        } else {
            self
        }
    }

    /// The play after every object from the index `i` up to the grading
    /// line that lies behind the widest window got away; or `None` if a
    /// number on the way cannot be represented.
    pub open spec fn sweep(self, i: int) -> Option<PlayerModel>
        decreases self.pcur - i,
    {
        if 0 <= i < self.pcur {
            if !self.lateness_fits(i) {
                None
            } else if self.lateness(i) < 144real {
                Some(PlayerModel { pcheck: i as usize, ..self })
            } else if self.missable(i) && !self.tally.grade_fits(0real, Some(miss_damage())) {
                None
            } else if self.missed(i).pcur != self.pcur {
                None
            } else {
                self.missed(i).sweep(i + 1)
            }
        } else {
            Some(PlayerModel { pcheck: self.pcur, ..self })
        }
    }

    /// Whether the play goes on, by the position alone.
    pub open spec fn status(self) -> Status {
        if self.bottom@ > (self.nmeasures + 1) as real {
            Status::Finished
        } else if self.bottom@ < self.originoffset as real {
            Status::Rewound
        } else {
            Status::Running
        }
    }

    /// The play at the end of a step, what has to sound, and how the step
    /// ended; or `None` if a number on the way cannot be represented.
    ///
    /// Where the notes do not play themselves, the bombs that passed since
    /// the step before go off in the lanes that are held down, and then
    /// every note that got away gets its miss.
    pub open spec fn finished(self) -> Option<(PlayerModel, Seq<Action>, Status)> {
        if self.autoplay {
            Some((PlayerModel { prevpcur: self.pcur, ..self }, seq![], self.status()))
        } else {
            match self.bombs(seq![], self.prevpcur as int) {
                None => None,
                Some((bombed, actions, alive)) => if !alive {
                    Some(
                        (
                            PlayerModel {
                                pcur: self.objs.len() as usize,
                                prevpcur: self.objs.len() as usize,
                                ..bombed
                            },
                            actions,
                            Status::Died,
                        ),
                    )
                } else {
                    match bombed.sweep(bombed.pcheck as int) {
                        None => None,
                        Some(swept) => Some(
                            (PlayerModel { prevpcur: swept.pcur, ..swept }, actions, swept.status()),
                        ),
                    }
                },
            }
        }
    }

    /// The play at its start.
    pub open spec fn start(bms: Bms, originoffset: i64, nnotes: i64, now: i64, autoplay: bool) -> PlayerModel {
        let origin = canonical(originoffset as real);
        let shorten = shorten_ratio(bms.shortens@, originoffset as int);
        PlayerModel {
            objs: bms.objs@,
            shortens: bms.shortens@,
            nmeasures: bms.nmeasures,
            originoffset,
            autoplay,
            clock: Clock {
                bpm: bms.initbpm,
                starttime: now,
                stoptime: None,
                startoffset: origin,
                startshorten: shorten,
            },
            now,
            bottom: origin,
            line: origin,
            lineshorten: shorten,
            bga: seq![None, None, None, Some(ImageRef(Key(0)))],
            pfront: 0,
            pcur: 0,
            pcheck: 0,
            prevpcur: 0,
            pthru: Seq::new(NLANES as nat, |i: int| None),
            nograding: Seq::new(bms.objs@.len(), |i: int| false),
            grades: Seq::new(bms.objs@.len(), |i: int| None),
            gradefactor: canonical(grade_factor(bms.rank)),
            tally: Tally {
                misses: 0,
                bads: 0,
                goods: 0,
                greats: 0,
                cools: 0,
                lastgrade: None,
                lastcombo: 0,
                bestcombo: 0,
                score: 0,
                gauge: 256,
                survival: 150,
                nnotes,
            },
            keymultiplicity: Seq::new(NLANES as nat, |i: int| 0u64),
            joystate: Seq::new(NLANES as nat, |i: int| InputState::Neutral),
        }
    }
}

/// What widens or narrows the grading windows, by the rank of the chart:
/// three halves for the rank zero, and a quarter less for each rank up to
/// the fifth.
pub open spec fn grade_factor(rank: i64) -> real {
    quot(
        6 - if rank > 5 {
            5
        } else {
            rank as int
        },
        4,
    )
}

/// A list that holds `value` `n` times.
fn filled<T: Copy>(value: T, n: usize) -> (r: Vec<T>)
    ensures
        r@ == Seq::new(n as nat, |i: int| value),
{
    let mut r: Vec<T> = Vec::new();
    let mut i: usize = 0;
    while i < n
        invariant
            i <= n,
            r@.len() == i,
            forall|j: int| 0 <= j < i ==> r@[j] == value,
        decreases n - i,
    {
        r.push(value);
        i += 1;
    }
    assert(r@ =~= Seq::new(n as nat, |i: int| value));
    r
}

impl Player {
    /// A play of the chart `bms` that starts at the time `now`, in
    /// milliseconds, from the position `originoffset`, where the chart has
    /// `nnotes` notes. `Err` where the factor of the grading windows cannot be
    /// represented.
    pub fn new(bms: Rc<Bms>, originoffset: i64, nnotes: i64, now: i64, autoplay: bool) -> (r: Result<
        Player,
        Overflow,
    >)
        ensures
            r is Ok <==> representable(grade_factor(bms.rank)),
            r matches Ok(player) ==> player.bms == bms && player@ == PlayerModel::start(
                *bms,
                originoffset,
                nnotes,
                now,
                autoplay,
            ) && player@.wf(),
    {
        let rank: i128 = if bms.rank > 5 {
            5
        } else {
            bms.rank as i128
        };
        let gradefactor = match Ratio::from_wide(6 - rank, 4) {
            Some(x) => x,
            None => {
                return Err(Overflow);
            },
        };
        let origin = Ratio::from_int(originoffset);
        let shorten = bms.shorten(originoffset);
        let nobjs = bms.objs.len();
        let clock = Clock::new(bms.initbpm, now, origin, shorten);
        let none: Option<Grade> = None;
        let free: Option<usize> = None;
        let player = Player {
            bms,
            originoffset,
            autoplay,
            clock,
            now,
            bottom: origin,
            line: origin,
            lineshorten: shorten,
            bga: initial_bga_state(),
            pfront: 0,
            pcur: 0,
            pcheck: 0,
            prevpcur: 0,
            pthru: filled(free, NLANES),
            nograding: filled(false, nobjs),
            grades: filled(none, nobjs),
            gradefactor,
            tally: Tally::new(nnotes),
            keymultiplicity: filled(0u64, NLANES),
            joystate: filled(InputState::Neutral, NLANES),
        };
        proof {
            lemma_graded_count_none(player@.grades, player@.grades.len() as int);
        }
        Ok(player)
    }

    /// Lets the object with the index `i` pass the keys.
    fn apply_bomb(&mut self, i: usize, actions: &mut Vec<Action>) -> (r: Result<bool, Overflow>)
        requires
            old(self)@.wf(),
            i < old(self).pcur,
        ensures
            r is Ok <==> old(self)@.bomb_fits(i as int),
            r matches Ok(alive) ==> final(self)@ == old(self)@.bomb(i as int).0 && final(actions)@
                == old(actions)@ + old(self)@.bomb(i as int).1 && alive == old(self)@.bomb(
                i as int,
            ).2,
            final(self).bms == old(self).bms,
            final(self)@.wf(),
            final(self).pcur == old(self).pcur,
            final(self).pcheck == old(self).pcheck,
            final(self).prevpcur == old(self).prevpcur,
            keeps_grades(old(self)@, final(self)@),
    {
        let ghost before = actions@;
        match self.bms.objs[i].data {
            ObjData::Bomb(lane, sref, damage) => {
                if lane.0 < NLANES && self.key_pressed(lane) {
                    let alive = if self.nograding[i] {
                        true
                    } else {
                        match self.record(i, Grade::MISS, &Ratio::from_int(0), Some(damage)) {
                            Ok(alive) => alive,
                            Err(e) => {
                                return Err(e);
                            },
                        }
                    };
                    self.pthru[lane.0] = None;
                    match sref {
                        Some(sound) => {
                            actions.push(Action::PlaySound(sound, false));
                            assert(actions@ =~= before + seq![Action::PlaySound(sound, false)]);
                        },
                        None => {
                            assert(actions@ =~= before + Seq::<Action>::empty());
                        },
                    }
                    Ok(alive)
                } else {
                    assert(actions@ =~= before + Seq::<Action>::empty());
                    Ok(true)
                }
            },
            _ => {
                assert(actions@ =~= before + Seq::<Action>::empty());
                Ok(true)
            },
        }
    }

    /// How far behind the grading line the object with the index `i` lies.
    fn lateness(&self, i: usize) -> (r: Result<Ratio, Overflow>)
        requires
            i < self@.objs.len(),
        ensures
            r is Ok <==> self@.lateness_fits(i as int),
            r matches Ok(dist) ==> dist@ == self@.lateness(i as int),
    {
        let obj = &self.bms.objs[i];
        let delta = match self.line.sub(&obj.time) {
            Some(x) => x,
            None => {
                return Err(Overflow);
            },
        };
        let msec = match self.clock.bpm.measure_to_msec(&delta) {
            Some(x) => x,
            None => {
                return Err(Overflow);
            },
        };
        let scaled = match msec.mul(&self.bms.shorten(obj.measure())) {
            Some(x) => x,
            None => {
                return Err(Overflow);
            },
        };
        match scaled.mul(&self.gradefactor) {
            Some(x) => Ok(x),
            None => Err(Overflow),
        }
    }

    /// Gives the object with the index `i` its miss, if it gets one.
    fn apply_miss(&mut self, i: usize) -> (r: Result<(), Overflow>)
        requires
            old(self)@.wf(),
            i < old(self)@.objs.len(),
        ensures
            r is Ok <==> (old(self)@.missable(i as int) ==> old(self)@.tally.grade_fits(
                0real,
                Some(miss_damage()),
            )),
            r is Ok ==> final(self)@ == old(self)@.missed(i as int),
            r is Ok && must_be_graded(old(self)@.objs[i as int]) ==> final(self)@.grades[i as int] is Some,
            final(self).bms == old(self).bms,
            final(self)@.wf(),
            final(self).pcur == old(self).pcur,
            final(self).pcheck == old(self).pcheck,
            keeps_grades(old(self)@, final(self)@),
    {
        if self.nograding[i] {
            return Ok(());
        }
        let data = self.bms.objs[i].data;
        let lane = match data {
            ObjData::Visible(lane, _) | ObjData::LNStart(lane, _) => if lane.0 < NLANES {
                lane.0
            } else {
                return Ok(());
            },
            ObjData::LNDone(lane, _) => if lane.0 < NLANES && self.pthru[lane.0].is_some() {
                lane.0
            } else {
                return Ok(());
            },
            _ => {
                return Ok(());
            },
        };
        match self.record(i, Grade::MISS, &Ratio::from_int(0), Some(standard_miss())) {
            Ok(_) => {},
            Err(e) => {
                return Err(e);
            },
        }
        self.pthru[lane] = None;
        Ok(())
    }

    /// Ends a step: sets off the bombs that passed a lane held down, gives
    /// a miss to every note that got away, and says how the step ended. What
    /// has to sound is added to `actions`.
    pub fn finish(&mut self, actions: &mut Vec<Action>) -> (r: Result<Status, Overflow>)
        requires
            old(self)@.wf(),
        ensures
            r is Ok <==> old(self)@.finished() is Some,
            r matches Ok(status) ==> final(self)@ == old(self)@.finished().unwrap().0 && final(actions)@ == old(actions)@ + old(self)@.finished().unwrap().1 && status == old(self)@.finished().unwrap().2,
            final(self).bms == old(self).bms,
            final(self)@.wf(),
            keeps_grades(old(self)@, final(self)@),
    {
        let ghost first = actions@;
        let len = self.bms.objs.len();
        if !self.autoplay {
            let mut i = self.prevpcur;
            assert(actions@ =~= first + Seq::<Action>::empty());
            while i < self.pcur
                invariant
                    self.bms == old(self).bms,
                    len == self@.objs.len(),
                    self@.wf(),
                    !self.autoplay,
                    !old(self).autoplay,
                    first == old(actions)@,
                    old(self).prevpcur <= i,
                    self.pcur == old(self).pcur,
                    self.prevpcur == old(self).prevpcur,
                    keeps_grades(old(self)@, self@),
                    exists|sofar: Seq<Action>|
                        actions@ == first + sofar && #[trigger] self@.bombs(sofar, i as int) == old(
                            self,
                        )@.bombs(seq![], old(self).prevpcur as int),
                decreases self.pcur - i,
            {
                let ghost sofar = choose|sofar: Seq<Action>|
                    actions@ == first + sofar && #[trigger] self@.bombs(sofar, i as int) == old(
                        self,
                    )@.bombs(seq![], old(self).prevpcur as int);
                let ghost step = self@;
                match self.apply_bomb(i, actions) {
                    Ok(alive) => {
                        proof {
                            let more = step.bomb(i as int).1;
                            assert(actions@ =~= first + (sofar + more));
                        }
                        if !alive {
                            proof {
                                let more = step.bomb(i as int).1;
                                assert(old(self)@.bombs(seq![], old(self).prevpcur as int) == Some(
                                    (self@, sofar + more, false),
                                ));
                            }
                            let ghost stepped = self@;
                            self.pcur = len;
                            self.prevpcur = len;
                            assert(self@ == (PlayerModel { pcur: len, prevpcur: len, ..stepped }));
                            assert(old(self)@.finished() == Some(
                                (self@, sofar + step.bomb(i as int).1, Status::Died),
                            ));
                            return Ok(Status::Died);
                        }
                        proof {
                            let more = step.bomb(i as int).1;
                            assert(self@.bombs(sofar + more, i + 1) == old(self)@.bombs(
                                seq![],
                                old(self).prevpcur as int,
                            ));
                        }
                    },
                    Err(e) => {
                        return Err(e);
                    },
                }
                i += 1;
            }
            let ghost bombed = self@;
            let ghost acts = choose|sofar: Seq<Action>|
                actions@ == first + sofar && #[trigger] self@.bombs(sofar, i as int) == old(
                    self,
                )@.bombs(seq![], old(self).prevpcur as int);
            assert(old(self)@.bombs(seq![], old(self).prevpcur as int) == Some(
                (bombed, acts, true),
            ));
            let mut k = self.pcheck;
            let mut stop = false;
            while !stop && k < self.pcur
                invariant
                    self.bms == old(self).bms,
                    len == self@.objs.len(),
                    self@.wf(),
                    !self.autoplay,
                    !old(self).autoplay,
                    first == old(actions)@,
                    actions@ == first + acts,
                    old(self)@.bombs(seq![], old(self).prevpcur as int) == Some(
                        (bombed, acts, true),
                    ),
                    self.pcheck <= k <= self.pcur,
                    self.pcur == bombed.pcur,
                    self.pcheck == bombed.pcheck,
                    self.prevpcur == bombed.prevpcur,
                    keeps_grades(old(self)@, self@),
                    forall|j: int|
                        0 <= j < k ==> (must_be_graded(#[trigger] self@.objs[j])
                            ==> self@.grades[j] is Some),
                    self@.sweep(k as int) == bombed.sweep(bombed.pcheck as int),
                    stop ==> k < self.pcur && self@.lateness_fits(k as int) && self@.lateness(
                        k as int,
                    ) < 144real,
                decreases self.pcur - k + (if stop { 0int } else { 1int }),
            {
                let dist = match self.lateness(k) {
                    Ok(x) => x,
                    Err(e) => {
                        return Err(e);
                    },
                };
                if dist.lt(&Ratio::from_int(144)) {
                    stop = true;
                } else {
                    match self.apply_miss(k) {
                        Ok(()) => {},
                        Err(e) => {
                            return Err(e);
                        },
                    }
                    k += 1;
                }
            }
            assert(self@.sweep(k as int) == Some(PlayerModel { pcheck: k, ..self@ }));
            self.pcheck = k;
        }
        self.prevpcur = self.pcur;
        let edge = Ratio::from_int(self.originoffset);
        let end: i128 = (self.bms.nmeasures as i128) + 1;
        let whole = self.bottom.floor();
        let over = if (whole as i128) > end {
            true
        } else if (whole as i128) == end {
            !self.bottom.same(&Ratio::from_int(whole))
        } else {
            false
        };
        Ok(
            if over {
                Status::Finished
            } else if self.bottom.lt(&edge) {
                Status::Rewound
            } else {
                Status::Running
            },
        )
    }
}

} // verus!
