//! Grades, and what they do to the score, the combo and the gauge.

use vstd::prelude::*;
use crate::obj::Damage;
use crate::ratio::{abs_real, canonical, quot, representable, Overflow, Ratio};

verus! {

/// How well an object was played.
#[derive(Clone, Copy, Debug, PartialEq, Eq, Structural)]
pub enum Grade {
    /// Not played at all, or a bomb set off, or the end of a long note let
    /// go too early or too late. Breaks the combo and hurts the gauge much.
    MISS,
    /// Played far off. Breaks the combo and hurts the gauge.
    BAD,
    /// Played off. Leaves combo and gauge as they are.
    GOOD,
    /// Played well. Adds to the combo and fills the gauge a little.
    GREAT,
    /// Played best. Adds to the combo and fills the gauge more.
    COOL,
}

/// The number of grades.
pub const NGRADES: usize = 5;

/// The most that the gauge holds.
pub const MAXGAUGE: i64 = 512;

/// The score of an object that is played exactly, before the combo counts.
pub const SCOREPERNOTE: i64 = 300;

/// The grade of an object that was played `dist` milliseconds off, as
/// normalized: below 14.4 the best, below 48 the next, below 84, below 144,
/// and else a miss.
pub open spec fn grade_of(dist: real) -> Grade {
    let d = abs_real(dist);
    if d < quot(72, 5) {
        Grade::COOL
    } else if d < 48real {
        Grade::GREAT
    } else if d < 84real {
        Grade::GOOD
    } else if d < 144real {
        Grade::BAD
    } else {
        Grade::MISS
    }
}

/// The share of the score that an object earns which was played `dist`
/// milliseconds off: all of it when played exactly, and nothing from the
/// edge of the worst window on.
pub open spec fn score_weight(dist: real) -> real {
    let d = abs_real(dist);
    if d < 144real {
        1real - d / 144real
    } else {
        0real
    }
}

/// The score that an object earns, by its share, the combo so far and the
/// number of notes of the chart.
pub open spec fn score_gain(weight: real, combo: int, nnotes: int) -> int {
    if nnotes <= 0 {
        0
    } else {
        (weight * 300real * (1real + quot(combo, nnotes))).floor()
    }
}

/// `x`, but not below the least nor above the most that 64 bits hold.
pub open spec fn clamp_i64(x: int) -> i64 {
    if x < i64::MIN {
        i64::MIN
    } else if x > i64::MAX {
        i64::MAX
    } else {
        x as i64
    }
}

/// One more than `x`, unless `x` is the most that 64 bits hold.
pub open spec fn bump(x: u64) -> u64 {
    if x < u64::MAX {
        (x + 1) as u64
    } else {
        x
    }
}

/// What has been reached in a play.
#[derive(Clone, Copy, Debug, PartialEq, Eq)]
pub struct Tally {
    /// How often each grade was given, from the miss to the best.
    pub misses: u64,
    pub bads: u64,
    pub goods: u64,
    pub greats: u64,
    pub cools: u64,
    /// The last grade, and the time at which it was given.
    pub lastgrade: Option<(Grade, i64)>,
    /// The number of objects played well or best in a row, up to now.
    pub lastcombo: u64,
    /// The largest number of objects played well or best in a row.
    pub bestcombo: u64,
    /// The score.
    pub score: u64,
    /// The gauge. It is never above `MAXGAUGE`, and may fall below zero.
    pub gauge: i64,
    /// The gauge that is needed at the end for the play to count as
    /// cleared.
    pub survival: i64,
    /// The number of notes of the chart.
    pub nnotes: i64,
}

impl Tally {
    /// How often the grade was given.
    pub open spec fn count_of(self, grade: Grade) -> u64 {
        match grade {
            Grade::MISS => self.misses,
            Grade::BAD => self.bads,
            Grade::GOOD => self.goods,
            Grade::GREAT => self.greats,
            Grade::COOL => self.cools,
        }
    }

    /// How many grades were given in all.
    pub open spec fn total(self) -> int {
        self.misses + self.bads + self.goods + self.greats + self.cools
    }

    /// The tally with the grade counted once more.
    pub open spec fn counted(self, grade: Grade) -> Tally {
        match grade {
            Grade::MISS => Tally { misses: bump(self.misses), ..self },
            Grade::BAD => Tally { bads: bump(self.bads), ..self },
            Grade::GOOD => Tally { goods: bump(self.goods), ..self },
            Grade::GREAT => Tally { greats: bump(self.greats), ..self },
            Grade::COOL => Tally { cools: bump(self.cools), ..self },
        }
    }

    /// The combo after the grade: none after a miss or a bad, the same
    /// after a good, and one more after the two best.
    pub open spec fn combo_after(self, grade: Grade) -> u64 {
        match grade {
            Grade::MISS | Grade::BAD => 0,
            Grade::GOOD => self.lastcombo,
            Grade::GREAT | Grade::COOL => bump(self.lastcombo),
        }
    }

    /// The gauge after the grade, before any damage: the two best grades
    /// add two and three, and one more for every fifty of the combo so far
    /// up to a hundred; the gauge stops at `MAXGAUGE`.
    pub open spec fn gauge_after(self, grade: Grade) -> i64 {
        match grade {
            Grade::GREAT | Grade::COOL => {
                let weight: int = if grade == Grade::GREAT {
                    2
                } else {
                    3
                };
                let bonus: int = if self.lastcombo >= 100 {
                    2
                } else {
                    self.lastcombo as int / 50
                };
                let filled = self.gauge + weight + bonus;
                if filled > MAXGAUGE {
                    MAXGAUGE
                } else {
                    filled as i64
                }
            },
            _ => self.gauge,
        }
    }

    /// The gauge `gauge` after the damage `damage`: a share of the full
    /// gauge less, in whole points, or no more than zero where the damage is
    /// deadly. The gauge stops at `MAXGAUGE`.
    pub open spec fn damaged(gauge: i64, damage: Option<Damage>) -> i64 {
        match damage {
            Some(Damage::GaugeDamage(ratio)) => {
                let left = gauge - (512real * ratio@).floor();
                if left > MAXGAUGE {
                    MAXGAUGE
                } else {
                    clamp_i64(left)
                }
            },
            Some(Damage::InstantDeath) => if gauge < 0 {
                gauge
            } else {
                0
            },
            None => gauge,
        }
    }

    /// Whether the gauge is no more than full.
    pub open spec fn wf(self) -> bool {
        self.gauge <= MAXGAUGE
    }

    /// The tally after a grade was given at the time `now`, for an object
    /// that earns the share `weight` of the score, with the damage
    /// `damage`.
    pub open spec fn graded(self, grade: Grade, weight: real, damage: Option<Damage>, now: i64) -> Tally {
        let combo = self.combo_after(grade);
        Tally {
            lastgrade: Some((grade, now)),
            score: clamp_u64(self.score + score_gain(weight, self.lastcombo as int, self.nnotes as int)),
            lastcombo: combo,
            bestcombo: if combo > self.bestcombo {
                combo
            } else {
                self.bestcombo
            },
            gauge: Tally::damaged(self.gauge_after(grade), damage),
            ..self.counted(grade)
        }
    }

    /// Whether every number met on the way of [`Tally::graded`] can be
    /// represented.
    pub open spec fn grade_fits(self, weight: real, damage: Option<Damage>) -> bool {
        &&& self.nnotes > 0 ==> {
            &&& self.lastcombo <= i64::MAX
            &&& representable(weight * 300real)
            &&& representable(quot(self.lastcombo as int, self.nnotes as int))
            &&& representable(1real + quot(self.lastcombo as int, self.nnotes as int))
            &&& representable(
                weight * 300real * (1real + quot(self.lastcombo as int, self.nnotes as int)),
            )
        }
        &&& damage matches Some(Damage::GaugeDamage(ratio)) ==> representable(512real * ratio@)
    }

    /// Whether the play goes on after the damage: it does unless the damage
    /// is deadly.
    pub open spec fn survives(damage: Option<Damage>) -> bool {
        !(damage matches Some(Damage::InstantDeath))
    }
}

/// `x`, but not below zero nor above the most that 64 bits hold.
pub open spec fn clamp_u64(x: int) -> u64 {
    if x < 0 {
        0
    } else if x > u64::MAX {
        u64::MAX
    } else {
        x as u64
    }
}

/// The grade of an object that was played `dist` milliseconds off.
pub fn grade_from_distance(dist: &Ratio) -> (r: Result<Grade, Overflow>)
    ensures
        r is Ok <==> representable(abs_real(dist@)),
        r matches Ok(grade) ==> grade == grade_of(dist@),
{
    let d = match dist.abs() {
        Some(d) => d,
        None => {
            return Err(Overflow);
        },
    };
    proof {
        crate::replay::lemma_representable(72, 5);
    }
    let cool = match Ratio::new(72, 5) {
        Some(c) => c,
        None => {
            return Err(Overflow);
        },
    };
    Ok(
        if d.lt(&cool) {
            Grade::COOL
        } else if d.lt(&Ratio::from_int(48)) {
            Grade::GREAT
        } else if d.lt(&Ratio::from_int(84)) {
            Grade::GOOD
        } else if d.lt(&Ratio::from_int(144)) {
            Grade::BAD
        } else {
            Grade::MISS
        },
    )
}

/// The share of the score that an object earns which was played `dist`
/// milliseconds off.
pub fn weight_from_distance(dist: &Ratio) -> (r: Result<Ratio, Overflow>)
    ensures
        r is Ok <==> representable(abs_real(dist@)) && (abs_real(dist@) < 144real ==> representable(
            abs_real(dist@) / 144real,
        ) && representable(1real - abs_real(dist@) / 144real)),
        r matches Ok(w) ==> w@ == score_weight(dist@),
{
    let d = match dist.abs() {
        Some(d) => d,
        None => {
            return Err(Overflow);
        },
    };
    if d.lt(&Ratio::from_int(144)) {
        let part = match d.div(&Ratio::from_int(144)) {
            Some(x) => x,
            None => {
                return Err(Overflow);
            },
        };
        match Ratio::from_int(1).sub(&part) {
            Some(w) => Ok(w),
            None => Err(Overflow),
        }
    } else {
        Ok(Ratio::from_int(0))
    }
}

fn bump_count(x: u64) -> (r: u64)
    ensures
        r == bump(x),
{
    if x < u64::MAX {
        x + 1
    } else {
        x
    }
}

impl Tally {
    /// The tally at the start of a play: the gauge half full, and 293
    /// thousandths of it needed at the end.
    pub fn new(nnotes: i64) -> (r: Tally)
        ensures
            r == (Tally {
                misses: 0,
                bads: 0,
                goods: 0,
                greats: 0,
                cools: 0,
                lastgrade: None,
                lastcombo: 0,
                bestcombo: 0,
                score: 0,
                gauge: 256,
                survival: 150,
                nnotes,
            }),
            r.wf(),
    {
        Tally {
            misses: 0,
            bads: 0,
            goods: 0,
            greats: 0,
            cools: 0,
            lastgrade: None,
            lastcombo: 0,
            bestcombo: 0,
            score: 0,
            gauge: MAXGAUGE * 500 / 1000,
            survival: MAXGAUGE * 293 / 1000,
            nnotes,
        }
    }

    /// How often the grade was given.
    pub fn count(&self, grade: Grade) -> (r: u64)
        ensures
            r == self.count_of(grade),
    {
        match grade {
            Grade::MISS => self.misses,
            Grade::BAD => self.bads,
            Grade::GOOD => self.goods,
            Grade::GREAT => self.greats,
            Grade::COOL => self.cools,
        }
    }

    /// Whether the gauge is enough for the play to count as cleared.
    pub fn cleared(&self) -> (r: bool)
        ensures
            r == (self.gauge >= self.survival),
    {
        self.gauge >= self.survival
    }

    /// Takes a grade into the tally, and says whether the play goes on: it
    /// does unless the damage is deadly.
    pub fn update_grade(&mut self, grade: Grade, scoredelta: &Ratio, damage: Option<Damage>, now: i64) -> (r:
        Result<bool, Overflow>)
        requires
            old(self).wf(),
        ensures
            r is Ok <==> old(self).grade_fits(scoredelta@, damage),
            r matches Ok(alive) ==> alive == Tally::survives(damage) && *final(self) == old(
                self,
            ).graded(grade, scoredelta@, damage, now),
            r is Err ==> *final(self) == *old(self),
            final(self).wf(),
    {
        let gain: i64 = if self.nnotes > 0 {
            if self.lastcombo > i64::MAX as u64 {
                return Err(Overflow);
            }
            proof {
                crate::replay::lemma_representable(self.lastcombo as int, self.nnotes as int);
            }
            let base = match scoredelta.mul(&Ratio::from_int(SCOREPERNOTE)) {
                Some(x) => x,
                None => {
                    return Err(Overflow);
                },
            };
            let ratio = match Ratio::new(self.lastcombo as i64, self.nnotes) {
                Some(x) => x,
                None => {
                    return Err(Overflow);
                },
            };
            let factor = match Ratio::from_int(1).add(&ratio) {
                Some(x) => x,
                None => {
                    return Err(Overflow);
                },
            };
            match base.mul(&factor) {
                Some(x) => x.floor(),
                None => {
                    return Err(Overflow);
                },
            }
        } else {
            0
        };
        let hurt: i64 = match damage {
            Some(Damage::GaugeDamage(ratio)) => match Ratio::from_int(MAXGAUGE).mul(&ratio) {
                Some(x) => x.floor(),
                None => {
                    return Err(Overflow);
                },
            },
            _ => 0,
        };
        match grade {
            Grade::MISS => {
                self.misses = bump_count(self.misses);
            },
            Grade::BAD => {
                self.bads = bump_count(self.bads);
            },
            Grade::GOOD => {
                self.goods = bump_count(self.goods);
            },
            Grade::GREAT => {
                self.greats = bump_count(self.greats);
            },
            Grade::COOL => {
                self.cools = bump_count(self.cools);
            },
        }
        self.lastgrade = Some((grade, now));
        let total: i128 = (self.score as i128) + (gain as i128);
        self.score = if total < 0 {
            0
        } else if total > u64::MAX as i128 {
            u64::MAX
        } else {
            total as u64
        };
        match grade {
            Grade::MISS | Grade::BAD => {
                self.lastcombo = 0;
            },
            Grade::GOOD => {},
            Grade::GREAT | Grade::COOL => {
                let weight: i64 = if matches!(grade, Grade::GREAT) {
                    2
                } else {
                    3
                };
                let bonus: i64 = if self.lastcombo >= 100 {
                    2
                } else {
                    (self.lastcombo / 50) as i64
                };
                self.lastcombo = bump_count(self.lastcombo);
                let filled: i128 = (self.gauge as i128) + (weight as i128) + (bonus as i128);
                self.gauge = if filled > MAXGAUGE as i128 {
                    MAXGAUGE
                } else {
                    filled as i64
                };
            },
        }
        if self.lastcombo > self.bestcombo {
            self.bestcombo = self.lastcombo;
        }
        match damage {
            Some(Damage::GaugeDamage(_)) => {
                let left: i128 = (self.gauge as i128) - (hurt as i128);
                self.gauge = if left < i64::MIN as i128 {
                    i64::MIN
                } else if left > MAXGAUGE as i128 {
                    MAXGAUGE
                } else {
                    left as i64
                };
                Ok(true)
            },
            Some(Damage::InstantDeath) => {
                if self.gauge > 0 {
                    self.gauge = 0;
                }
                Ok(false)
            },
            None => Ok(true),
        }
    }
}

} // verus!
