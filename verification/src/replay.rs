//! Placing the data of the channels on the time line.
//!
//! The data of one channel in one measure is a row of two-letter keys,
//! spread evenly over the measure. Key `00` stands for nothing; what any
//! other key places depends on the channel.

use vstd::prelude::*;
use crate::key::{hex_value, key_at, Key, MAXKEY};
use crate::lane::{channel_lane, Lane, NLANES};
use crate::obj::{BGALayer, Damage, Duration, ImageRef, Obj, ObjData, SoundRef, BPM};
use crate::ratio::{canonical, quot, representable, Ratio};
use crate::scan::{decimal_at, read_decimal, skip_spaces, trim_left, FromStrPrefix};
use crate::timeline::shortens_positive;

verus! {

/// What the keys of some channels stand for, and how long notes are
/// written.
pub struct Tables {
    /// The tempo that each key stands for.
    pub bpmtab: Vec<BPM>,
    /// The stop that each key stands for.
    pub stoptab: Vec<Duration>,
    /// Whether each key of a long-note channel is a long note of its own
    /// that joins the one before it. Otherwise the keys are, in turn, the
    /// starts and ends of long notes.
    pub consecutiveln: bool,
    /// The key that, on a channel of visible notes, ends a long note which
    /// the note before it then starts.
    pub lnobj: Option<Key>,
}

/// [`Tables`] as a mathematical value.
pub struct TablesModel {
    pub bpmtab: Seq<BPM>,
    pub stoptab: Seq<Duration>,
    pub consecutiveln: bool,
    pub lnobj: Option<Key>,
}

impl View for Tables {
    type V = TablesModel;

    open spec fn view(&self) -> TablesModel {
        TablesModel {
            bpmtab: self.bpmtab@,
            stoptab: self.stoptab@,
            consecutiveln: self.consecutiveln,
            lnobj: self.lnobj,
        }
    }
}

impl TablesModel {
    /// Whether both tables have an entry for every key.
    pub open spec fn wf(self) -> bool {
        self.bpmtab.len() == MAXKEY && self.stoptab.len() == MAXKEY
    }
}

/// The data of one channel in one measure.
#[derive(Clone, Debug, PartialEq, Eq)]
pub struct BmsLine {
    pub measure: usize,
    pub chan: Key,
    pub data: Vec<u8>,
}

/// [`BmsLine`] as a mathematical value.
pub struct LineModel {
    pub measure: usize,
    pub chan: Key,
    pub data: Seq<u8>,
}

impl View for BmsLine {
    type V = LineModel;

    open spec fn view(&self) -> LineModel {
        LineModel { measure: self.measure, chan: self.chan, data: self.data@ }
    }
}

impl LineModel {
    /// Whether the measure has three digits and the channel is a valid key.
    pub open spec fn wf(self) -> bool {
        self.measure < 1000 && 0 <= self.chan.0 < MAXKEY
    }
}

/// The time line while it is filled.
pub struct Placer {
    /// The objects placed so far.
    pub objs: Vec<Obj>,
    /// The scaling factors set so far.
    pub shortens: Vec<Ratio>,
    /// For each lane, the index of the last visible note, which a later
    /// `lnobj` key turns into the start of a long note.
    pub lastvis: Vec<Option<usize>>,
    /// For each lane, the index of the last start or end of a long note
    /// that is not yet closed.
    pub lastln: Vec<Option<usize>>,
}

/// [`Placer`] as a mathematical value.
pub struct PlacerModel {
    pub objs: Seq<Obj>,
    pub shortens: Seq<Ratio>,
    pub lastvis: Seq<Option<usize>>,
    pub lastln: Seq<Option<usize>>,
}

impl View for Placer {
    type V = PlacerModel;

    open spec fn view(&self) -> PlacerModel {
        PlacerModel {
            objs: self.objs@,
            shortens: self.shortens@,
            lastvis: self.lastvis@,
            lastln: self.lastln@,
        }
    }
}

impl PlacerModel {
    /// Whether there is a place for each lane, and each index that is kept
    /// is that of an object.
    pub open spec fn wf(self) -> bool {
        &&& self.lastvis.len() == NLANES
        &&& self.lastln.len() == NLANES
        &&& forall|lane: int|
            0 <= lane < NLANES ==> ((#[trigger] self.lastvis[lane]) matches Some(pos) ==> pos
                < self.objs.len())
        &&& forall|lane: int|
            0 <= lane < NLANES ==> ((#[trigger] self.lastln[lane]) matches Some(pos) ==> pos
                < self.objs.len())
    }

    /// The state with one more object.
    pub open spec fn add(self, time: Ratio, data: ObjData) -> PlacerModel {
        PlacerModel { objs: self.objs.push(Obj { time, data }), ..self }
    }

    /// The state before anything is placed, over the objects `objs`.
    pub open spec fn start(objs: Seq<Obj>) -> PlacerModel {
        PlacerModel {
            objs,
            shortens: seq![],
            lastvis: Seq::new(NLANES as nat, |i: int| None),
            lastln: Seq::new(NLANES as nat, |i: int| None),
        }
    }
}

/// The start of a long note in place of a visible note.
pub open spec fn as_start(data: ObjData) -> ObjData {
    match data {
        ObjData::Visible(lane, sound) => ObjData::LNStart(lane, sound),
        other => other,
    }
}

/// What a bomb with the key `v` takes from the gauge: the keys 1 to 200
/// stand for that many 200ths of the gauge, the last key for all of it, and
/// any other key for no bomb.
pub open spec fn bomb_damage(v: int) -> Option<Damage> {
    if 1 <= v <= 200 {
        Some(Damage::GaugeDamage(canonical(quot(v, 200))))
    } else if v == MAXKEY - 1 {
        Some(Damage::InstantDeath)
    } else {
        None
    }
}

/// The time line after the key `v`, which is not `00`, was met on the
/// channel `chan` at the position `t`, where the next key of the row would
/// stand at `t2`.
pub open spec fn place_key(
    st: PlacerModel,
    tab: TablesModel,
    chan: int,
    t: Ratio,
    t2: Ratio,
    v: Key,
) -> PlacerModel {
    if chan == 1 {
        st.add(t, ObjData::BGM(SoundRef(v)))
    } else if chan == 3 {
        match hex_value(v.0 as int) {
            Some(bpm) => st.add(t, ObjData::SetBPM(BPM(canonical(bpm as real)))),
            None => st,
        }
    } else if chan == 4 {
        st.add(t, ObjData::SetBGA(BGALayer::Layer1, Some(ImageRef(v))))
    } else if chan == 6 {
        st.add(t, ObjData::SetBGA(BGALayer::PoorBGA, Some(ImageRef(v))))
    } else if chan == 7 {
        st.add(t, ObjData::SetBGA(BGALayer::Layer2, Some(ImageRef(v))))
    } else if chan == 8 {
        st.add(t, ObjData::SetBPM(tab.bpmtab[v.0 as int]))
    } else if chan == 9 {
        st.add(t, ObjData::Stop(tab.stoptab[v.0 as int]))
    } else if chan == 10 {
        st.add(t, ObjData::SetBGA(BGALayer::Layer3, Some(ImageRef(v))))
    } else if 36 <= chan <= 107 {
        let lane = channel_lane(chan);
        if tab.lnobj == Some(v) {
            match st.lastvis[lane] {
                Some(pos) => PlacerModel {
                    objs: st.objs.update(
                        pos as int,
                        Obj { time: st.objs[pos as int].time, data: as_start(st.objs[pos as int].data) },
                    ).push(Obj { time: t, data: ObjData::LNDone(Lane(lane as usize), Some(SoundRef(v))) }),
                    lastvis: st.lastvis.update(lane, None),
                    ..st
                },
                None => st,
            }
        } else {
            PlacerModel {
                lastvis: st.lastvis.update(lane, Some(st.objs.len() as usize)),
                ..st.add(t, ObjData::Visible(Lane(lane as usize), Some(SoundRef(v))))
            }
        }
    } else if 108 <= chan <= 179 {
        st.add(t, ObjData::Invisible(Lane(channel_lane(chan) as usize), Some(SoundRef(v))))
    } else if 180 <= chan <= 251 && !tab.consecutiveln {
        let lane = channel_lane(chan);
        if st.lastln[lane] is Some {
            PlacerModel {
                lastln: st.lastln.update(lane, None),
                ..st.add(t, ObjData::LNDone(Lane(lane as usize), Some(SoundRef(v))))
            }
        } else {
            PlacerModel {
                lastln: st.lastln.update(lane, Some(st.objs.len() as usize)),
                ..st.add(t, ObjData::LNStart(Lane(lane as usize), Some(SoundRef(v))))
            }
        }
    } else if 180 <= chan <= 251 {
        let lane = channel_lane(chan);
        if st.lastln[lane] matches Some(pos) && st.objs[pos as int].time@ == t@ {
            let pos = st.lastln[lane].unwrap();
            PlacerModel {
                objs: st.objs.update(pos as int, Obj { time: t2, data: st.objs[pos as int].data }),
                ..st
            }
        } else {
            PlacerModel {
                lastln: st.lastln.update(lane, Some((st.objs.len() + 1) as usize)),
                ..st.add(t, ObjData::LNStart(Lane(lane as usize), Some(SoundRef(v)))).add(
                    t2,
                    ObjData::LNDone(Lane(lane as usize), Some(SoundRef(v))),
                )
            }
        }
    } else if 468 <= chan <= 539 {
        match bomb_damage(v.0 as int) {
            Some(damage) => st.add(
                t,
                ObjData::Bomb(Lane(channel_lane(chan) as usize), Some(SoundRef(Key(0))), damage),
            ),
            None => st,
        }
    } else {
        st
    }
}

/// The position of the `k`th of `count` keys in the measure `measure`.
pub open spec fn token_time(measure: int, k: int, count: int) -> real {
    quot(measure * count + k, count)
}

/// The time line after the `k`th key of a row was met. A key that reads as
/// `00`, or does not read as a key, places nothing, and neither does one
/// whose position cannot be represented.
pub open spec fn place_token(st: PlacerModel, tab: TablesModel, line: LineModel, k: int) -> PlacerModel {
    let count = (line.data.len() / 2) as int;
    let t = token_time(line.measure as int, k, count);
    let t2 = token_time(line.measure as int, k + 1, count);
    match key_at(line.data, 2 * k) {
        Some((v, _)) => if v.0 != 0 && representable(t) && representable(t2) {
            place_key(st, tab, line.chan.0 as int, canonical(t), canonical(t2), v)
        } else {
            st
        },
        None => st,
    }
}

/// The time line after the first `n` keys of a row were met.
pub open spec fn place_tokens(st: PlacerModel, tab: TablesModel, line: LineModel, n: int) -> PlacerModel
    decreases n,
{
    if n <= 0 {
        st
    } else {
        place_token(place_tokens(st, tab, line, n - 1), tab, line, n - 1)
    }
}

/// The list `s`, filled up with ones to the length `len`.
pub open spec fn padded(s: Seq<Ratio>, len: int) -> Seq<Ratio> {
    if s.len() >= len {
        s
    } else {
        s + Seq::new((len - s.len()) as nat, |i: int| canonical(1real))
    }
}

/// The time line after the scaling factor of a measure was met: the data
/// is read as a decimal number, which counts if it is above a thousandth.
pub open spec fn place_shorten(st: PlacerModel, line: LineModel) -> PlacerModel {
    match decimal_at(line.data, skip_spaces(line.data, 0)) {
        Some((shorten, _)) => if shorten@ > quot(1, 1000) {
            PlacerModel {
                shortens: padded(st.shortens, line.measure + 1).update(line.measure as int, shorten),
                ..st
            }
        } else {
            st
        },
        None => st,
    }
}

/// The time line after the data of one channel in one measure was met.
pub open spec fn place_line(st: PlacerModel, tab: TablesModel, line: LineModel) -> PlacerModel {
    if line.chan.0 == 2 {
        place_shorten(st, line)
    } else {
        place_tokens(st, tab, line, (line.data.len() / 2) as int)
    }
}

/// The time line after the first `n` of the lines were met.
pub open spec fn place_lines(st: PlacerModel, tab: TablesModel, lines: Seq<LineModel>, n: int) -> PlacerModel
    decreases n,
{
    if n <= 0 {
        st
    } else {
        place_line(place_lines(st, tab, lines, n - 1), tab, lines[n - 1])
    }
}

/// Every fraction of two 64-bit integers can be represented.
pub proof fn lemma_representable(n: int, d: int)
    requires
        crate::ratio::in_range(n, d),
    ensures
        representable(quot(n, d)),
{
}

/// Placing keys leaves the scaling factors as they are.
pub proof fn lemma_place_tokens_scaling(st: PlacerModel, tab: TablesModel, line: LineModel, n: int)
    ensures
        place_tokens(st, tab, line, n).shortens == st.shortens,
    decreases n,
{
    if n > 0 {
        lemma_place_tokens_scaling(st, tab, line, n - 1);
    }
}

/// A scaling factor is placed only if it is above zero: where the factors
/// were above zero before the lines, they are after them.
pub proof fn lemma_place_lines_scaling(st: PlacerModel, tab: TablesModel, lines: Seq<LineModel>, n: int)
    requires
        shortens_positive(st.shortens),
    ensures
        shortens_positive(place_lines(st, tab, lines, n).shortens),
    decreases n,
{
    if n > 0 {
        lemma_place_lines_scaling(st, tab, lines, n - 1);
        let before = place_lines(st, tab, lines, n - 1);
        let line = lines[n - 1];
        if line.chan.0 == 2 {
            crate::ratio::lemma_quot_one(1);
            lemma_representable(1, 1);
            crate::ratio::lemma_canonical_value(1real);
            crate::ratio::lemma_quot_sign(1, 1000);
            let after = place_shorten(before, line);
            let filled = padded(before.shortens, line.measure + 1);
            assert forall|i: int| 0 <= i < filled.len() implies (#[trigger] filled[i])@ > 0real by {
                if i < before.shortens.len() {
                    assert(before.shortens[i]@ > 0real);
                }
            }
            assert forall|i: int| 0 <= i < after.shortens.len() implies (#[trigger] after.shortens[i])@
                > 0real by {
                if after.shortens != before.shortens && i != line.measure {
                    assert(after.shortens[i] == filled[i]);
                }
            }
        } else {
            lemma_place_tokens_scaling(before, tab, line, (line.data.len() / 2) as int);
        }
    }
}

/// A list with no index for any lane.
fn no_indices() -> (r: Vec<Option<usize>>)
    ensures
        r@ == Seq::new(NLANES as nat, |i: int| None::<usize>),
{
    let mut r: Vec<Option<usize>> = Vec::new();
    let mut i: usize = 0;
    while i < NLANES
        invariant
            i <= NLANES,
            r@.len() == i,
            forall|j: int| 0 <= j < i ==> r@[j] is None,
        decreases NLANES - i,
    {
        r.push(None);
        i += 1;
    }
    assert(r@ =~= Seq::new(NLANES as nat, |i: int| None::<usize>));
    r
}

impl Placer {
    /// The state before anything is placed, over the objects `objs`.
    pub fn new(objs: Vec<Obj>) -> (r: Placer)
        ensures
            r@ == PlacerModel::start(objs@),
    {
        Placer {
            objs,
            shortens: Vec::new(),
            lastvis: no_indices(),
            lastln: no_indices(),
        }
    }

    /// Places one more object.
    fn add(&mut self, time: Ratio, data: ObjData)
        ensures
            final(self)@ == old(self)@.add(time, data),
    {
        self.objs.push(Obj { time, data });
    }

    /// Places what the key `v`, which is not `00`, stands for on the
    /// channel `chan` at the position `t`, where the next key of the row
    /// would stand at `t2`.
    pub fn place_key(&mut self, tab: &Tables, chan: Key, t: Ratio, t2: Ratio, v: Key)
        requires
            old(self)@.wf(),
            tab@.wf(),
            0 <= chan.0 < MAXKEY,
            0 <= v.0 < MAXKEY,
        ensures
            final(self)@ == place_key(old(self)@, tab@, chan.0 as int, t, t2, v),
            final(self)@.wf(),
    {
        let c = chan.0;
        if c == 1 {
            self.add(t, ObjData::BGM(SoundRef(v)));
        } else if c == 3 {
            match v.to_hex() {
                Some(bpm) => {
                    self.add(t, ObjData::SetBPM(BPM(Ratio::from_int(bpm))));
                },
                None => {},
            }
        } else if c == 4 {
            self.add(t, ObjData::SetBGA(BGALayer::Layer1, Some(ImageRef(v))));
        } else if c == 6 {
            self.add(t, ObjData::SetBGA(BGALayer::PoorBGA, Some(ImageRef(v))));
        } else if c == 7 {
            self.add(t, ObjData::SetBGA(BGALayer::Layer2, Some(ImageRef(v))));
        } else if c == 8 {
            self.add(t, ObjData::SetBPM(tab.bpmtab[v.0 as usize]));
        } else if c == 9 {
            self.add(t, ObjData::Stop(tab.stoptab[v.0 as usize]));
        } else if c == 10 {
            self.add(t, ObjData::SetBGA(BGALayer::Layer3, Some(ImageRef(v))));
        } else if 36 <= c && c <= 107 {
            let lane = Lane::from_channel(chan);
            let is_end = match tab.lnobj {
                Some(end) => end.0 == v.0,
                None => false,
            };
            if is_end {
                match self.lastvis[lane.0] {
                    Some(pos) => {
                        let last = self.objs[pos];
                        let data = match last.data {
                            ObjData::Visible(lane, sound) => ObjData::LNStart(lane, sound),
                            other => other,
                        };
                        self.objs[pos] = Obj { time: last.time, data };
                        self.objs.push(Obj { time: t, data: ObjData::LNDone(lane, Some(SoundRef(v))) });
                        self.lastvis[lane.0] = None;
                    },
                    None => {},
                }
            } else {
                let marked = self.objs.len();
                self.add(t, ObjData::Visible(lane, Some(SoundRef(v))));
                self.lastvis[lane.0] = Some(marked);
            }
        } else if 108 <= c && c <= 179 {
            let lane = Lane::from_channel(chan);
            self.add(t, ObjData::Invisible(lane, Some(SoundRef(v))));
        } else if 180 <= c && c <= 251 && !tab.consecutiveln {
            let lane = Lane::from_channel(chan);
            if self.lastln[lane.0].is_some() {
                self.add(t, ObjData::LNDone(lane, Some(SoundRef(v))));
                self.lastln[lane.0] = None;
            } else {
                let marked = self.objs.len();
                self.add(t, ObjData::LNStart(lane, Some(SoundRef(v))));
                self.lastln[lane.0] = Some(marked);
            }
        } else if 180 <= c && c <= 251 {
            let lane = Lane::from_channel(chan);
            let joined = match self.lastln[lane.0] {
                Some(pos) => if self.objs[pos].time.same(&t) {
                    let last = self.objs[pos];
                    self.objs[pos] = Obj { time: t2, data: last.data };
                    true
                } else {
                    false
                },
                None => false,
            };
            if !joined {
                self.add(t, ObjData::LNStart(lane, Some(SoundRef(v))));
                let marked = self.objs.len();
                self.add(t2, ObjData::LNDone(lane, Some(SoundRef(v))));
                self.lastln[lane.0] = Some(marked);
            }
        } else if 468 <= c && c <= 539 {
            let lane = Lane::from_channel(chan);
            if 1 <= v.0 && v.0 <= 200 {
                proof {
                    lemma_representable(v.0 as int, 200);
                }
                match Ratio::new(v.0, 200) {
                    Some(ratio) => {
                        self.add(t, ObjData::Bomb(lane, Some(SoundRef(Key(0))), Damage::GaugeDamage(ratio)));
                    },
                    None => {},
                }
            } else if v.0 == MAXKEY - 1 {
                self.add(t, ObjData::Bomb(lane, Some(SoundRef(Key(0))), Damage::InstantDeath));
            }
        }
    }

    /// Places what the `k`th key of a row stands for.
    fn place_token(&mut self, tab: &Tables, line: &BmsLine, k: usize)
        requires
            old(self)@.wf(),
            tab@.wf(),
            line@.wf(),
            k < line.data@.len() / 2,
        ensures
            final(self)@ == place_token(old(self)@, tab@, line@, k as int),
            final(self)@.wf(),
    {
        let count = line.data.len() / 2;
        match Key::from_str_prefix(line.data.as_slice(), 2 * k) {
            Some((v, _)) => {
                if v.0 != 0 {
                    assert(line.measure * count <= 1000 * 0xffff_ffff_ffff_ffff) by (nonlinear_arith)
                        requires
                            0 <= line.measure < 1000,
                            0 <= count <= 0xffff_ffff_ffff_ffff,
                    {
                    }
                    let base: i128 = (line.measure as i128) * (count as i128);
                    let t = Ratio::from_wide(base + (k as i128), count as i128);
                    let t2 = Ratio::from_wide(base + (k as i128) + 1, count as i128);
                    proof {
                        crate::key::lemma_key_at_valid(line.data@, 2 * k);
                    }
                    match (t, t2) {
                        (Some(t), Some(t2)) => {
                            self.place_key(tab, line.chan, t, t2, v);
                        },
                        _ => {},
                    }
                }
            },
            None => {},
        }
    }

    /// Sets the scaling factor of a measure from the data of its channel.
    fn place_shorten(&mut self, line: &BmsLine)
        requires
            old(self)@.wf(),
            line@.wf(),
        ensures
            final(self)@ == place_shorten(old(self)@, line@),
            final(self)@.wf(),
    {
        let data = line.data.as_slice();
        let pos = trim_left(data, 0);
        match read_decimal(data, pos) {
            Some((shorten, _)) => {
                proof {
                    lemma_representable(1, 1000);
                }
                let least = match Ratio::new(1, 1000) {
                    Some(least) => least,
                    None => {
                        return ;
                    },
                };
                if least.lt(&shorten) {
                    let ghost before = self.shortens@;
                    while self.shortens.len() <= line.measure
                        invariant
                            line.measure < 1000,
                            self.shortens@.len() > before.len() ==> self.shortens@.len()
                                <= line.measure + 1,
                            self.shortens@.len() >= before.len(),
                            self.shortens@ =~= padded(before, self.shortens@.len() as int),
                            self.objs == old(self).objs,
                            self.lastvis == old(self).lastvis,
                            self.lastln == old(self).lastln,
                        decreases line.measure + 1 - self.shortens@.len(),
                    {
                        self.shortens.push(Ratio::from_int(1));
                    }
                    assert(self.shortens@ =~= padded(before, line.measure + 1));
                    self.shortens[line.measure] = shorten;
                }
            },
            None => {},
        }
    }

    /// Places the data of one channel in one measure.
    pub fn place_line(&mut self, tab: &Tables, line: &BmsLine)
        requires
            old(self)@.wf(),
            tab@.wf(),
            line@.wf(),
        ensures
            final(self)@ == place_line(old(self)@, tab@, line@),
            final(self)@.wf(),
    {
        if line.chan.0 == 2 {
            self.place_shorten(line);
        } else {
            let count = line.data.len() / 2;
            let mut k: usize = 0;
            while k < count
                invariant
                    k <= count == line.data@.len() / 2,
                    self@.wf(),
                    tab@.wf(),
                    line@.wf(),
                    self@ == place_tokens(old(self)@, tab@, line@, k as int),
                decreases count - k,
            {
                self.place_token(tab, line, k);
                k += 1;
            }
        }
    }
}

} // verus!
