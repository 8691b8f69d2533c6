//! Reading a source file into a chart.
//!
//! The file is read line by line. Directives on blocks steer which lines
//! count; the lines that do either set a property of the chart or hold the
//! data of a channel. The data is kept back until the whole file is read,
//! put in the order of measure and channel, and only then placed on the
//! time line.

use vstd::prelude::*;
use vstd::slice::{slice_subrange, slice_to_vec};
use crate::block::{
    blocks_after, blocks_inactive, draw_in_range, drawn_at, draws_number, initial_blocks, is_control,
    process_block, Block, BlockState,
};
use crate::bms::{paths_view, text_view, BlitCmd, Bms, BmsModel};
use crate::directive::{directive_fits, directive_of, parse_directive, Directive, Header, Span};
use crate::key::{Key, MAXKEY};
use crate::lane::{Lane, NLANES};
use crate::obj::{BGALayer, Duration, ImageRef, Obj, ObjData, BPM};
use crate::ratio::{canonical, quot, representable, Ratio};
use crate::replay::{
    lemma_place_lines_scaling, lemma_representable, place_lines, BmsLine, LineModel, Placer,
    PlacerModel, Tables, TablesModel,
};
use crate::timeline::shortens_positive;
use crate::rng::Rng;

verus! {

/// Where the line that starts at `pos` ends: at the next line feed, or at
/// the end of the file.
pub open spec fn line_end(data: Seq<u8>, pos: int) -> int
    decreases data.len() - pos,
{
    if 0 <= pos < data.len() && data[pos] != 10 {
        line_end(data, pos + 1)
    } else {
        pos
    }
}

pub proof fn lemma_line_end_bounds(data: Seq<u8>, pos: int)
    requires
        0 <= pos <= data.len(),
    ensures
        pos <= line_end(data, pos) <= data.len(),
    decreases data.len() - pos,
{
    if pos < data.len() && data[pos] != 10 {
        lemma_line_end_bounds(data, pos + 1);
    }
}

/// The lines of the file from `pos` on. What follows the last line feed is
/// a line too, even when it is empty.
pub open spec fn lines_from(data: Seq<u8>, pos: int) -> Seq<Seq<u8>>
    decreases data.len() - pos,
    when 0 <= pos <= data.len()
{
    let end = line_end(data, pos);
    if end >= data.len() {
        seq![data.subrange(pos, data.len() as int)]
    } else {
        proof {
            lemma_line_end_bounds(data, pos);
        }
        seq![data.subrange(pos, end)] + lines_from(data, end + 1)
    }
}

/// The lines of the file.
pub open spec fn lines_of(data: Seq<u8>) -> Seq<Seq<u8>> {
    lines_from(data, 0)
}

/// What has been read of a file.
pub struct Reader {
    /// The blocks that are open.
    pub blk: Vec<Block>,
    /// The chart, as far as the properties go, with the stops that are
    /// given by their own directive.
    pub bms: Bms,
    /// The tables, and how long notes are written.
    pub tab: Tables,
    /// The data of the channels, in the order of measure and channel, and
    /// within these in the order of the file.
    pub lines: Vec<BmsLine>,
}

/// [`Reader`] as a mathematical value.
pub struct ReaderModel {
    pub blk: Seq<Block>,
    pub bms: BmsModel,
    pub tab: TablesModel,
    pub lines: Seq<LineModel>,
}

/// The lines as mathematical values.
pub open spec fn lines_view(lines: Seq<BmsLine>) -> Seq<LineModel> {
    Seq::new(lines.len(), |i: int| lines[i]@)
}

impl View for Reader {
    type V = ReaderModel;

    open spec fn view(&self) -> ReaderModel {
        ReaderModel {
            blk: self.blk@,
            bms: self.bms@,
            tab: self.tab@,
            lines: lines_view(self.lines@),
        }
    }
}

/// Whether the data `a` comes before the data `b`: in an earlier measure,
/// or in the same measure on a lower channel.
pub open spec fn line_before(a: LineModel, b: LineModel) -> bool {
    a.measure < b.measure || (a.measure == b.measure && a.chan.0 < b.chan.0)
}

/// Where `x` goes among the first `n` lines: behind every line that it does
/// not come before.
pub open spec fn insert_at(lines: Seq<LineModel>, x: LineModel, n: int) -> int
    decreases n,
{
    if 0 < n <= lines.len() && line_before(x, lines[n - 1]) {
        insert_at(lines, x, n - 1)
    } else {
        n
    }
}

/// The lines with `x` put in its place.
pub open spec fn insert_line(lines: Seq<LineModel>, x: LineModel) -> Seq<LineModel> {
    lines.insert(insert_at(lines, x, lines.len() as int), x)
}

impl ReaderModel {
    /// Nothing read yet.
    pub open spec fn start() -> ReaderModel {
        ReaderModel {
            blk: initial_blocks(),
            bms: BmsModel::empty(),
            tab: TablesModel {
                bpmtab: Seq::new(MAXKEY as nat, |i: int| crate::bms::default_bpm()),
                stoptab: Seq::new(MAXKEY as nat, |i: int| Duration::Seconds(canonical(0real))),
                consecutiveln: false,
                lnobj: None,
            },
            lines: seq![],
        }
    }

    /// Whether there is a block, the tables are whole and the lines are
    /// well formed.
    pub open spec fn wf(self) -> bool {
        &&& self.blk.len() > 0
        &&& self.tab.wf()
        &&& self.bms.sndpath.len() == MAXKEY
        &&& self.bms.imgpath.len() == MAXKEY
        &&& forall|i: int| 0 <= i < self.lines.len() ==> (#[trigger] self.lines[i]).wf()
    }

    /// The state after a directive that sets a property or holds data,
    /// read from `line` where lines count.
    pub open spec fn apply(self, line: Seq<u8>, d: Directive) -> ReaderModel {
        match d {
            Directive::Text(header, span) => {
                let text = Some(line.subrange(span.from as int, span.to as int));
                match header {
                    Header::Title => ReaderModel { bms: BmsModel { title: text, ..self.bms }, ..self },
                    Header::Genre => ReaderModel { bms: BmsModel { genre: text, ..self.bms }, ..self },
                    Header::Artist => ReaderModel {
                        bms: BmsModel { artist: text, ..self.bms },
                        ..self
                    },
                    Header::StageFile => ReaderModel {
                        bms: BmsModel { stagefile: text, ..self.bms },
                        ..self
                    },
                    Header::PathWav => ReaderModel {
                        bms: BmsModel { basepath: text, ..self.bms },
                        ..self
                    },
                    _ => self,
                }
            },
            Directive::Value(header, v) => match header {
                Header::Player => ReaderModel { bms: BmsModel { player: v, ..self.bms }, ..self },
                Header::PlayLevel => ReaderModel {
                    bms: BmsModel { playlevel: v, ..self.bms },
                    ..self
                },
                Header::Rank => ReaderModel { bms: BmsModel { rank: v, ..self.bms }, ..self },
                Header::LnType => ReaderModel {
                    tab: TablesModel { consecutiveln: v == 2, ..self.tab },
                    ..self
                },
                _ => self,
            },
            Directive::InitBpm(bpm) => ReaderModel {
                bms: BmsModel { initbpm: BPM(bpm), ..self.bms },
                ..self
            },
            Directive::BpmEntry(key, bpm) => ReaderModel {
                tab: TablesModel { bpmtab: self.tab.bpmtab.update(key.0 as int, BPM(bpm)), ..self.tab },
                ..self
            },
            Directive::LnObj(key) => ReaderModel {
                tab: TablesModel { lnobj: Some(key), ..self.tab },
                ..self
            },
            Directive::Path(header, key, span) => {
                let text = Some(line.subrange(span.from as int, span.to as int));
                match header {
                    Header::Wav => ReaderModel {
                        bms: BmsModel {
                            sndpath: self.bms.sndpath.update(key.0 as int, text),
                            ..self.bms
                        },
                        ..self
                    },
                    Header::Bmp => ReaderModel {
                        bms: BmsModel {
                            imgpath: self.bms.imgpath.update(key.0 as int, text),
                            ..self.bms
                        },
                        ..self
                    },
                    _ => self,
                }
            },
            Directive::Blit(bc) => ReaderModel {
                bms: BmsModel { blitcmd: self.bms.blitcmd.push(bc), ..self.bms },
                ..self
            },
            Directive::StopEntry(key, duration) => ReaderModel {
                tab: TablesModel {
                    stoptab: self.tab.stoptab.update(
                        key.0 as int,
                        Duration::Measures(canonical(quot(duration as int, 192))),
                    ),
                    ..self.tab
                },
                ..self
            },
            Directive::Stp(measure, frac, duration) => {
                let pos = quot(measure * 1000 + frac, 1000);
                if representable(pos) {
                    ReaderModel {
                        bms: BmsModel {
                            objs: self.bms.objs.push(
                                Obj {
                                    time: canonical(pos),
                                    data: ObjData::Stop(
                                        Duration::Seconds(canonical(quot(duration as int, 1000))),
                                    ),
                                },
                            ),
                            ..self.bms
                        },
                        ..self
                    }
                } else {
                    self
                }
            },
            Directive::Data(measure, chan, span) => ReaderModel {
                lines: insert_line(
                    self.lines,
                    LineModel {
                        measure,
                        chan,
                        data: line.subrange(span.from as int, span.to as int),
                    },
                ),
                ..self
            },
            _ => self,
        }
    }

    /// The state after the directive `d`, read from `line`, where `draw` is
    /// the number that is drawn if one is.
    pub open spec fn read_directive(self, line: Seq<u8>, d: Directive, draw: int) -> ReaderModel {
        if is_control(d) {
            ReaderModel { blk: blocks_after(self.blk, d, draw), ..self }
        } else if blocks_inactive(self.blk) {
            self
        } else {
            self.apply(line, d)
        }
    }

    /// The state after `line`.
    pub open spec fn read_line(self, line: Seq<u8>, draw: int) -> ReaderModel {
        self.read_directive(line, directive_of(line), draw)
    }
}

/// The state after all of `lines`, where `draws` holds, for each line, the
/// number that is drawn there if one is.
pub open spec fn read_lines(lines: Seq<Seq<u8>>, draws: Seq<int>) -> ReaderModel
    decreases lines.len(),
{
    if lines.len() == 0 {
        ReaderModel::start()
    } else {
        read_lines(lines.drop_last(), draws.drop_last()).read_line(lines.last(), draws.last())
    }
}

/// The numbers that the lines draw from the source `r`, one for each line,
/// and the source after them. A line draws a number only where it is a
/// `#RANDOM` that is not skipped; a line that draws none has the number 1,
/// which does not matter, and leaves the source as it is.
pub open spec fn draws_from<R: Rng>(lines: Seq<Seq<u8>>, r: R) -> (Seq<int>, R)
    decreases lines.len(),
{
    if lines.len() == 0 {
        (Seq::empty(), r)
    } else {
        let (draws, src) = draws_from(lines.drop_last(), r);
        let (draw, after) = drawn_at(
            read_lines(lines.drop_last(), draws).blk,
            directive_of(lines.last()),
            src,
        );
        (draws.push(draw), after)
    }
}

/// Whether each number of `draws` may be drawn on its line.
pub open spec fn draws_in_range(lines: Seq<Seq<u8>>, draws: Seq<int>) -> bool {
    draws.len() == lines.len() && forall|i: int|
        0 <= i < lines.len() ==> draw_in_range(directive_of(#[trigger] lines[i]), draws[i])
}

/// The objects with an end for every long note that was left open on one
/// of the first `n` lanes.
pub open spec fn close_lanes(objs: Seq<Obj>, placed: PlacerModel, consecutiveln: bool, endt: Ratio, n: int) -> Seq<Obj>
    decreases n,
{
    if n <= 0 {
        objs
    } else {
        let closed = close_lanes(objs, placed, consecutiveln, endt, n - 1);
        if placed.lastvis[n - 1] is Some || (!consecutiveln && placed.lastln[n - 1] is Some) {
            closed.push(Obj { time: endt, data: ObjData::LNDone(Lane((n - 1) as usize), None) })
        } else {
            closed
        }
    }
}

/// The number of measures: one more than the last measure that has data.
pub open spec fn measure_count(lines: Seq<LineModel>) -> usize {
    if lines.len() == 0 {
        1
    } else {
        (lines.last().measure + 1) as usize
    }
}

/// The chart that comes of what was read: the data is placed, an image for
/// missed notes is set at the origin unless the data sets one, and every
/// long note that was left open is closed behind the last measure.
pub open spec fn finish(st: ReaderModel) -> BmsModel {
    let placed = place_lines(PlacerModel::start(st.bms.objs), st.tab, st.lines, st.lines.len() as int);
    let objs = if !poor_at_origin(placed.objs, placed.objs.len() as int) {
        placed.objs.push(
            Obj {
                time: canonical(0real),
                data: ObjData::SetBGA(BGALayer::PoorBGA, Some(ImageRef(Key(0)))),
            },
        )
    } else {
        placed.objs
    };
    let nmeasures = measure_count(st.lines);
    BmsModel {
        objs: close_lanes(
            objs,
            placed,
            st.tab.consecutiveln,
            canonical(nmeasures as real),
            NLANES as int,
        ),
        shortens: placed.shortens,
        nmeasures,
        ..st.bms
    }
}

/// The chart that the lines describe, where `draws` holds, for each line,
/// the number that is drawn there if one is.
pub open spec fn chart_of(lines: Seq<Seq<u8>>, draws: Seq<int>) -> BmsModel {
    finish(read_lines(lines, draws))
}

/// Whether the object is an image for missed notes at the very start of
/// the chart.
pub open spec fn is_poor_at_origin(obj: Obj) -> bool {
    obj.data matches ObjData::SetBGA(BGALayer::PoorBGA, _) && obj.time@ == 0real
}

/// Whether one of the first `n` objects is an image for missed notes at the
/// very start of the chart.
pub open spec fn poor_at_origin(objs: Seq<Obj>, n: int) -> bool {
    exists|i: int| 0 <= i < n && i < objs.len() && is_poor_at_origin(#[trigger] objs[i])
}

/// Every chart that is read has an image for missed notes at its very
/// start: where the file places none there, one is added.
pub proof fn lemma_chart_has_poor_image(lines: Seq<Seq<u8>>, draws: Seq<int>)
    ensures
        poor_at_origin(chart_of(lines, draws).objs, chart_of(lines, draws).objs.len() as int),
{
    let st = read_lines(lines, draws);
    let placed = place_lines(PlacerModel::start(st.bms.objs), st.tab, st.lines, st.lines.len() as int);
    let poor = Obj {
        time: canonical(0real),
        data: ObjData::SetBGA(BGALayer::PoorBGA, Some(ImageRef(Key(0)))),
    };
    let objs = if !poor_at_origin(placed.objs, placed.objs.len() as int) {
        placed.objs.push(poor)
    } else {
        placed.objs
    };
    lemma_representable(0, 1);
    crate::ratio::lemma_quot_one(0);
    crate::ratio::lemma_canonical_value(0real);
    let at = if !poor_at_origin(placed.objs, placed.objs.len() as int) {
        assert(is_poor_at_origin(objs[placed.objs.len() as int]));
        placed.objs.len() as int
    } else {
        choose|i: int| 0 <= i < placed.objs.len() && is_poor_at_origin(#[trigger] placed.objs[i])
    };
    assert(is_poor_at_origin(objs[at]));
    lemma_close_lanes_keeps(
        objs,
        placed,
        st.tab.consecutiveln,
        canonical(measure_count(st.lines) as real),
        NLANES as int,
    );
    let closed = chart_of(lines, draws).objs;
    assert(closed[at] == objs[at]);
}

/// Closing the lanes adds objects and changes none.
pub proof fn lemma_close_lanes_keeps(objs: Seq<Obj>, placed: PlacerModel, consecutiveln: bool, endt: Ratio, n: int)
    ensures
        close_lanes(objs, placed, consecutiveln, endt, n).len() >= objs.len(),
        forall|i: int|
            0 <= i < objs.len() ==> #[trigger] close_lanes(objs, placed, consecutiveln, endt, n)[i]
                == objs[i],
    decreases n,
{
    if n > 0 {
        lemma_close_lanes_keeps(objs, placed, consecutiveln, endt, n - 1);
    }
}

/// Every scaling factor of a chart that is read is above zero.
pub proof fn lemma_chart_scaling_positive(lines: Seq<Seq<u8>>, draws: Seq<int>)
    ensures
        shortens_positive(chart_of(lines, draws).shortens),
{
    let st = read_lines(lines, draws);
    lemma_place_lines_scaling(PlacerModel::start(st.bms.objs), st.tab, st.lines, st.lines.len() as int);
}

/// Whether one of the objects is an image for missed notes at the very
/// start of the chart.
fn has_poor_at_origin(objs: &Vec<Obj>) -> (r: bool)
    ensures
        r == poor_at_origin(objs@, objs@.len() as int),
{
    let mut i: usize = 0;
    while i < objs.len()
        invariant
            i <= objs@.len(),
            !poor_at_origin(objs@, i as int),
        decreases objs@.len() - i,
    {
        let found = match objs[i].data {
            ObjData::SetBGA(BGALayer::PoorBGA, _) => objs[i].time.is_zero(),
            _ => false,
        };
        if found {
            assert(is_poor_at_origin(objs@[i as int]));
            return true;
        }
        i += 1;
    }
    false
}

/// A table that holds `value` for every key.
fn filled_table<T: Copy>(value: T) -> (r: Vec<T>)
    ensures
        r@ == Seq::new(MAXKEY as nat, |i: int| value),
{
    let mut r: Vec<T> = Vec::new();
    let mut i: i64 = 0;
    while i < MAXKEY
        invariant
            0 <= i <= MAXKEY,
            r@.len() == i,
            forall|j: int| 0 <= j < i ==> r@[j] == value,
        decreases MAXKEY - i,
    {
        r.push(value);
        i += 1;
    }
    assert(r@ =~= Seq::new(MAXKEY as nat, |i: int| value));
    r
}

/// The part `span` of `line`.
fn copy_span(line: &[u8], span: Span) -> (r: Vec<u8>)
    requires
        span.from <= span.to <= line@.len(),
    ensures
        r@ == line@.subrange(span.from as int, span.to as int),
{
    slice_to_vec(slice_subrange(line, span.from, span.to))
}

impl Reader {
    /// Nothing read yet.
    pub fn new() -> (r: Reader)
        ensures
            r@ == ReaderModel::start(),
            r@.wf(),
    {
        let mut blk: Vec<Block> = Vec::new();
        blk.push(Block { val: None, state: BlockState::Outside, skip: false });
        assert(blk@ =~= initial_blocks());
        let r = Reader {
            blk,
            bms: Bms::new(),
            tab: Tables {
                bpmtab: filled_table(BPM(Ratio::from_int(130))),
                stoptab: filled_table(Duration::Seconds(Ratio::from_int(0))),
                consecutiveln: false,
                lnobj: None,
            },
            lines: Vec::new(),
        };
        assert(r@.lines =~= seq![]);
        r
    }

    /// Puts the data of a channel in its place among the lines.
    fn insert(&mut self, line: BmsLine)
        requires
            old(self)@.wf(),
            line@.wf(),
        ensures
            final(self)@ == (ReaderModel {
                lines: insert_line(old(self)@.lines, line@),
                ..old(self)@
            }),
            final(self)@.wf(),
    {
        let ghost before = lines_view(self.lines@);
        let mut n = self.lines.len();
        while n > 0 && (line.measure < self.lines[n - 1].measure || (line.measure
            == self.lines[n - 1].measure && line.chan.0 < self.lines[n - 1].chan.0))
            invariant
                n <= self.lines@.len(),
                self.lines == old(self).lines,
                before == lines_view(self.lines@),
                insert_at(before, line@, before.len() as int) == insert_at(before, line@, n as int),
            decreases n,
        {
            assert(before[n - 1] == self.lines@[n - 1]@);
            n -= 1;
        }
        proof {
            if n > 0 {
                assert(before[n - 1] == self.lines@[n - 1]@);
            }
        }
        let ghost model = line@;
        self.lines.insert(n, line);
        assert(lines_view(self.lines@) =~= before.insert(n as int, model));
        assert forall|i: int| 0 <= i < self@.lines.len() implies (#[trigger] self@.lines[i]).wf() by {
            if i < n {
                assert(self@.lines[i] == before[i]);
            } else if i > n {
                assert(self@.lines[i] == before[i - 1]);
            }
        }
    }

    /// Obeys a directive that sets a property or holds data.
    fn apply(&mut self, line: &[u8], d: Directive)
        requires
            old(self)@.wf(),
            directive_fits(d, line@.len()),
        ensures
            final(self)@ == old(self)@.apply(line@, d),
            final(self)@.wf(),
    {
        match d {
            Directive::Text(header, span) => {
                let text = Some(copy_span(line, span));
                match header {
                    Header::Title => {
                        self.bms.title = text;
                    },
                    Header::Genre => {
                        self.bms.genre = text;
                    },
                    Header::Artist => {
                        self.bms.artist = text;
                    },
                    Header::StageFile => {
                        self.bms.stagefile = text;
                    },
                    Header::PathWav => {
                        self.bms.basepath = text;
                    },
                    _ => {},
                }
            },
            Directive::Value(header, v) => match header {
                Header::Player => {
                    self.bms.player = v;
                },
                Header::PlayLevel => {
                    self.bms.playlevel = v;
                },
                Header::Rank => {
                    self.bms.rank = v;
                },
                Header::LnType => {
                    self.tab.consecutiveln = v == 2;
                },
                _ => {},
            },
            Directive::InitBpm(bpm) => {
                self.bms.initbpm = BPM(bpm);
            },
            Directive::BpmEntry(key, bpm) => {
                self.tab.bpmtab[key.0 as usize] = BPM(bpm);
            },
            Directive::LnObj(key) => {
                self.tab.lnobj = Some(key);
            },
            Directive::Path(header, key, span) => {
                let text = Some(copy_span(line, span));
                let ghost model = text_view(text);
                match header {
                    Header::Wav => {
                        let ghost before = paths_view(self.bms.sndpath@);
                        self.bms.sndpath[key.0 as usize] = text;
                        assert(paths_view(self.bms.sndpath@) =~= before.update(key.0 as int, model));
                    },
                    Header::Bmp => {
                        let ghost before = paths_view(self.bms.imgpath@);
                        self.bms.imgpath[key.0 as usize] = text;
                        assert(paths_view(self.bms.imgpath@) =~= before.update(key.0 as int, model));
                    },
                    _ => {},
                }
            },
            Directive::Blit(bc) => {
                self.bms.blitcmd.push(bc);
            },
            Directive::StopEntry(key, duration) => {
                proof {
                    lemma_representable(duration as int, 192);
                }
                match Ratio::new(duration, 192) {
                    Some(length) => {
                        self.tab.stoptab[key.0 as usize] = Duration::Measures(length);
                    },
                    None => {},
                }
            },
            Directive::Stp(measure, frac, duration) => {
                proof {
                    lemma_representable(duration as int, 1000);
                }
                let pos = Ratio::from_wide((measure as i128) * 1000 + (frac as i128), 1000);
                let length = Ratio::new(duration, 1000);
                match (pos, length) {
                    (Some(pos), Some(length)) => {
                        self.bms.objs.push(Obj { time: pos, data: ObjData::Stop(Duration::Seconds(length)) });
                    },
                    _ => {},
                }
            },
            Directive::Data(measure, chan, span) => {
                let data = copy_span(line, span);
                self.insert(BmsLine { measure, chan, data });
            },
            _ => {},
        }
    }

    /// Reads one line, and returns the number that was drawn, if one was.
    /// The source is asked only by a `#RANDOM` that is not skipped.
    pub fn read_line<R: Rng>(&mut self, line: &[u8], r: &mut R) -> (drawn: Option<i64>)
        requires
            old(self)@.wf(),
        ensures
            drawn is Some <==> draws_number(old(self)@.blk, directive_of(line@)),
            drawn_or_one(drawn) == drawn_at(old(self)@.blk, directive_of(line@), *old(r)).0,
            *final(r) == drawn_at(old(self)@.blk, directive_of(line@), *old(r)).1,
            final(self)@ == old(self)@.read_line(line@, drawn_or_one(drawn)),
            draw_in_range(directive_of(line@), drawn_or_one(drawn)),
            final(self)@.wf(),
    {
        let d = parse_directive(line);
        match d {
            Directive::Random(_) | Directive::SetRandom(_) | Directive::EndRandom | Directive::If(_)
            | Directive::ElseIf(_) | Directive::Else | Directive::End => {
                process_block(&mut self.blk, d, r)
            },
            _ => {
                let top = self.blk.len() - 1;
                if !self.blk[top].inactive() {
                    self.apply(line, d);
                }
                None
            },
        }
    }

    /// Places the data and makes the chart.
    pub fn finish(self) -> (bms: Bms)
        requires
            self@.wf(),
        ensures
            bms@ == finish(self@),
    {
        let Reader { blk: _, bms, tab, lines } = self;
        let Bms {
            title,
            genre,
            artist,
            stagefile,
            basepath,
            player,
            playlevel,
            rank,
            initbpm,
            sndpath,
            imgpath,
            blitcmd,
            objs,
            shortens: _,
            nmeasures: _,
        } = bms;
        let ghost models = lines_view(lines@);
        let ghost start = PlacerModel::start(objs@);
        let mut placer = Placer::new(objs);
        let mut i: usize = 0;
        while i < lines.len()
            invariant
                i <= lines@.len(),
                models == lines_view(lines@),
                forall|j: int| 0 <= j < models.len() ==> (#[trigger] models[j]).wf(),
                tab@.wf(),
                placer@.wf(),
                placer@ == place_lines(start, tab@, models, i as int),
            decreases lines@.len() - i,
        {
            assert(models[i as int] == lines@[i as int]@);
            placer.place_line(&tab, &lines[i]);
            i += 1;
        }
        let ghost placed = placer@;
        let Placer { objs, shortens, lastvis, lastln } = placer;
        let mut objs = objs;
        if !has_poor_at_origin(&objs) {
            objs.push(
                Obj {
                    time: Ratio::from_int(0),
                    data: ObjData::SetBGA(BGALayer::PoorBGA, Some(ImageRef(Key(0)))),
                },
            );
        }
        let nmeasures: usize = if lines.len() == 0 {
            1
        } else {
            assert(models[lines@.len() - 1] == lines@[lines@.len() - 1]@);
            lines[lines.len() - 1].measure + 1
        };
        let endt = Ratio::from_int(nmeasures as i64);
        let ghost open = objs@;
        let mut lane: usize = 0;
        while lane < NLANES
            invariant
                lane <= NLANES,
                lastvis@ == placed.lastvis,
                lastln@ == placed.lastln,
                placed.wf(),
                objs@ == close_lanes(open, placed, tab.consecutiveln, endt, lane as int),
            decreases NLANES - lane,
        {
            if lastvis[lane].is_some() || (!tab.consecutiveln && lastln[lane].is_some()) {
                objs.push(Obj { time: endt, data: ObjData::LNDone(Lane(lane), None) });
            }
            lane += 1;
        }
        Bms {
            title,
            genre,
            artist,
            stagefile,
            basepath,
            player,
            playlevel,
            rank,
            initbpm,
            sndpath,
            imgpath,
            blitcmd,
            objs,
            shortens,
            nmeasures,
        }
    }
}

/// The number that was drawn, or one where none was.
pub open spec fn drawn_or_one(drawn: Option<i64>) -> int {
    match drawn {
        Some(v) => v as int,
        None => 1,
    }
}

/// Finds the end of the line that starts at `pos`.
fn find_line_end(data: &[u8], pos: usize) -> (r: usize)
    requires
        pos <= data@.len(),
    ensures
        r == line_end(data@, pos as int),
        pos <= r <= data@.len(),
{
    let mut i = pos;
    while i < data.len() && data[i] != 10
        invariant
            pos <= i <= data@.len(),
            line_end(data@, pos as int) == line_end(data@, i as int),
        decreases data@.len() - i,
    {
        i += 1;
    }
    i
}

/// Reads a source file into a chart. The random numbers that the file asks
/// for are drawn from `r`, in the order of the lines that ask; a line that
/// is skipped asks for none.
pub fn parse_bms_from_reader<R: Rng>(data: &[u8], r: &mut R) -> (bms: Bms)
    ensures
        bms@ == chart_of(lines_of(data@), draws_from(lines_of(data@), *old(r)).0),
        *final(r) == draws_from(lines_of(data@), *old(r)).1,
        draws_in_range(lines_of(data@), draws_from(lines_of(data@), *old(r)).0),
{
    let mut reader = Reader::new();
    let ghost mut seen: Seq<Seq<u8>> = seq![];
    let ghost mut draws: Seq<int> = seq![];
    let mut start: usize = 0;
    let mut done = false;
    while !done
        invariant
            start <= data@.len(),
            reader@.wf(),
            reader@ == read_lines(seen, draws),
            draws_in_range(seen, draws),
            (draws, *r) == draws_from(seen, *old(r)),
            !done ==> seen + lines_from(data@, start as int) == lines_of(data@),
            done ==> seen == lines_of(data@),
        decreases data@.len() - start + (if done { 0int } else { 1int }),
    {
        let end = find_line_end(data, start);
        let line = slice_subrange(data, start, end);
        let drawn = reader.read_line(line, r);
        proof {
            let ghost rest = lines_from(data@, start as int);
            let ghost first = seen.push(line@);
            let ghost drew = draws.push(drawn_or_one(drawn));
            assert(first.drop_last() =~= seen);
            assert(drew.drop_last() =~= draws);
            assert(first.last() == line@);
            assert(draws_from(first, *old(r)) == (drew, *r));
            if end >= data@.len() {
                assert(rest =~= seq![line@]);
                assert(seen + rest =~= first);
            } else {
                assert(rest =~= seq![line@] + lines_from(data@, end + 1));
                assert(seen + rest =~= first + lines_from(data@, end + 1));
            }
            seen = first;
            draws = drew;
        }
        if end >= data.len() {
            done = true;
        } else {
            start = end + 1;
        }
    }
    let bms = reader.finish();
    assert(bms@ == chart_of(lines_of(data@), draws));
    bms
}

} // verus!
